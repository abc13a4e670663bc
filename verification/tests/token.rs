use hmac::{Hmac, Mac};
use node_monitor::action::Action;
use node_monitor::codec::{encode, TokenError};
use node_monitor::token::{from_text, issue, redeem, to_text, SignedAction};
use sha2::Sha256;

fn subscribe(email: &str, node_id: &str) -> Action {
    Action::Subscribe { email: email.to_string(), node_id: node_id.to_string() }
}

fn expected_authenticator(key: &[u8], action: &Action) -> Vec<u8> {
    let mut mac = Hmac::<Sha256>::new_from_slice(key).unwrap();
    mac.update(&encode(action));
    mac.finalize().into_bytes().to_vec()
}

#[test]
fn sign_keeps_payload_and_adds_hmac() {
    let a = subscribe("a@example.com", "node1");
    let s = a.clone().sign(b"K");
    assert_eq!(s.payload, a);
    assert_eq!(s.authenticator.len(), 32);
    assert_eq!(s.authenticator, expected_authenticator(b"K", &a));
    assert_ne!(s.authenticator, encode(&a));
}

#[test]
fn sign_is_deterministic() {
    let a = subscribe("a@example.com", "node1");
    assert_eq!(a.clone().sign(b"secret"), a.clone().sign(b"secret"));
}

#[test]
fn verify_accepts_what_sign_made() {
    let actions = vec![
        subscribe("a@example.com", "node1"),
        Action::Unsubscribe { email: "b@example.com".to_string(), node_id: "n2".to_string() },
        Action::ConfirmEmail { email: "c@example.com".to_string() },
    ];
    for a in actions {
        assert_eq!(a.clone().sign(b"key").verify(b"key"), Ok(a.clone()));
        assert_eq!(a.clone().sign(b"").verify(b""), Ok(a));
    }
}

#[test]
fn verify_rejects_every_flipped_authenticator_bit() {
    let a = subscribe("a@example.com", "node1");
    let s = a.sign(b"key");
    for byte in 0..s.authenticator.len() {
        for bit in 0..8 {
            let mut t = s.clone();
            t.authenticator[byte] ^= 1 << bit;
            assert_eq!(t.verify(b"key"), Err(TokenError::InvalidSignature));
        }
    }
}

#[test]
fn verify_rejects_authenticator_of_other_length() {
    let s = subscribe("a@example.com", "node1").sign(b"key");
    let mut short = s.clone();
    short.authenticator.pop();
    assert_eq!(short.verify(b"key"), Err(TokenError::InvalidSignature));
    let mut long = s.clone();
    long.authenticator.push(0);
    assert_eq!(long.verify(b"key"), Err(TokenError::InvalidSignature));
    let mut none = s;
    none.authenticator.clear();
    assert_eq!(none.verify(b"key"), Err(TokenError::InvalidSignature));
}

#[test]
fn verify_rejects_substituted_payload() {
    let s = subscribe("a@example.com", "node1").sign(b"key");
    let others = vec![
        subscribe("b@example.com", "node1"),
        subscribe("a@example.com", "node2"),
        Action::Unsubscribe { email: "a@example.com".to_string(), node_id: "node1".to_string() },
        Action::ConfirmEmail { email: "a@example.com".to_string() },
        subscribe("a@example.comn", "ode1"),
    ];
    for payload in others {
        let t = SignedAction { payload, authenticator: s.authenticator.clone() };
        assert_eq!(t.verify(b"key"), Err(TokenError::InvalidSignature));
    }
}

#[test]
fn verify_rejects_every_flipped_payload_bit() {
    let a = subscribe("a@example.com", "node1");
    let s = a.sign(b"key");
    let bytes = s.to_bytes();
    let payload_end = bytes.len() - s.authenticator.len();
    for byte in 0..payload_end {
        for bit in 0..8 {
            let mut changed = bytes.clone();
            changed[byte] ^= 1 << bit;
            match SignedAction::from_bytes(&changed) {
                Ok(t) => assert_eq!(t.verify(b"key"), Err(TokenError::InvalidSignature)),
                Err(e) => assert_eq!(e, TokenError::MalformedPayload),
            }
        }
    }
}

#[test]
fn verify_rejects_other_key() {
    let a = subscribe("a@example.com", "node1");
    assert_eq!(a.clone().sign(b"key1").verify(b"key2"), Err(TokenError::InvalidSignature));
    assert_eq!(a.clone().sign(b"key1").verify(b""), Err(TokenError::InvalidSignature));
    assert_eq!(a.sign(b"key1").verify(b"key1 "), Err(TokenError::InvalidSignature));
}

#[test]
fn keys_that_hmac_pads_alike_sign_alike() {
    let a = subscribe("a@example.com", "node1");
    assert_eq!(a.clone().sign(&[1]).verify(&[1, 0]), Ok(a));
}

#[test]
fn signed_bytes_exact_layout() {
    let a = Action::ConfirmEmail { email: "a".to_string() };
    let s = a.clone().sign(b"key");
    let bytes = s.to_bytes();
    let mut expected: Vec<u8> = vec![0, 0, 0, 0, 0, 0, 0, 10];
    expected.extend_from_slice(&encode(&a));
    expected.extend_from_slice(&s.authenticator);
    assert_eq!(bytes, expected);
    assert_eq!(SignedAction::from_bytes(&bytes), Ok(s));
}

#[test]
fn from_bytes_keeps_any_authenticator() {
    let a = Action::ConfirmEmail { email: "a".to_string() };
    let mut bytes: Vec<u8> = vec![0, 0, 0, 0, 0, 0, 0, 10];
    bytes.extend_from_slice(&encode(&a));
    assert_eq!(
        SignedAction::from_bytes(&bytes),
        Ok(SignedAction { payload: a.clone(), authenticator: vec![] })
    );
    bytes.extend_from_slice(&[9, 8, 7]);
    assert_eq!(
        SignedAction::from_bytes(&bytes),
        Ok(SignedAction { payload: a, authenticator: vec![9, 8, 7] })
    );
}

#[test]
fn from_bytes_rejects_malformed_frames() {
    assert_eq!(SignedAction::from_bytes(&[]), Err(TokenError::MalformedPayload));
    assert_eq!(SignedAction::from_bytes(&[0, 0, 0]), Err(TokenError::MalformedPayload));
    assert_eq!(
        SignedAction::from_bytes(&[0, 0, 0, 0, 0, 0, 0, 0]),
        Err(TokenError::MalformedPayload)
    );
    assert_eq!(
        SignedAction::from_bytes(&[0, 0, 0, 0, 0, 0, 0, 5, 2, 0]),
        Err(TokenError::MalformedPayload)
    );
    assert_eq!(
        SignedAction::from_bytes(&[0, 0, 0, 0, 0, 0, 0, 1, 9, 1, 2, 3]),
        Err(TokenError::MalformedPayload)
    );
}

#[test]
fn issue_then_redeem_gives_the_action() {
    let a = subscribe("a@example.com", "node1");
    let token = issue(b"K", a.clone()).unwrap();
    assert!(token.chars().all(|c| c.is_ascii_alphanumeric() || c == '-' || c == '_'));
    assert_eq!(token, to_text(&a.clone().sign(b"K").to_bytes()));
    assert_eq!(redeem(b"K", &token), Ok(a));
}

#[test]
fn redeem_rejects_other_key() {
    let token = issue(b"K", subscribe("a@example.com", "node1")).unwrap();
    assert_eq!(redeem(b"L", &token), Err(TokenError::InvalidSignature));
}

#[test]
fn redeem_rejects_text_that_is_no_base64() {
    assert_eq!(redeem(b"K", "not a token!"), Err(TokenError::MalformedEncoding));
    let mut token = issue(b"K", subscribe("a@example.com", "node1")).unwrap();
    token.push('=');
    assert_eq!(redeem(b"K", &token), Err(TokenError::MalformedEncoding));
}

#[test]
fn redeem_rejects_bytes_that_hold_no_signed_action() {
    assert_eq!(redeem(b"K", ""), Err(TokenError::MalformedPayload));
    assert_eq!(redeem(b"K", &to_text(b"hello world")), Err(TokenError::MalformedPayload));
    let a = subscribe("a@example.com", "node1");
    assert_eq!(redeem(b"K", &to_text(&encode(&a))), Err(TokenError::MalformedPayload));
}

#[test]
fn redeem_rejects_a_changed_token() {
    let token = issue(b"K", subscribe("a@example.com", "node1")).unwrap();
    let bytes = from_text(&token).unwrap();
    for byte in 0..bytes.len() {
        let mut changed = bytes.clone();
        changed[byte] ^= 0x01;
        let r = redeem(b"K", &to_text(&changed));
        assert!(r == Err(TokenError::InvalidSignature) || r == Err(TokenError::MalformedPayload));
    }
}

#[test]
fn action_email_is_the_authorizing_address() {
    assert_eq!(subscribe("a@example.com", "n").email(), "a@example.com");
    let u = Action::Unsubscribe { email: "b@example.com".to_string(), node_id: "n".to_string() };
    assert_eq!(u.email(), "b@example.com");
    assert_eq!(Action::ConfirmEmail { email: "c@example.com".to_string() }.email(), "c@example.com");
}
