//! Signed actions and the text tokens that carry them.
//!
//! A token is the URL-safe base64 text of a frame holding the encoded action,
//! followed by the action's authenticator: the HMAC-SHA256 of the encoded
//! action under the server's key.

use vstd::prelude::*;
use base64::Engine;
use base64::engine::general_purpose::URL_SAFE_NO_PAD;
use hmac::{Hmac, Mac};
use sha2::Sha256;
use crate::action::{Action, ActionView};
use crate::codec::{
    TokenError,
    decode,
    decoding,
    encodable,
    encode,
    encoding,
    framed,
    lemma_decoding_encoding,
    lemma_encoding_decoding,
    lemma_framed_unframed,
    lemma_unframed_framed,
    push_framed,
    read_frame,
    unframed,
};

verus! {

/// The URL-safe, unpadded base64 text of a byte sequence.
pub uninterp spec fn base64_text(bytes: Seq<u8>) -> Seq<char>;

/// The bytes that a URL-safe, unpadded base64 text stands for, if it is one.
pub uninterp spec fn base64_bytes(text: Seq<char>) -> Option<Seq<u8>>;

/// The HMAC-SHA256 authenticator of a message under a key.
pub uninterp spec fn hmac_sha256(key: Seq<u8>, message: Seq<u8>) -> Seq<u8>;

/// An action together with the authenticator that proves who issued it.
#[derive(Clone, Debug, PartialEq, Eq)]
pub struct SignedAction {
    pub payload: Action,
    pub authenticator: Vec<u8>,
}

/// The mathematical value of a [`SignedAction`].
pub ghost struct SignedView {
    pub payload: ActionView,
    pub authenticator: Seq<u8>,
}

impl View for SignedAction {
    type V = SignedView;

    open spec fn view(&self) -> SignedView {
        SignedView { payload: self.payload@, authenticator: self.authenticator@ }
    }
}

/// The authenticator that `key` gives to `a`.
pub open spec fn authenticator_of(key: Seq<u8>, a: ActionView) -> Seq<u8> {
    hmac_sha256(key, encoding(a))
}

/// `a` signed under `key`.
pub open spec fn signed(key: Seq<u8>, a: ActionView) -> SignedView {
    SignedView { payload: a, authenticator: authenticator_of(key, a) }
}

/// What verifying `s` under `key` gives: the payload exactly when the
/// authenticator is the one that `key` gives to it.
pub open spec fn verified(key: Seq<u8>, s: SignedView) -> Result<ActionView, TokenError> {
    if s.authenticator == authenticator_of(key, s.payload) {
        Ok(s.payload)
    } else {
        Err(TokenError::InvalidSignature)
    }
}

/// The bytes of a signed action: the framed payload, then the authenticator.
pub open spec fn sealed(s: SignedView) -> Seq<u8> {
    framed(encoding(s.payload)) + s.authenticator
}

/// The signed action that `b` holds, if it holds one.
pub open spec fn unsealed(b: Seq<u8>) -> Option<SignedView> {
    match unframed(b) {
        Some((body, rest)) => match decoding(body) {
            Some(a) => Some(SignedView { payload: a, authenticator: rest }),
            None => None,
        },
        None => None,
    }
}

/// Whether base64 text of `len` bytes has a length that fits the machine.
pub open spec fn fits_text(len: nat) -> bool {
    len / 3 * 4 + 3 <= usize::MAX
}

/// What redeeming the token `text` under `key` gives.
pub open spec fn redeemed(key: Seq<u8>, text: Seq<char>) -> Result<ActionView, TokenError> {
    match base64_bytes(text) {
        None => Err(TokenError::MalformedEncoding),
        Some(b) => match unsealed(b) {
            None => Err(TokenError::MalformedPayload),
            Some(s) => verified(key, s),
        },
    }
}

/// Whether `r` is the executable form of `v`.
pub open spec fn is_outcome(r: Result<Action, TokenError>, v: Result<ActionView, TokenError>) -> bool {
    match r {
        Ok(a) => v == Ok::<ActionView, TokenError>(a@),
        Err(e) => v == Err::<ActionView, TokenError>(e),
    }
}

/// The bytes of a signed action hold that signed action.
pub proof fn lemma_unsealed_sealed(s: SignedView)
    requires
        encodable(s.payload),
        encoding(s.payload).len() <= u64::MAX,
    ensures
        unsealed(sealed(s)) == Some(s),
{
    lemma_unframed_framed(encoding(s.payload), s.authenticator);
    lemma_decoding_encoding(s.payload);
}

/// Bytes hold a signed action only if they are the bytes of that signed action.
pub proof fn law_unsealing_inverts_sealing(s: SignedView, b: Seq<u8>)
    requires
        encodable(s.payload),
        encoding(s.payload).len() <= u64::MAX,
    ensures
        unsealed(b) == Some(s) <==> sealed(s) == b,
{
    if unsealed(b) == Some(s) {
        lemma_framed_unframed(b);
        lemma_encoding_decoding(unframed(b).unwrap().0);
    }
    if sealed(s) == b {
        lemma_unsealed_sealed(s);
    }
}

/// Verifying under the key that signed gives the action back.
pub proof fn law_sign_then_verify(key: Seq<u8>, a: ActionView)
    ensures
        verified(key, signed(key, a)) == Ok::<ActionView, TokenError>(a),
{
}

/// A signed action whose authenticator was changed in any way is refused as
/// an invalid signature.
pub proof fn law_changed_authenticator(key: Seq<u8>, a: ActionView, authenticator: Seq<u8>)
    requires
        authenticator != signed(key, a).authenticator,
    ensures
        verified(key, SignedView { payload: a, authenticator }) == Err::<ActionView, TokenError>(
            TokenError::InvalidSignature,
        ),
{
}

/// A signed action whose payload was replaced never verifies as any other
/// payload than the one it now carries, and is refused as an invalid signature
/// exactly when the key gives the two payloads different authenticators.
pub proof fn law_changed_payload(key: Seq<u8>, a: ActionView, b: ActionView)
    ensures
        ({
            let r = verified(key, SignedView { payload: b, authenticator: signed(key, a).authenticator });
            &&& r == Ok::<ActionView, TokenError>(b) || r == Err::<ActionView, TokenError>(
                TokenError::InvalidSignature,
            )
            &&& r is Err <==> authenticator_of(key, a) != authenticator_of(key, b)
        }),
{
}

/// An action signed under one key is refused as an invalid signature under
/// another exactly when the two keys give it different authenticators.
pub proof fn law_other_key(key1: Seq<u8>, key2: Seq<u8>, a: ActionView)
    ensures
        ({
            let r = verified(key2, signed(key1, a));
            &&& r == Ok::<ActionView, TokenError>(a) || r == Err::<ActionView, TokenError>(
                TokenError::InvalidSignature,
            )
            &&& r is Err <==> authenticator_of(key1, a) != authenticator_of(key2, a)
        }),
{
}

/// `Engine::encode` of base64's `URL_SAFE_NO_PAD`: the text of the bytes, which
/// the same engine decodes to the bytes again. The length of the text must fit
/// the machine, else the call panics.
#[verifier::external_body]
fn base64_encode(bytes: &[u8]) -> (text: String)
    requires
        fits_text(bytes@.len()),
    ensures
        text@ == base64_text(bytes@),
        base64_bytes(text@) == Some(bytes@),
{
    URL_SAFE_NO_PAD.encode(bytes)
}

/// `Engine::decode` of base64's `URL_SAFE_NO_PAD`: the bytes that the text
/// stands for, or nothing where it is not such a text.
#[verifier::external_body]
fn base64_decode(text: &str) -> (r: Option<Vec<u8>>)
    ensures
        match r {
            Some(bytes) => base64_bytes(text@) == Some(bytes@),
            None => base64_bytes(text@) is None,
        },
{
    URL_SAFE_NO_PAD.decode(text).ok()
}

/// `Mac::finalize` of `Hmac<Sha256>` on a message under a key of any length:
/// the authenticator.
#[verifier::external_body]
fn hmac_tag(key: &[u8], message: &[u8]) -> (tag: Vec<u8>)
    ensures
        tag@ == hmac_sha256(key@, message@),
{
    let mut mac = Hmac::<Sha256>::new_from_slice(key).expect("HMAC takes a key of any length");
    mac.update(message);
    mac.finalize().into_bytes().to_vec()
}

/// `Mac::verify_slice` of `Hmac<Sha256>`: whether `tag` is the authenticator of
/// the message under the key. The comparison runs over the full length of the
/// authenticator wherever the first difference stands.
#[verifier::external_body]
fn hmac_accepts(key: &[u8], message: &[u8], tag: &[u8]) -> (ok: bool)
    ensures
        ok == (tag@ == hmac_sha256(key@, message@)),
{
    let mut mac = Hmac::<Sha256>::new_from_slice(key).expect("HMAC takes a key of any length");
    mac.update(message);
    mac.verify_slice(tag).is_ok()
}

/// The URL-safe text of `bytes`. Reading the text back gives the bytes.
pub fn to_text(bytes: &[u8]) -> (text: String)
    requires
        fits_text(bytes@.len()),
    ensures
        text@ == base64_text(bytes@),
        base64_bytes(text@) == Some(bytes@),
{
    base64_encode(bytes)
}

/// The bytes that `text` stands for. Text that is not URL-safe base64 is refused
/// as a malformed encoding.
pub fn from_text(text: &str) -> (r: Result<Vec<u8>, TokenError>)
    ensures
        match r {
            Ok(bytes) => base64_bytes(text@) == Some(bytes@),
            Err(e) => e == TokenError::MalformedEncoding && base64_bytes(text@) is None,
        },
{
    match base64_decode(text) {
        Some(bytes) => Ok(bytes),
        None => Err(TokenError::MalformedEncoding),
    }
}

impl Action {
    /// Signs the action under `key`.
    pub fn sign(self, key: &[u8]) -> (s: SignedAction)
        ensures
            s@ == signed(key@, self@),
            verified(key@, s@) == Ok::<ActionView, TokenError>(self@),
    {
        let message = encode(&self);
        let authenticator = hmac_tag(key, message.as_slice());
        SignedAction { payload: self, authenticator }
    }
}

impl SignedAction {
    /// Hands out the payload if the authenticator is the one that `key` gives
    /// to it, and refuses the signed action as an invalid signature otherwise.
    pub fn verify(self, key: &[u8]) -> (r: Result<Action, TokenError>)
        ensures
            is_outcome(r, verified(key@, self@)),
            r is Ok ==> r.unwrap() == self.payload,
    {
        let message = encode(&self.payload);
        if hmac_accepts(key, message.as_slice(), self.authenticator.as_slice()) {
            Ok(self.payload)
        } else {
            Err(TokenError::InvalidSignature)
        }
    }

    /// The bytes of the signed action. Reading them back gives the signed
    /// action.
    pub fn to_bytes(&self) -> (bytes: Vec<u8>)
        ensures
            bytes@ == sealed(self@),
            unsealed(bytes@) == Some(self@),
    {
        let message = encode(&self.payload);
        let mut out: Vec<u8> = Vec::new();
        push_framed(&mut out, message.as_slice());
        let mut i: usize = 0;
        while i < self.authenticator.len()
            invariant
                i <= self.authenticator.len(),
                out@ == framed(encoding(self.payload@)) + self.authenticator@.subrange(0, i as int),
            decreases self.authenticator.len() - i,
        {
            out.push(self.authenticator[i]);
            i += 1;
            proof {
                assert(out@ =~= framed(encoding(self.payload@)) + self.authenticator@.subrange(
                    0,
                    i as int,
                ));
            }
        }
        proof {
            assert(self.authenticator@.subrange(0, i as int) =~= self.authenticator@);
            lemma_unsealed_sealed(self@);
        }
        out
    }

    /// The signed action that `bytes` hold. Bytes that hold none are refused as
    /// a malformed payload.
    pub fn from_bytes(bytes: &[u8]) -> (r: Result<SignedAction, TokenError>)
        ensures
            match r {
                Ok(s) => unsealed(bytes@) == Some(s@),
                Err(e) => e == TokenError::MalformedPayload && unsealed(bytes@) is None,
            },
    {
        let end = match read_frame(bytes, 0) {
            Some(end) => end,
            None => {
                return Err(TokenError::MalformedPayload);
            },
        };
        assert(bytes@.subrange(0, bytes.len() as int) =~= bytes@);
        let body = vstd::slice::slice_subrange(bytes, 8, end);
        let payload = match decode(body) {
            Ok(a) => a,
            Err(_) => {
                return Err(TokenError::MalformedPayload);
            },
        };
        let mut authenticator: Vec<u8> = Vec::new();
        let mut i: usize = end;
        while i < bytes.len()
            invariant
                end <= i <= bytes.len(),
                authenticator@ == bytes@.subrange(end as int, i as int),
            decreases bytes.len() - i,
        {
            authenticator.push(bytes[i]);
            i += 1;
            proof {
                assert(authenticator@ =~= bytes@.subrange(end as int, i as int));
            }
        }
        Ok(SignedAction { payload, authenticator })
    }
}

/// The token that lets its holder have `action` executed: the text of the
/// action signed under `key`. No token is made where its text would be too long
/// for the machine.
pub fn issue(key: &[u8], action: Action) -> (r: Option<String>)
    ensures
        r is Some <==> fits_text(sealed(signed(key@, action@)).len()),
        r is Some ==> r.unwrap()@ == base64_text(sealed(signed(key@, action@))),
        r is Some ==> redeemed(key@, r.unwrap()@) == Ok::<ActionView, TokenError>(action@),
{
    let signed_action = action.sign(key);
    let bytes = signed_action.to_bytes();
    if bytes.len() / 3 > (usize::MAX - 3) / 4 {
        return None;
    }
    Some(to_text(bytes.as_slice()))
}

/// The action that the token `text` authorizes under `key`: text that is no
/// base64 is a malformed encoding, bytes that hold no signed action are a
/// malformed payload, and a signed action with another authenticator than the
/// one `key` gives to its payload is an invalid signature.
pub fn redeem(key: &[u8], text: &str) -> (r: Result<Action, TokenError>)
    ensures
        is_outcome(r, redeemed(key@, text@)),
{
    let bytes = match from_text(text) {
        Ok(bytes) => bytes,
        Err(e) => {
            return Err(e);
        },
    };
    let signed_action = match SignedAction::from_bytes(bytes.as_slice()) {
        Ok(s) => s,
        Err(e) => {
            return Err(e);
        },
    };
    signed_action.verify(key)
}

} // verus!
