//! The canonical byte encoding of an action.
//!
//! An encoded action is one tag byte followed by the action's text fields in
//! declaration order. Each field is its UTF-8 length as eight big-endian bytes
//! followed by the UTF-8 bytes themselves. Nothing may follow the last field.

use vstd::prelude::*;
use vstd::utf8::*;
use vstd::string::*;
use crate::action::{Action, ActionView};

verus! {

/// Why a token was turned down.
#[derive(Clone, Copy, Debug, PartialEq, Eq, Structural)]
pub enum TokenError {
    /// The text is not a valid textual encoding of bytes.
    MalformedEncoding,
    /// The bytes do not encode an action.
    MalformedPayload,
    /// The authenticator does not belong to the payload under this key.
    InvalidSignature,
}

pub const TAG_SUBSCRIBE: u8 = 0;

pub const TAG_UNSUBSCRIBE: u8 = 1;

pub const TAG_CONFIRM_EMAIL: u8 = 2;

/// The eight bytes of `n`, most significant first.
pub open spec fn be64(n: u64) -> Seq<u8> {
    let q1 = n / 256;
    let q2 = q1 / 256;
    let q3 = q2 / 256;
    let q4 = q3 / 256;
    let q5 = q4 / 256;
    let q6 = q5 / 256;
    let q7 = q6 / 256;
    seq![
        (q7 % 256) as u8,
        (q6 % 256) as u8,
        (q5 % 256) as u8,
        (q4 % 256) as u8,
        (q3 % 256) as u8,
        (q2 % 256) as u8,
        (q1 % 256) as u8,
        (n % 256) as u8,
    ]
}

/// The number whose eight big-endian bytes begin `b`.
pub open spec fn be64_value(b: Seq<u8>) -> int {
    ((((((b[0] * 256 + b[1]) * 256 + b[2]) * 256 + b[3]) * 256 + b[4]) * 256 + b[5]) * 256 + b[6])
        * 256 + b[7]
}

/// `body` behind its length.
pub open spec fn framed(body: Seq<u8>) -> Seq<u8> {
    be64(body.len() as u64) + body
}

/// The body that a frame at the start of `b` holds, and what follows the frame.
pub open spec fn unframed(b: Seq<u8>) -> Option<(Seq<u8>, Seq<u8>)> {
    if b.len() < 8 {
        None
    } else if be64_value(b) > b.len() - 8 {
        None
    } else {
        let end = 8 + be64_value(b);
        Some((b.subrange(8, end), b.subrange(end, b.len() as int)))
    }
}

/// A text field as it stands in an encoded action.
pub open spec fn text_field(s: Seq<char>) -> Seq<u8> {
    framed(encode_utf8(s))
}

/// The text field at the start of `b`, and what follows it.
pub open spec fn parsed_text(b: Seq<u8>) -> Option<(Seq<char>, Seq<u8>)> {
    match unframed(b) {
        Some((body, rest)) => if valid_utf8(body) {
            Some((decode_utf8(body), rest))
        } else {
            None
        },
        None => None,
    }
}

/// The canonical encoding of an action.
pub open spec fn encoding(a: ActionView) -> Seq<u8> {
    match a {
        ActionView::Subscribe { email, node_id } => seq![TAG_SUBSCRIBE] + text_field(email)
            + text_field(node_id),
        ActionView::Unsubscribe { email, node_id } => seq![TAG_UNSUBSCRIBE] + text_field(email)
            + text_field(node_id),
        ActionView::ConfirmEmail { email } => seq![TAG_CONFIRM_EMAIL] + text_field(email),
    }
}

/// The action that `b` encodes, if it encodes one.
pub open spec fn decoding(b: Seq<u8>) -> Option<ActionView> {
    if b.len() == 0 {
        None
    } else if b[0] == TAG_SUBSCRIBE || b[0] == TAG_UNSUBSCRIBE {
        match parsed_text(b.subrange(1, b.len() as int)) {
            Some((email, rest)) => match parsed_text(rest) {
                Some((node_id, tail)) => if tail.len() != 0 {
                    None
                } else if b[0] == TAG_SUBSCRIBE {
                    Some(ActionView::Subscribe { email, node_id })
                } else {
                    Some(ActionView::Unsubscribe { email, node_id })
                },
                None => None,
            },
            None => None,
        }
    } else if b[0] == TAG_CONFIRM_EMAIL {
        match parsed_text(b.subrange(1, b.len() as int)) {
            Some((email, rest)) => if rest.len() != 0 {
                None
            } else {
                Some(ActionView::ConfirmEmail { email })
            },
            None => None,
        }
    } else {
        None
    }
}

/// Whether the length of every text field of `a` can be written in eight bytes.
pub open spec fn encodable(a: ActionView) -> bool {
    match a {
        ActionView::Subscribe { email, node_id } => encode_utf8(email).len() <= u64::MAX
            && encode_utf8(node_id).len() <= u64::MAX,
        ActionView::Unsubscribe { email, node_id } => encode_utf8(email).len() <= u64::MAX
            && encode_utf8(node_id).len() <= u64::MAX,
        ActionView::ConfirmEmail { email } => encode_utf8(email).len() <= u64::MAX,
    }
}

/// Writing a number as eight bytes and reading them back gives the number.
pub proof fn lemma_be64_value(n: u64)
    ensures
        be64(n).len() == 8,
        be64_value(be64(n)) == n,
{
}

/// Reading eight bytes as a number and writing it back gives the bytes.
pub proof fn lemma_be64_of_value(b: Seq<u8>)
    requires
        b.len() >= 8,
    ensures
        0 <= be64_value(b) <= u64::MAX,
        be64(be64_value(b) as u64) == b.subrange(0, 8),
{
    assert(be64(be64_value(b) as u64) =~= b.subrange(0, 8));
}

/// A frame followed by anything is read back as its body and what followed.
pub proof fn lemma_unframed_framed(body: Seq<u8>, rest: Seq<u8>)
    requires
        body.len() <= u64::MAX,
    ensures
        unframed(framed(body) + rest) == Some((body, rest)),
{
    let b = framed(body) + rest;
    lemma_be64_value(body.len() as u64);
    assert(be64_value(b) == be64_value(be64(body.len() as u64)));
    assert(b.subrange(8, 8 + body.len() as int) =~= body);
    assert(b.subrange(8 + body.len() as int, b.len() as int) =~= rest);
}

/// A text field followed by anything is read back as the text and what followed.
pub proof fn lemma_parsed_text_field(s: Seq<char>, rest: Seq<u8>)
    requires
        encode_utf8(s).len() <= u64::MAX,
    ensures
        parsed_text(text_field(s) + rest) == Some((s, rest)),
{
    lemma_unframed_framed(encode_utf8(s), rest);
    encode_utf8_valid_utf8(s);
    encode_utf8_decode_utf8(s);
}

/// Decoding the encoding of an action gives the action back.
pub proof fn lemma_decoding_encoding(a: ActionView)
    requires
        encodable(a),
    ensures
        decoding(encoding(a)) == Some(a),
{
    let b = encoding(a);
    let empty = Seq::<u8>::empty();
    match a {
        ActionView::Subscribe { email, node_id } => {
            assert(b.subrange(1, b.len() as int) =~= text_field(email) + text_field(node_id));
            lemma_parsed_text_field(email, text_field(node_id));
            assert(text_field(node_id) =~= text_field(node_id) + empty);
            lemma_parsed_text_field(node_id, empty);
        },
        ActionView::Unsubscribe { email, node_id } => {
            assert(b.subrange(1, b.len() as int) =~= text_field(email) + text_field(node_id));
            lemma_parsed_text_field(email, text_field(node_id));
            assert(text_field(node_id) =~= text_field(node_id) + empty);
            lemma_parsed_text_field(node_id, empty);
        },
        ActionView::ConfirmEmail { email } => {
            assert(b.subrange(1, b.len() as int) =~= text_field(email) + empty);
            lemma_parsed_text_field(email, empty);
        },
    }
}

/// Whatever is read as a frame is the frame of the body that was read,
/// followed by the rest that was read.
pub proof fn lemma_framed_unframed(b: Seq<u8>)
    requires
        unframed(b) is Some,
    ensures
        unframed(b).unwrap().0.len() <= u64::MAX,
        framed(unframed(b).unwrap().0) + unframed(b).unwrap().1 == b,
{
    let (body, rest) = unframed(b).unwrap();
    lemma_be64_of_value(b);
    assert(body.len() == be64_value(b));
    assert(framed(body) + rest =~= b);
}

/// Whatever is read as a text field is the field of the text that was read,
/// followed by the rest that was read.
pub proof fn lemma_text_field_parsed(b: Seq<u8>)
    requires
        parsed_text(b) is Some,
    ensures
        encode_utf8(parsed_text(b).unwrap().0).len() <= u64::MAX,
        text_field(parsed_text(b).unwrap().0) + parsed_text(b).unwrap().1 == b,
{
    let (body, rest) = unframed(b).unwrap();
    lemma_framed_unframed(b);
    decode_utf8_encode_utf8(body);
}

/// The encoding is canonical: bytes decode to an action only if they are the
/// encoding of that action.
pub proof fn lemma_encoding_decoding(b: Seq<u8>)
    requires
        decoding(b) is Some,
    ensures
        encodable(decoding(b).unwrap()),
        encoding(decoding(b).unwrap()) == b,
{
    let tail = b.subrange(1, b.len() as int);
    assert(b =~= seq![b[0]] + tail);
    lemma_text_field_parsed(tail);
    let (email, rest) = parsed_text(tail).unwrap();
    if b[0] == TAG_CONFIRM_EMAIL {
        assert(rest =~= Seq::<u8>::empty());
        assert(text_field(email) + rest =~= text_field(email));
    } else {
        lemma_text_field_parsed(rest);
        let (node_id, last) = parsed_text(rest).unwrap();
        assert(last =~= Seq::<u8>::empty());
        assert(text_field(node_id) + last =~= text_field(node_id));
        assert(seq![b[0]] + (text_field(email) + text_field(node_id)) =~= seq![b[0]] + text_field(
            email,
        ) + text_field(node_id));
    }
}

/// Decoding is the inverse of encoding: bytes decode to an action exactly when
/// they are its encoding. So two actions with the same encoding are the same
/// action.
pub proof fn law_decoding_inverts_encoding(a: ActionView, b: Seq<u8>)
    requires
        encodable(a),
    ensures
        decoding(b) == Some(a) <==> encoding(a) == b,
{
    if decoding(b) == Some(a) {
        lemma_encoding_decoding(b);
    }
    if encoding(a) == b {
        lemma_decoding_encoding(a);
    }
}

/// Appends the eight big-endian bytes of `n` to `out`.
fn push_be64(out: &mut Vec<u8>, n: u64)
    ensures
        final(out)@ == old(out)@ + be64(n),
{
    let ghost start = out@;
    let q1: u64 = n / 256;
    let q2: u64 = q1 / 256;
    let q3: u64 = q2 / 256;
    let q4: u64 = q3 / 256;
    let q5: u64 = q4 / 256;
    let q6: u64 = q5 / 256;
    let q7: u64 = q6 / 256;
    out.push((q7 % 256) as u8);
    out.push((q6 % 256) as u8);
    out.push((q5 % 256) as u8);
    out.push((q4 % 256) as u8);
    out.push((q3 % 256) as u8);
    out.push((q2 % 256) as u8);
    out.push((q1 % 256) as u8);
    out.push((n % 256) as u8);
    proof {
        assert(out@ =~= start + be64(n));
    }
}

/// Appends `body` behind its length to `out`.
pub fn push_framed(out: &mut Vec<u8>, body: &[u8])
    ensures
        final(out)@ == old(out)@ + framed(body@),
{
    let ghost start = out@;
    push_be64(out, body.len() as u64);
    let mut i: usize = 0;
    while i < body.len()
        invariant
            i <= body.len(),
            out@ == start + be64(body@.len() as u64) + body@.subrange(0, i as int),
        decreases body.len() - i,
    {
        out.push(body[i]);
        i += 1;
        proof {
            assert(out@ =~= start + be64(body@.len() as u64) + body@.subrange(0, i as int));
        }
    }
    proof {
        assert(body@.subrange(0, i as int) =~= body@);
        assert(out@ =~= start + framed(body@));
    }
}

/// Reads the frame that starts at `at`: the index at which its body ends. The
/// body starts eight bytes behind `at`.
pub fn read_frame(b: &[u8], at: usize) -> (r: Option<usize>)
    requires
        at <= b.len(),
    ensures
        match r {
            Some(end) => at + 8 <= end <= b.len() && unframed(
                b@.subrange(at as int, b.len() as int),
            ) == Some((b@.subrange(at + 8, end as int), b@.subrange(end as int, b.len() as int))),
            None => unframed(b@.subrange(at as int, b.len() as int)) is None,
        },
{
    let ghost tail = b@.subrange(at as int, b.len() as int);
    if b.len() - at < 8 {
        return None;
    }
    assert(forall|k: int| 0 <= k < 8 ==> tail[k] == b@[at + k]);
    let v0: u64 = b[at] as u64;
    let v1: u64 = v0 * 256 + b[at + 1] as u64;
    let v2: u64 = v1 * 256 + b[at + 2] as u64;
    let v3: u64 = v2 * 256 + b[at + 3] as u64;
    let v4: u64 = v3 * 256 + b[at + 4] as u64;
    let v5: u64 = v4 * 256 + b[at + 5] as u64;
    let v6: u64 = v5 * 256 + b[at + 6] as u64;
    let v7: u64 = v6 * 256 + b[at + 7] as u64;
    assert(v7 == be64_value(tail));
    let room: usize = b.len() - at - 8;
    if v7 > room as u64 {
        return None;
    }
    let end: usize = at + 8 + v7 as usize;
    proof {
        assert(tail.subrange(8, 8 + v7 as int) =~= b@.subrange(at + 8, end as int));
        assert(tail.subrange(8 + v7 as int, tail.len() as int) =~= b@.subrange(
            end as int,
            b.len() as int,
        ));
    }
    Some(end)
}

/// `String::from_utf8`: the text is returned exactly when the bytes are valid
/// UTF-8, and it is then the text that they encode.
#[verifier::external_body]
fn utf8_text(bytes: Vec<u8>) -> (r: Option<String>)
    ensures
        r is Some <==> valid_utf8(bytes@),
        r is Some ==> r.unwrap()@ == decode_utf8(bytes@),
{
    String::from_utf8(bytes).ok()
}

/// Reads the text field that starts at `at`: the text, and the index behind the
/// field.
fn read_text(b: &[u8], at: usize) -> (r: Option<(String, usize)>)
    requires
        at <= b.len(),
    ensures
        match r {
            Some((s, next)) => next <= b.len() && parsed_text(
                b@.subrange(at as int, b.len() as int),
            ) == Some((s@, b@.subrange(next as int, b.len() as int))),
            None => parsed_text(b@.subrange(at as int, b.len() as int)) is None,
        },
{
    match read_frame(b, at) {
        None => None,
        Some(end) => {
            let mut body: Vec<u8> = Vec::new();
            let mut i: usize = at + 8;
            while i < end
                invariant
                    at + 8 <= i <= end <= b.len(),
                    body@ == b@.subrange(at + 8, i as int),
                decreases end - i,
            {
                body.push(b[i]);
                i += 1;
                proof {
                    assert(body@ =~= b@.subrange(at + 8, i as int));
                }
            }
            match utf8_text(body) {
                Some(s) => Some((s, end)),
                None => None,
            }
        },
    }
}

/// Appends `text` as a text field to `out`.
fn push_text(out: &mut Vec<u8>, text: &String)
    ensures
        final(out)@ == old(out)@ + text_field(text@),
        encode_utf8(text@).len() <= u64::MAX,
{
    let body = text.as_str().as_bytes();
    let _n: usize = body.len();
    push_framed(out, body);
}

/// The canonical bytes of `action`. Decoding them gives the action back.
pub fn encode(action: &Action) -> (bytes: Vec<u8>)
    ensures
        bytes@ == encoding(action@),
        encodable(action@),
        decoding(bytes@) == Some(action@),
{
    let mut out: Vec<u8> = Vec::new();
    match action {
        Action::Subscribe { email, node_id } => {
            out.push(TAG_SUBSCRIBE);
            assert(out@ =~= seq![TAG_SUBSCRIBE]);
            push_text(&mut out, email);
            push_text(&mut out, node_id);
        },
        Action::Unsubscribe { email, node_id } => {
            out.push(TAG_UNSUBSCRIBE);
            assert(out@ =~= seq![TAG_UNSUBSCRIBE]);
            push_text(&mut out, email);
            push_text(&mut out, node_id);
        },
        Action::ConfirmEmail { email } => {
            out.push(TAG_CONFIRM_EMAIL);
            assert(out@ =~= seq![TAG_CONFIRM_EMAIL]);
            push_text(&mut out, email);
        },
    }
    proof {
        lemma_decoding_encoding(action@);
    }
    out
}

/// The action that `bytes` encode. Bytes that are not the encoding of an action
/// are refused as a malformed payload.
pub fn decode(bytes: &[u8]) -> (r: Result<Action, TokenError>)
    ensures
        match r {
            Ok(a) => decoding(bytes@) == Some(a@) && encoding(a@) == bytes@,
            Err(e) => e == TokenError::MalformedPayload && decoding(bytes@) is None,
        },
{
    proof {
        if decoding(bytes@) is Some {
            lemma_encoding_decoding(bytes@);
        }
    }
    if bytes.len() == 0 {
        return Err(TokenError::MalformedPayload);
    }
    let tag: u8 = bytes[0];
    if tag != TAG_SUBSCRIBE && tag != TAG_UNSUBSCRIBE && tag != TAG_CONFIRM_EMAIL {
        return Err(TokenError::MalformedPayload);
    }
    let (email, next) = match read_text(bytes, 1) {
        Some(found) => found,
        None => {
            return Err(TokenError::MalformedPayload);
        },
    };
    if tag == TAG_CONFIRM_EMAIL {
        if next != bytes.len() {
            return Err(TokenError::MalformedPayload);
        }
        return Ok(Action::ConfirmEmail { email });
    }
    let (node_id, last) = match read_text(bytes, next) {
        Some(found) => found,
        None => {
            return Err(TokenError::MalformedPayload);
        },
    };
    if last != bytes.len() {
        return Err(TokenError::MalformedPayload);
    }
    if tag == TAG_SUBSCRIBE {
        Ok(Action::Subscribe { email, node_id })
    } else {
        Ok(Action::Unsubscribe { email, node_id })
    }
}

} // verus!
