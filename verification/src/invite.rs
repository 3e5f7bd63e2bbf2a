//! Invite links: the computable core of making and reading an invite.
//!
//! An invite identifier is the URL-safe base64 text of a small JSON object
//! naming the inviter, the calling app, a public key and a callback. The
//! text work here is verified; the base64 alphabet itself is the outside
//! crate's.
use crate::utf8::utf8_ok;
use crate::util::hex_digit;
use vstd::prelude::*;

verus! {

/// The URL-safe, padded base64 text of a byte string: a function of the
/// bytes alone.
pub uninterp spec fn b64url_of(b: Seq<u8>) -> Seq<char>;

/// Relies on base64's URL_SAFE engine: encoding is a pure function of the
/// input bytes, and encodes nothing to nothing.
#[verifier::external_body]
fn b64url_encode(b: &[u8]) -> (r: String)
    ensures
        r@ == b64url_of(b@),
        b@.len() == 0 ==> r@.len() == 0,
{
    base64::Engine::encode(&base64::engine::general_purpose::URL_SAFE, b)
}

/// Relies on base64's URL_SAFE engine: with required padding and no loose
/// trailing bits, decoding accepts exactly the texts the encoder makes, so
/// whatever it returns re-encodes to the input.
#[verifier::external_body]
fn b64url_decode(s: &str) -> (r: Option<Vec<u8>>)
    ensures
        r matches Some(b) ==> s@ == b64url_of(b@),
{
    match base64::Engine::decode(&base64::engine::general_purpose::URL_SAFE, s.as_bytes()) {
        Ok(b) => Some(b),
        Err(_) => None,
    }
}

/// Relies on the format macro of std: text concatenation.
#[verifier::external_body]
fn str_concat(a: &str, b: &str) -> (r: String)
    ensures
        r@ == a@ + b@,
{
    format!("{}{}", a, b)
}

/// How one byte appears inside a JSON string: quotes and backslashes are
/// escaped, control bytes take the small-u form, everything else stands as
/// itself.
pub open spec fn json_escape1(c: u8) -> Seq<u8> {
    if c == 0x22 {
        seq![0x5Cu8, 0x22u8]
    } else if c == 0x5C {
        seq![0x5Cu8, 0x5Cu8]
    } else if c < 0x20 {
        seq![0x5Cu8, 0x75u8, 0x30u8, 0x30u8, hex_digit(c as int / 16), hex_digit(c as int % 16)]
    } else {
        seq![c]
    }
}

/// A byte string escaped for a JSON string body.
pub open spec fn json_escape(s: Seq<u8>) -> Seq<u8>
    decreases s.len(),
{
    if s.len() == 0 {
        Seq::empty()
    } else {
        json_escape1(s[0]) + json_escape(s.skip(1))
    }
}

/// A JSON string: the escaped bytes between quotes.
pub open spec fn quoted(s: Seq<u8>) -> Seq<u8> {
    seq![0x22u8] + json_escape(s) + seq![0x22u8]
}

/// One `"key":` piece of a JSON object.
pub open spec fn json_key(name: Seq<char>) -> Seq<u8> {
    seq![0x22u8] + vstd::utf8::encode_utf8(name) + seq![0x22u8, 0x3Au8]
}

/// The invite parameter object: inviter, app, public key and callback, in
/// that order.
pub open spec fn params_json(inviter: Seq<u8>, app: Seq<u8>, pk: Seq<u8>, cb: Seq<u8>) -> Seq<
    u8,
> {
    seq![0x7Bu8] + json_key("inviter"@) + quoted(inviter) + seq![0x2Cu8] + json_key("app"@)
        + quoted(app) + seq![0x2Cu8] + json_key("pk"@) + quoted(pk) + seq![0x2Cu8] + json_key(
        "cb"@,
    ) + quoted(cb) + seq![0x7Du8]
}

/// Append a byte slice.
fn push_all(dest: &mut Vec<u8>, s: &[u8])
    ensures
        final(dest)@ == old(dest)@ + s@,
{
    let mut i: usize = 0;
    while i < s.len()
        invariant
            i <= s@.len(),
            dest@ == old(dest)@ + s@.subrange(0, i as int),
        decreases s@.len() - i,
    {
        dest.push(*vstd::slice::slice_index_get(s, i));
        i = i + 1;
        proof {
            assert(dest@ =~= old(dest)@ + s@.subrange(0, i as int));
        }
    }
    proof {
        assert(s@.subrange(0, s@.len() as int) =~= s@);
    }
}

/// Append a byte string escaped for a JSON string body.
fn push_escaped(dest: &mut Vec<u8>, s: &[u8])
    ensures
        final(dest)@ == old(dest)@ + json_escape(s@),
{
    let mut i: usize = 0;
    proof {
        assert(s@.skip(0) =~= s@);
    }
    while i < s.len()
        invariant
            i <= s@.len(),
            dest@ + json_escape(s@.skip(i as int)) == old(dest)@ + json_escape(s@),
        decreases s@.len() - i,
    {
        let c = *vstd::slice::slice_index_get(s, i);
        proof {
            assert(s@.skip(i as int)[0] == s@[i as int]);
            assert(s@.skip(i as int).skip(1) =~= s@.skip(i + 1));
        }
        if c == 0x22 {
            dest.push(0x5C);
            dest.push(0x22);
        } else if c == 0x5C {
            dest.push(0x5C);
            dest.push(0x5C);
        } else if c < 0x20 {
            dest.push(0x5C);
            dest.push(0x75);
            dest.push(0x30);
            dest.push(0x30);
            let digits: [u8; 16] = [
                0x30,
                0x31,
                0x32,
                0x33,
                0x34,
                0x35,
                0x36,
                0x37,
                0x38,
                0x39,
                0x61,
                0x62,
                0x63,
                0x64,
                0x65,
                0x66,
            ];
            dest.push(digits[(c / 16) as usize]);
            dest.push(digits[(c % 16) as usize]);
            proof {
                assert(digits@[c as int / 16] == hex_digit(c as int / 16));
                assert(digits@[c as int % 16] == hex_digit(c as int % 16));
            }
        } else {
            dest.push(c);
        }
        i = i + 1;
        proof {
            assert(dest@ + json_escape(s@.skip(i as int)) =~= old(dest)@ + json_escape(s@));
        }
    }
    proof {
        assert(json_escape(s@.skip(s@.len() as int)).len() == 0);
        assert(dest@ =~= old(dest)@ + json_escape(s@));
    }
}

/// Append a quoted, escaped JSON string.
fn push_quoted(dest: &mut Vec<u8>, s: &[u8])
    ensures
        final(dest)@ == old(dest)@ + quoted(s@),
{
    dest.push(0x22);
    push_escaped(dest, s);
    dest.push(0x22);
    proof {
        assert(dest@ =~= old(dest)@ + quoted(s@));
    }
}

/// Append one `"key":` piece.
fn push_key(dest: &mut Vec<u8>, name: &str)
    ensures
        final(dest)@ == old(dest)@ + json_key(name@),
{
    dest.push(0x22);
    push_all(dest, name.as_bytes());
    dest.push(0x22);
    dest.push(0x3A);
    proof {
        assert(dest@ =~= old(dest)@ + json_key(name@));
    }
}

/// The invite parameter object as JSON bytes, field values escaped.
pub fn invite_params_json(inviter: &[u8], app: &[u8], pk: &[u8], cb: &[u8]) -> (out: Vec<u8>)
    ensures
        out@ == params_json(inviter@, app@, pk@, cb@),
{
    let mut out: Vec<u8> = Vec::new();
    out.push(0x7B);
    push_key(&mut out, "inviter");
    push_quoted(&mut out, inviter);
    out.push(0x2C);
    push_key(&mut out, "app");
    push_quoted(&mut out, app);
    out.push(0x2C);
    push_key(&mut out, "pk");
    push_quoted(&mut out, pk);
    out.push(0x2C);
    push_key(&mut out, "cb");
    push_quoted(&mut out, cb);
    out.push(0x7D);
    proof {
        assert(out@ =~= params_json(inviter@, app@, pk@, cb@));
    }
    out
}

/// Build the invite link a new invite hands out: the service origin, the
/// invited page, and the encoded parameter object as the one query value.
pub fn generate_invite_link(
    origin: &str,
    inviter: &[u8],
    app: &[u8],
    pk: &[u8],
    cb: &[u8],
) -> (r: String)
    ensures
        r@ == origin@ + "/invited?id="@ + b64url_of(
            params_json(inviter@, app@, pk@, cb@),
        ),
{
    let json = invite_params_json(inviter, app, pk, cb);
    let id = b64url_encode(json.as_slice());
    let root = str_concat(origin, "/invited?id=");
    str_concat(root.as_str(), id.as_str())
}

/// Read an invite identifier back into the JSON bytes it encodes. Accepts
/// exactly the canonical base64 of UTF-8 text: whatever comes back
/// re-encodes to the identifier itself.
pub fn decode_invite_id(id: &str) -> (r: Option<Vec<u8>>)
    ensures
        r matches Some(b) ==> (id@ == b64url_of(b@) && utf8_ok(b@)),
{
    match b64url_decode(id) {
        Some(b) => {
            if crate::utf8::check_utf8(b.as_slice()) {
                Some(b)
            } else {
                None
            }
        },
        None => None,
    }
}

} // verus!
