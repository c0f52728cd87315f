//! Token issuance: framing, signing and the trusted boundary to the
//! outside crates.
//!
//! A token is `b64url(header) "." b64url(claims) "." signature`, where the
//! header is the fixed JSON for the HS256 algorithm, the claims payload is
//! the canonical form of [`crate::codec::claims_json`], and the signature is
//! the HMAC-SHA256 of the first two segments under the shared secret,
//! base64-url-encoded.  The algorithm is fixed here and never negotiated
//! from input.
use vstd::prelude::*;

use crate::codec::claims_json;
use crate::codec::write_claims;
use crate::errors::AuthError;
use crate::middleware::Claims;
use base64::Engine;
use vstd::utf8::decode_utf8;
use vstd::utf8::encode_utf8;
use vstd::utf8::valid_utf8;
use vstd::string::StrSliceExecFns;

verus! {

/// What base64's URL-safe no-pad engine returns for the given bytes.
pub uninterp spec fn b64url_of(b: Seq<u8>) -> Seq<u8>;

/// What base64's URL-safe no-pad engine decodes the given bytes to, if
/// they are valid base64.
pub uninterp spec fn b64url_decode_of(b: Seq<u8>) -> Option<Seq<u8>>;

/// What jsonwebtoken's HS256 signing returns for a message and key: the
/// base64-url-encoded HMAC-SHA256 tag, a function of its arguments alone.
pub uninterp spec fn hs256_sig_of(message: Seq<u8>, key: Seq<u8>) -> Seq<u8>;

/// Bytes that may appear inside one token segment: ASCII and never `.`.
pub open spec fn token_text(b: Seq<u8>) -> bool {
    forall|i: int| 0 <= i < b.len() ==> #[trigger] b[i] != 46 && b[i] < 128
}

#[verifier::external_type_specification]
#[verifier::external_body]
pub struct ExJwtError(jsonwebtoken::errors::Error);

/// Relies on base64's `URL_SAFE_NO_PAD` engine: `Engine::encode` writes only
/// characters of the URL-safe alphabet (ASCII, no `.`, no padding), at
/// least one per input byte, and `Engine::decode` inverts it.
#[verifier::external_body]
pub(crate) fn b64url_encode(b: &Vec<u8>) -> (r: Vec<u8>)
    ensures
        r@ == b64url_of(b@),
        b64url_decode_of(r@) == Some(b@),
        token_text(r@),
        b@.len() > 0 ==> r@.len() > 0,
{
    base64::engine::general_purpose::URL_SAFE_NO_PAD.encode(b).into_bytes()
}

/// Relies on base64's `URL_SAFE_NO_PAD` engine: `Engine::decode` succeeds
/// exactly on valid unpadded URL-safe base64 and returns the encoded bytes.
#[verifier::external_body]
pub(crate) fn b64url_decode(b: &Vec<u8>) -> (r: Option<Vec<u8>>)
    ensures
        r is Some <==> b64url_decode_of(b@) is Some,
        r matches Some(d) ==> b64url_decode_of(b@) == Some(d@),
{
    base64::engine::general_purpose::URL_SAFE_NO_PAD.decode(b).ok()
}

/// Relies on jsonwebtoken's `crypto::sign` with `Algorithm::HS256`: for an
/// HMAC secret the signature is a deterministic function of message and key
/// (under the crate's `rust_crypto` provider, the only one this build can
/// select), returned base64-url-encoded (ASCII, no `.`).  The 32-byte
/// HMAC-SHA256 tag encodes to exactly 43 such bytes.  With a key from
/// `EncodingKey::from_secret` the HMAC signer accepts any key length and
/// signing cannot fail, so the call always returns `Ok`.
#[verifier::external_body]
pub(crate) fn hs256_sign(message: &Vec<u8>, key: &Vec<u8>) -> (r: Result<
    Vec<u8>,
    jsonwebtoken::errors::Error,
>)
    ensures
        r is Ok,
        r matches Ok(s) ==> s@ == hs256_sig_of(message@, key@),
        r matches Ok(s) ==> token_text(s@),
        r matches Ok(s) ==> s@.len() == 43,
{
    jsonwebtoken::crypto::sign(
        message.as_slice(),
        &jsonwebtoken::EncodingKey::from_secret(key.as_slice()),
        jsonwebtoken::Algorithm::HS256,
    ).map(|s| s.into_bytes())
}

/// Relies on `String::from_utf8`: succeeds exactly on valid UTF-8 and yields
/// the string those bytes encode.
#[verifier::external_body]
pub(crate) fn bytes_to_string(v: Vec<u8>) -> (r: Option<String>)
    ensures
        r is Some <==> valid_utf8(v@),
        r matches Some(s) ==> s@ == decode_utf8(v@),
{
    String::from_utf8(v).ok()
}

/// The fixed token header `{"typ":"JWT","alg":"HS256"}` as bytes.
pub open spec fn header_json() -> Seq<u8> {
    seq![
        123u8,
        34u8,
        116u8,
        121u8,
        112u8,
        34u8,
        58u8,
        34u8,
        74u8,
        87u8,
        84u8,
        34u8,
        44u8,
        34u8,
        97u8,
        108u8,
        103u8,
        34u8,
        58u8,
        34u8,
        72u8,
        83u8,
        50u8,
        53u8,
        54u8,
        34u8,
        125u8,
    ]
}

pub(crate) fn header_bytes() -> (r: Vec<u8>)
    ensures
        r@ == header_json(),
{
    let mut v: Vec<u8> = Vec::new();
    v.push(123);
    v.push(34);
    v.push(116);
    v.push(121);
    v.push(112);
    v.push(34);
    v.push(58);
    v.push(34);
    v.push(74);
    v.push(87);
    v.push(84);
    v.push(34);
    v.push(44);
    v.push(34);
    v.push(97);
    v.push(108);
    v.push(103);
    v.push(34);
    v.push(58);
    v.push(34);
    v.push(72);
    v.push(83);
    v.push(50);
    v.push(53);
    v.push(54);
    v.push(34);
    v.push(125);
    assert(v@ =~= header_json());
    v
}

pub(crate) fn push_all(dst: &mut Vec<u8>, src: &Vec<u8>)
    ensures
        final(dst)@ == old(dst)@ + src@,
{
    let mut i: usize = 0;
    while i < src.len()
        invariant
            i <= src@.len(),
            dst@ == old(dst)@ + src@.take(i as int),
        decreases src@.len() - i,
    {
        dst.push(src[i]);
        proof {
            assert(src@.take(i as int + 1) =~= src@.take(i as int) + seq![src@[i as int]]);
            assert(old(dst)@ + src@.take(i as int) + seq![src@[i as int]] =~= old(dst)@ + src@.take(
                i as int + 1,
            ));
        }
        i += 1;
    }
    proof {
        assert(src@.take(src@.len() as int) =~= src@);
    }
}

/// The signed part of a token: `b64url(header) "." b64url(claims)`.
pub open spec fn token_msg_of(sub: Seq<u8>, exp: usize) -> Seq<u8> {
    b64url_of(header_json()) + seq![46u8] + b64url_of(claims_json(sub, exp))
}

/// The whole token for a subject, expiry and key.
pub open spec fn token_bytes_of(sub: Seq<u8>, exp: usize, key: Seq<u8>) -> Seq<u8> {
    token_msg_of(sub, exp) + seq![46u8] + hs256_sig_of(token_msg_of(sub, exp), key)
}

/// Facts about a freshly issued token that the validator's proof needs:
/// the base64 segments decode back, every segment is non-empty text
/// without a `.`, and the signature segment has the HS256 tag's length.
pub open spec fn token_facts(sub: Seq<u8>, exp: usize, key: Seq<u8>) -> bool {
    &&& b64url_decode_of(b64url_of(claims_json(sub, exp))) == Some(claims_json(sub, exp))
    &&& token_text(b64url_of(header_json()))
    &&& token_text(b64url_of(claims_json(sub, exp)))
    &&& token_text(hs256_sig_of(token_msg_of(sub, exp), key))
    &&& b64url_of(header_json()).len() > 0
    &&& b64url_of(claims_json(sub, exp)).len() > 0
    &&& hs256_sig_of(token_msg_of(sub, exp), key).len() == 43
}

/// A sequence of ASCII bytes is valid UTF-8.
proof fn lemma_ascii_valid_utf8(b: Seq<u8>)
    requires
        forall|i: int| 0 <= i < b.len() ==> #[trigger] b[i] < 128,
    ensures
        valid_utf8(b),
{
    assert(b.subrange(0, 0) =~= Seq::<u8>::empty());
    assert(vstd::utf8::partial_valid_utf8(b, 0));
    assert(forall|i: int|
        0 <= i < b.len() ==> #[trigger] vstd::utf8::is_leading_byte_width_1(b[i]));
    vstd::utf8::partial_valid_utf8_extend_ascii_block(b, 0, b.len() as int);
    assert(b.subrange(0, b.len() as int) =~= b);
}

/// Token issuer: sign the claims with the symmetric secret, HS256 only.
///
/// Issuance always succeeds: the returned string is exactly the token that
/// [`token_bytes_of`] describes, and [`token_facts`] holds of it.
pub fn issue(claims: &Claims, secret: &Vec<u8>) -> (r: Result<String, AuthError>)
    ensures
        r is Ok,
        r matches Ok(t) ==> {
            let sb = encode_utf8(claims.sub@);
            &&& encode_utf8(t@) == token_bytes_of(sb, claims.exp, secret@)
            &&& token_facts(sb, claims.exp, secret@)
        },
{
    let ghost sb = encode_utf8(claims.sub@);
    let sub_b = claims.sub.as_str().as_bytes_vec();
    assert(sub_b@ == sb);
    let payload = write_claims(&sub_b, claims.exp);
    let pb = b64url_encode(&payload);
    let hj = header_bytes();
    let hb = b64url_encode(&hj);
    let mut msg: Vec<u8> = Vec::new();
    push_all(&mut msg, &hb);
    msg.push(46);
    push_all(&mut msg, &pb);
    assert(msg@ =~= token_msg_of(sb, claims.exp));
    let ghost msgv = msg@;
    let sig = match hs256_sign(&msg, secret) {
        Err(_) => {
            return Err(AuthError::JwtError);
        },
        Ok(s) => s,
    };
    let mut tb = msg;
    tb.push(46);
    push_all(&mut tb, &sig);
    assert(tb@ =~= token_bytes_of(sb, claims.exp, secret@));
    proof {
        assert forall|i: int| 0 <= i < tb@.len() implies #[trigger] tb@[i] < 128 by {
            let hl = hb@.len() as int;
            let pl = pb@.len() as int;
            if i < hl {
                assert(tb@[i] == hb@[i]);
            } else if i == hl {
                assert(tb@[i] == 46);
            } else if i < hl + 1 + pl {
                assert(tb@[i] == pb@[i - hl - 1]);
            } else if i == hl + 1 + pl {
                assert(tb@[i] == 46);
            } else {
                assert(tb@[i] == sig@[i - (hl + 1 + pl) - 1]);
            }
        }
        lemma_ascii_valid_utf8(tb@);
    }
    match bytes_to_string(tb) {
        None => Err(AuthError::JwtError),
        Some(t) => {
            proof {
                vstd::utf8::decode_utf8_encode_utf8(token_bytes_of(sb, claims.exp, secret@));
            }
            Ok(t)
        },
    }
}

} // verus!
