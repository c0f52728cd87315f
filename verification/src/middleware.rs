//! Token validator and request gate.
//!
//! For every request to a protected resource, this middleware reads the
//! `Authorization` header value, expects `Bearer <token>`, checks the
//! token's signature against the shared secret, decodes the claims and
//! compares the expiry with the clock value read at validation time.  The
//! outcome is terminal: either the identity is admitted or the request is
//! rejected with `InvalidCredentials`.  The expiry rule is inclusive: a
//! token with `exp == now` is still admitted, `exp < now` is rejected.
use vstd::prelude::*;

use crate::codec::parse_claims;
use crate::codec::parse_claims_spec;
use crate::errors::AuthError;
use crate::jwt::b64url_decode;
use crate::jwt::b64url_decode_of;
use crate::jwt::b64url_encode;
use crate::jwt::b64url_of;
use crate::jwt::bytes_to_string;
use crate::jwt::header_bytes;
use crate::jwt::header_json;
use crate::jwt::hs256_sig_of;
use crate::jwt::hs256_sign;
use crate::jwt::token_bytes_of;
use crate::jwt::token_facts;
use crate::jwt::token_msg_of;
use vstd::string::StrSliceExecFns;
use vstd::utf8::decode_utf8;
use vstd::utf8::encode_utf8;
use vstd::utf8::valid_utf8;

verus! {

/// The claims carried by a token: the authenticated subject and an
/// absolute expiry instant in seconds since the epoch.
#[derive(Debug, Clone)]
pub struct Claims {
    pub sub: String,
    pub exp: usize,
}

/// Factory for the request gate; holds the shared signing secret.
#[derive(Clone)]
pub struct JwtAuth {
    pub secret: String,
}

impl JwtAuth {
    pub fn new(secret: String) -> (r: Self)
        ensures
            r.secret == secret,
    {
        Self { secret }
    }

    /// Build the middleware that gates one service's requests.
    pub fn new_transform(&self) -> (r: JwtAuthMiddleware)
        ensures
            r.secret == self.secret,
    {
        JwtAuthMiddleware { secret: self.secret.clone() }
    }
}

/// The request gate itself.
#[derive(Clone)]
pub struct JwtAuthMiddleware {
    pub secret: String,
}

/// Index of the first occurrence of `b` at or after `from`, or the length
/// of the sequence if there is none.
pub open spec fn idx_of(s: Seq<u8>, from: nat, b: u8) -> nat
    decreases s.len() - from,
    when from <= s.len()
{
    if from >= s.len() {
        from
    } else if s[from as int] == b {
        from
    } else {
        idx_of(s, (from + 1) as nat, b)
    }
}

/// `Bearer ` as bytes.
pub open spec fn bearer_prefix() -> Seq<u8> {
    seq![66u8, 101u8, 97u8, 114u8, 101u8, 114u8, 32u8]
}

/// Index of the second `.` of the token bytes (the signature boundary).
pub open spec fn second_dot(t: Seq<u8>) -> nat {
    idx_of(t, (idx_of(t, 0, 46) + 1) as nat, 46)
}

/// The admission verdict on raw token bytes, given a signature to expect
/// and a header segment to expect: `Some(subject bytes)` exactly when the
/// token has three segments, its header segment is `hb`, its signature
/// segment is `sig`, its payload decodes and parses as canonical claims,
/// and the expiry has not passed (`now <= exp`).
pub open spec fn admit_spec(t: Seq<u8>, sig: Seq<u8>, hb: Seq<u8>, now: usize) -> Option<Seq<u8>> {
    let i = idx_of(t, 0, 46);
    let j = idx_of(t, (i + 1) as nat, 46);
    if i >= t.len() || j >= t.len() {
        None
    } else if idx_of(t, (j + 1) as nat, 46) != t.len() {
        None
    } else if t.take(i as int) != hb {
        None
    } else if t.skip(j as int + 1) != sig {
        None
    } else {
        match b64url_decode_of(t.subrange(i as int + 1, j as int)) {
            None => None,
            Some(p) => match parse_claims_spec(p) {
                None => None,
                Some(c) => if c.1 < now {
                    None
                } else {
                    Some(c.0)
                },
            },
        }
    }
}

/// The validation verdict on raw token bytes under a key at an instant:
/// [`admit_spec`] with the expected signature fixed to the HS256 tag of
/// the token's first two segments under `key`, and the expected header
/// segment fixed to the canonical HS256 header.
pub open spec fn validate_token_spec(t: Seq<u8>, key: Seq<u8>, now: usize) -> Option<Seq<u8>> {
    admit_spec(
        t,
        hs256_sig_of(t.take(second_dot(t) as int), key),
        b64url_of(header_json()),
        now,
    )
}

/// The verdict on a request's `Authorization` header bytes.
pub open spec fn gate_spec(header: Option<Seq<u8>>, key: Seq<u8>, now: usize) -> Option<Seq<u8>> {
    match header {
        None => None,
        Some(h) => if h.len() < 7 || h.take(7) != bearer_prefix() {
            None
        } else {
            validate_token_spec(h.skip(7), key, now)
        },
    }
}

/// The header bytes this middleware sees for a request.
pub open spec fn header_view(h: Option<&String>) -> Option<Seq<u8>> {
    match h {
        None => None,
        Some(s) => Some(encode_utf8(s@)),
    }
}

fn find_byte(v: &Vec<u8>, from: usize, b: u8) -> (r: usize)
    requires
        from <= v@.len(),
    ensures
        r == idx_of(v@, from as nat, b),
        from <= r <= v@.len(),
{
    let mut m = from;
    while m < v.len()
        invariant
            from <= m <= v@.len(),
            idx_of(v@, from as nat, b) == idx_of(v@, m as nat, b),
            forall|q: int| from <= q < m ==> v@[q] != b,
        decreases v@.len() - m,
    {
        if v[m] == b {
            return m;
        }
        m += 1;
    }
    m
}

fn subvec(v: &Vec<u8>, from: usize, to: usize) -> (r: Vec<u8>)
    requires
        from <= to <= v@.len(),
    ensures
        r@ == v@.subrange(from as int, to as int),
{
    let mut r: Vec<u8> = Vec::new();
    let mut m = from;
    while m < to
        invariant
            from <= m <= to <= v@.len(),
            r@ == v@.subrange(from as int, m as int),
        decreases to - m,
    {
        r.push(v[m]);
        proof {
            assert(v@.subrange(from as int, m as int + 1) =~= v@.subrange(from as int, m as int)
                + seq![v@[m as int]]);
        }
        m += 1;
    }
    r
}

fn range_eq(v: &Vec<u8>, from: usize, to: usize, w: &Vec<u8>) -> (r: bool)
    requires
        from <= to <= v@.len(),
    ensures
        r == (v@.subrange(from as int, to as int) == w@),
{
    if to - from != w.len() {
        proof {
            assert(v@.subrange(from as int, to as int).len() == to - from);
        }
        return false;
    }
    let mut m: usize = 0;
    while m < w.len()
        invariant
            0 <= m <= w@.len(),
            w@.len() == to - from,
            from <= to <= v@.len(),
            forall|q: int| 0 <= q < m ==> v@[from + q] == w@[q],
        decreases w@.len() - m,
    {
        if v[from + m] != w[m] {
            proof {
                assert(v@.subrange(from as int, to as int)[m as int] == v@[from + m]);
            }
            return false;
        }
        m += 1;
    }
    proof {
        assert(v@.subrange(from as int, to as int) =~= w@);
    }
    true
}

/// Decide admission for token bytes `t`, given the signature the signing
/// backend returned for the token's message part and the canonical header
/// segment.  The result is exactly the verdict of [`admit_spec`], for
/// every value the backend may have handed back.
pub fn admit_token(t: &Vec<u8>, expected_sig: &Vec<u8>, header_seg: &Vec<u8>, now: usize) -> (r:
    Option<Vec<u8>>)
    ensures
        (match admit_spec(t@, expected_sig@, header_seg@, now) {
            None => r is None,
            Some(sb) => r matches Some(v) && v@ == sb,
        }),
{
    let i = find_byte(t, 0, 46);
    if i == t.len() {
        return None;
    }
    let j = find_byte(t, i + 1, 46);
    if j == t.len() {
        return None;
    }
    let k3 = find_byte(t, j + 1, 46);
    if k3 != t.len() {
        return None;
    }
    if !range_eq(t, 0, i, header_seg) {
        proof {
            assert(t@.take(i as int) =~= t@.subrange(0, i as int));
        }
        return None;
    }
    assert(t@.take(i as int) =~= t@.subrange(0, i as int));
    if !range_eq(t, j + 1, t.len(), expected_sig) {
        proof {
            assert(t@.skip(j as int + 1) =~= t@.subrange(j as int + 1, t@.len() as int));
        }
        return None;
    }
    assert(t@.skip(j as int + 1) =~= t@.subrange(j as int + 1, t@.len() as int));
    let pb64 = subvec(t, i + 1, j);
    let payload = match b64url_decode(&pb64) {
        None => {
            return None;
        },
        Some(p) => p,
    };
    let parsed = match parse_claims(&payload) {
        None => {
            proof {
                if parse_claims_spec(payload@) is Some {
                    assert(false);
                }
            }
            return None;
        },
        Some(c) => c,
    };
    let (sub_b, exp) = parsed;
    proof {
        if parse_claims_spec(payload@) is None {
            assert(false);
        }
    }
    if exp < now {
        return None;
    }
    Some(sub_b)
}

impl JwtAuthMiddleware {
    /// Intercept one request: admit it and return the token's subject, or
    /// reject it with `InvalidCredentials` before it reaches any handler.
    ///
    /// The outcome is exactly the verdict of [`gate_spec`] over the header
    /// bytes, the secret and the clock value `now`: a request is admitted
    /// if and only if that verdict admits it and the admitted subject
    /// bytes are valid UTF-8 (as the bytes of every issued token are).
    pub fn call(&self, authorization: Option<&String>, now: usize) -> (r: Result<String, AuthError>)
        ensures
            r matches Err(e) ==> e == AuthError::InvalidCredentials,
            r matches Ok(sub) ==> (gate_spec(
                header_view(authorization),
                encode_utf8(self.secret@),
                now,
            ) matches Some(sb) && valid_utf8(sb) && sub@ == decode_utf8(sb)),
            gate_spec(header_view(authorization), encode_utf8(self.secret@), now) is None
                ==> r is Err,
            gate_spec(header_view(authorization), encode_utf8(self.secret@), now) matches Some(sb)
                && valid_utf8(sb) ==> r is Ok,
            gate_spec(header_view(authorization), encode_utf8(self.secret@), now) matches Some(sb)
                && !valid_utf8(sb) ==> r is Err,
    {
        let h = match authorization {
            None => {
                return Err(AuthError::InvalidCredentials);
            },
            Some(h) => h,
        };
        let hb = h.as_str().as_bytes_vec();
        let ghost hview = encode_utf8(h@);
        assert(hb@ == hview);
        if hb.len() < 7 {
            return Err(AuthError::InvalidCredentials);
        }
        if !(hb[0] == 66 && hb[1] == 101 && hb[2] == 97 && hb[3] == 114 && hb[4] == 101 && hb[5]
            == 114 && hb[6] == 32) {
            proof {
                assert(hview.take(7) != bearer_prefix()) by {
                    if hview.take(7) == bearer_prefix() {
                        assert(hview.take(7)[0] == hview[0]);
                        assert(hview.take(7)[1] == hview[1]);
                        assert(hview.take(7)[2] == hview[2]);
                        assert(hview.take(7)[3] == hview[3]);
                        assert(hview.take(7)[4] == hview[4]);
                        assert(hview.take(7)[5] == hview[5]);
                        assert(hview.take(7)[6] == hview[6]);
                    }
                };
            }
            return Err(AuthError::InvalidCredentials);
        }
        assert(hview.take(7) =~= bearer_prefix());
        let t = subvec(&hb, 7, hb.len());
        assert(t@ =~= hview.skip(7));
        let key = self.secret.as_str().as_bytes_vec();
        assert(key@ == encode_utf8(self.secret@));
        let i = find_byte(&t, 0, 46);
        if i == t.len() {
            assert(validate_token_spec(t@, key@, now) is None);
            return Err(AuthError::InvalidCredentials);
        }
        let j = find_byte(&t, i + 1, 46);
        if j == t.len() {
            assert(validate_token_spec(t@, key@, now) is None);
            return Err(AuthError::InvalidCredentials);
        }
        let hj = header_bytes();
        let hbc = b64url_encode(&hj);
        let msg = subvec(&t, 0, j);
        assert(msg@ =~= t@.take(j as int));
        let expected = match hs256_sign(&msg, &key) {
            Err(_) => {
                return Err(AuthError::InvalidCredentials);
            },
            Ok(s) => s,
        };
        proof {
            assert(second_dot(t@) == j as nat);
            assert(expected@ == hs256_sig_of(t@.take(second_dot(t@) as int), key@));
            assert(validate_token_spec(t@, key@, now) == admit_spec(t@, expected@, hbc@, now));
        }
        let sub_b = match admit_token(&t, &expected, &hbc, now) {
            None => {
                assert(validate_token_spec(t@, key@, now) is None);
                return Err(AuthError::InvalidCredentials);
            },
            Some(s) => s,
        };
        let ghost sb = sub_b@;
        proof {
            assert(validate_token_spec(t@, key@, now) == Some(sb));
            assert(gate_spec(header_view(authorization), encode_utf8(self.secret@), now) == Some(
                sb,
            ));
        }
        match bytes_to_string(sub_b) {
            None => Err(AuthError::InvalidCredentials),
            Some(s) => Ok(s),
        }
    }
}

// ---------------------------------------------------------------------------
// Laws of token validation
// ---------------------------------------------------------------------------

proof fn lemma_idx_of_is(s: Seq<u8>, from: nat, b: u8, k: nat)
    requires
        from <= k <= s.len(),
        forall|m: int| from <= m < k ==> s[m] != b,
        k < s.len() ==> s[k as int] == b,
    ensures
        idx_of(s, from, b) == k,
    decreases k - from,
{
    if from == k {
    } else {
        lemma_idx_of_is(s, (from + 1) as nat, b, k);
    }
}

proof fn lemma_idx_of_bounds(s: Seq<u8>, from: nat, b: u8)
    requires
        from <= s.len(),
    ensures
        from <= idx_of(s, from, b) <= s.len(),
        idx_of(s, from, b) == s.len() ==> forall|m: int| from <= m < s.len() ==> s[m] != b,
    decreases s.len() - from,
{
    if from >= s.len() {
    } else if s[from as int] == b {
    } else {
        lemma_idx_of_bounds(s, (from + 1) as nat, b);
    }
}

/// The verdict on a freshly issued token: admitted with its own subject
/// exactly while it has not expired, rejected afterwards.  With `now` at
/// most `exp` this is the round-trip law: issuing then validating with the
/// same secret admits; at `now == exp + 1` and later the token is rejected.
pub proof fn lemma_validate_issued(sub: Seq<u8>, exp: usize, key: Seq<u8>, now: usize)
    requires
        token_facts(sub, exp, key),
    ensures
        validate_token_spec(token_bytes_of(sub, exp, key), key, now) == (if exp < now {
            None::<Seq<u8>>
        } else {
            Some(sub)
        }),
{
    let hb = b64url_of(header_json());
    let pb = b64url_of(crate::codec::claims_json(sub, exp));
    let msgv = token_msg_of(sub, exp);
    let sig = hs256_sig_of(msgv, key);
    let t = token_bytes_of(sub, exp, key);
    assert(msgv == hb + seq![46u8] + pb);
    assert(t == msgv + seq![46u8] + sig);
    let i = hb.len();
    let j = hb.len() + 1 + pb.len();
    assert(t.len() == j + 1 + sig.len());
    assert(t[i as int] == 46);
    assert(forall|m: int| 0 <= m < i ==> t[m] == hb[m]);
    lemma_idx_of_is(t, 0, 46, i);
    assert(t[j as int] == 46);
    assert(forall|m: int| i + 1 <= m < j ==> t[m] == pb[m - i - 1]);
    lemma_idx_of_is(t, (i + 1) as nat, 46, j);
    assert(forall|m: int| j + 1 <= m < t.len() ==> t[m] == sig[m - j - 1]);
    lemma_idx_of_is(t, (j + 1) as nat, 46, t.len());
    assert(t.take(i as int) =~= hb);
    assert(t.skip(j as int + 1) =~= sig);
    assert(t.take(j as int) =~= msgv);
    assert(t.subrange(i as int + 1, j as int) =~= pb);
    crate::codec::lemma_parse_claims_inverts(sub, exp);
}

/// Round trip at the request boundary: a request whose `Authorization`
/// header carries a freshly issued, unexpired token is admitted with the
/// token's subject.
pub proof fn lemma_gate_admits_issued(sub: Seq<u8>, exp: usize, key: Seq<u8>, now: usize)
    requires
        token_facts(sub, exp, key),
        now <= exp,
    ensures
        gate_spec(Some(bearer_prefix() + token_bytes_of(sub, exp, key)), key, now) == Some(sub),
{
    let h = bearer_prefix() + token_bytes_of(sub, exp, key);
    assert(h.take(7) =~= bearer_prefix());
    assert(h.skip(7) =~= token_bytes_of(sub, exp, key));
    lemma_validate_issued(sub, exp, key, now);
}

/// Idempotence: validating the same header twice under the same secret and
/// clock yields the same verdict both times.
pub proof fn lemma_gate_deterministic(
    header: Option<Seq<u8>>,
    key: Seq<u8>,
    now: usize,
    o1: Option<Seq<u8>>,
    o2: Option<Seq<u8>>,
)
    requires
        o1 == gate_spec(header, key, now),
        o2 == gate_spec(header, key, now),
    ensures
        o1 == o2,
{
}

/// Expiry boundary: a token is admitted at `now == exp` (the inclusive
/// rule this library fixes) and rejected at `now == exp + 1`.
pub proof fn lemma_expiry_boundary(sub: Seq<u8>, exp: usize, key: Seq<u8>)
    requires
        token_facts(sub, exp, key),
        exp < usize::MAX,
    ensures
        validate_token_spec(token_bytes_of(sub, exp, key), key, exp) == Some(sub),
        validate_token_spec(token_bytes_of(sub, exp, key), key, (exp + 1) as usize) is None,
{
    lemma_validate_issued(sub, exp, key, exp);
    lemma_validate_issued(sub, exp, key, (exp + 1) as usize);
}

/// A valid token names its owner: for any record name, an issued, unexpired
/// token is admitted and the admitted subject decodes to exactly that name.
pub proof fn lemma_issued_token_names_subject(name: Seq<char>, exp: usize, key: Seq<u8>, now: usize)
    requires
        token_facts(encode_utf8(name), exp, key),
        now <= exp,
    ensures
        validate_token_spec(token_bytes_of(encode_utf8(name), exp, key), key, now) matches Some(sb)
            && valid_utf8(sb) && decode_utf8(sb) == name,
{
    lemma_validate_issued(encode_utf8(name), exp, key, now);
    vstd::utf8::encode_utf8_valid_utf8(name);
    vstd::utf8::encode_utf8_decode_utf8(name);
}

/// Tamper: any change to the signature segment of an issued token makes
/// validation reject it, at every instant.
pub proof fn lemma_tampered_signature_rejected(
    sub: Seq<u8>,
    exp: usize,
    key: Seq<u8>,
    now: usize,
    sig2: Seq<u8>,
)
    requires
        token_facts(sub, exp, key),
        sig2 != hs256_sig_of(token_msg_of(sub, exp), key),
    ensures
        validate_token_spec(token_msg_of(sub, exp) + seq![46u8] + sig2, key, now) is None,
{
    let hb = b64url_of(header_json());
    let pb = b64url_of(crate::codec::claims_json(sub, exp));
    let msgv = token_msg_of(sub, exp);
    let t = msgv + seq![46u8] + sig2;
    assert(msgv == hb + seq![46u8] + pb);
    let i = hb.len();
    let j = hb.len() + 1 + pb.len();
    assert(t.len() == j + 1 + sig2.len());
    assert(t[i as int] == 46);
    assert(forall|m: int| 0 <= m < i ==> t[m] == hb[m]);
    lemma_idx_of_is(t, 0, 46, i);
    assert(t[j as int] == 46);
    assert(forall|m: int| i + 1 <= m < j ==> t[m] == pb[m - i - 1]);
    lemma_idx_of_is(t, (i + 1) as nat, 46, j);
    if exists|m: int| 0 <= m < sig2.len() && sig2[m] == 46 {
        let m0 = choose|m: int| 0 <= m < sig2.len() && sig2[m] == 46;
        assert(t[j + 1 + m0] == 46);
        lemma_idx_of_bounds(t, (j + 1) as nat, 46);
        assert(idx_of(t, (j + 1) as nat, 46) != t.len());
    } else {
        assert(forall|m: int| j + 1 <= m < t.len() ==> t[m] == sig2[m - j - 1] && t[m] != 46);
        lemma_idx_of_is(t, (j + 1) as nat, 46, t.len());
        assert(t.skip(j as int + 1) =~= sig2);
        assert(t.take(j as int) =~= msgv);
    }
}

} // verus!
