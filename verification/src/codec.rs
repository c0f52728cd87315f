//! Canonical byte-level codec for the claims payload of a token.
//!
//! A claims payload is the JSON object `{"sub":"<name>","exp":<seconds>}`,
//! written in one canonical form: the subject's bytes are escaped (`"` and
//! `\` by a backslash escape, control bytes as `\u00xx` with lower-case hex),
//! the expiry is written in decimal without leading zeros.  The parser
//! accepts exactly this canonical form and recovers the two fields; the
//! round-trip lemmas at the end prove that parsing inverts writing.
use vstd::prelude::*;

verus! {

/// `{"sub":"`
pub open spec fn pre_bytes() -> Seq<u8> {
    seq![123u8, 34u8, 115u8, 117u8, 98u8, 34u8, 58u8, 34u8]
}

/// `","exp":` without its leading quote, i.e. `,"exp":`
pub open spec fn sep_bytes() -> Seq<u8> {
    seq![44u8, 34u8, 101u8, 120u8, 112u8, 34u8, 58u8]
}

pub open spec fn is_digit(b: u8) -> bool {
    48 <= b <= 57
}

/// Lower-case hex digit for a value below 16.
pub open spec fn hex_digit(v: u8) -> u8
    recommends
        v < 16,
{
    if v < 10 {
        (48 + v) as u8
    } else {
        (87 + v) as u8
    }
}

/// Numeric value of a lower-case hex digit byte.
pub open spec fn hex_val(b: u8) -> u8 {
    if 48 <= b <= 57 {
        (b - 48) as u8
    } else {
        (b - 87) as u8
    }
}

pub open spec fn is_lo_hex(b: u8) -> bool {
    (48 <= b <= 57) || (97 <= b <= 102)
}

/// JSON escape of one byte of the subject.
pub open spec fn esc_byte(b: u8) -> Seq<u8> {
    if b == 34 {
        seq![92u8, 34u8]
    } else if b == 92 {
        seq![92u8, 92u8]
    } else if b < 32 {
        seq![92u8, 117u8, 48u8, 48u8, hex_digit(b / 16), hex_digit(b % 16)]
    } else {
        seq![b]
    }
}

/// JSON escape of the subject's bytes.
pub open spec fn esc(s: Seq<u8>) -> Seq<u8>
    decreases s.len(),
{
    if s.len() == 0 {
        Seq::empty()
    } else {
        esc_byte(s[0]) + esc(s.drop_first())
    }
}

/// Decimal digits of a number, most significant first, no leading zeros.
pub open spec fn dec(e: nat) -> Seq<u8>
    decreases e,
{
    if e < 10 {
        seq![(48 + e) as u8]
    } else {
        dec(e / 10) + seq![(48 + e % 10) as u8]
    }
}

/// Value of a run of decimal digit bytes.
pub open spec fn val(s: Seq<u8>) -> nat
    decreases s.len(),
{
    if s.len() == 0 {
        0
    } else {
        (val(s.drop_last()) * 10 + (s.last() - 48)) as nat
    }
}

/// The canonical claims payload.
pub open spec fn claims_json(sub: Seq<u8>, exp: usize) -> Seq<u8> {
    pre_bytes() + esc(sub) + seq![34u8] + sep_bytes() + dec(exp as nat) + seq![125u8]
}

/// Parse the escaped string content up to and including its closing quote.
/// Returns the unescaped bytes and how many input bytes were consumed.
pub open spec fn parse_str(s: Seq<u8>) -> Option<(Seq<u8>, nat)>
    decreases s.len(),
{
    if s.len() == 0 {
        None
    } else if s[0] == 34 {
        Some((Seq::empty(), 1nat))
    } else if s[0] == 92 {
        if s.len() < 2 {
            None
        } else if s[1] == 34 || s[1] == 92 {
            match parse_str(s.skip(2)) {
                Some(p) => Some((seq![s[1]] + p.0, (2 + p.1) as nat)),
                None => None,
            }
        } else if s[1] == 117 {
            if s.len() < 6 {
                None
            } else if s[2] == 48 && s[3] == 48 && (s[4] == 48 || s[4] == 49) && is_lo_hex(s[5]) {
                match parse_str(s.skip(6)) {
                    Some(p) => Some(
                        (seq![(hex_val(s[4]) * 16 + hex_val(s[5])) as u8] + p.0, (6 + p.1) as nat),
                    ),
                    None => None,
                }
            } else {
                None
            }
        } else {
            None
        }
    } else if s[0] < 32 {
        None
    } else {
        match parse_str(s.skip(1)) {
            Some(p) => Some((seq![s[0]] + p.0, (1 + p.1) as nat)),
            None => None,
        }
    }
}

/// End of the run of decimal digits that starts at `i`.
pub open spec fn digit_run_end(s: Seq<u8>, i: nat) -> nat
    decreases s.len() - i,
    when i <= s.len()
{
    if i >= s.len() || !is_digit(s[i as int]) {
        i
    } else {
        digit_run_end(s, (i + 1) as nat)
    }
}

/// Parse the expiry: a canonical decimal number followed by the final `}`.
pub open spec fn parse_num(s: Seq<u8>) -> Option<usize> {
    let end = digit_run_end(s, 0);
    if end == 0 {
        None
    } else if s[0] == 48 && end != 1 {
        None
    } else if val(s.take(end as int)) > usize::MAX {
        None
    } else if end + 1 != s.len() || s[end as int] != 125 {
        None
    } else {
        Some(val(s.take(end as int)) as usize)
    }
}

/// Parse a whole claims payload in canonical form.
pub open spec fn parse_claims_spec(p: Seq<u8>) -> Option<(Seq<u8>, usize)> {
    if p.len() < 8 || p.take(8) != pre_bytes() {
        None
    } else {
        match parse_str(p.skip(8)) {
            None => None,
            Some(sp) => {
                let rest = p.skip(8 + sp.1 as int);
                if rest.len() < 7 || rest.take(7) != sep_bytes() {
                    None
                } else {
                    match parse_num(rest.skip(7)) {
                        None => None,
                        Some(e) => Some((sp.0, e)),
                    }
                }
            },
        }
    }
}

// ---------------------------------------------------------------------------
// Facts about the specification functions
// ---------------------------------------------------------------------------

pub proof fn lemma_esc_concat(a: Seq<u8>, b: Seq<u8>)
    ensures
        esc(a + b) == esc(a) + esc(b),
    decreases a.len(),
{
    if a.len() == 0 {
        assert(a + b =~= b);
        assert(esc(a) + esc(b) =~= esc(b));
    } else {
        assert((a + b).len() > 0);
        assert((a + b)[0] == a[0]);
        assert((a + b).drop_first() =~= a.drop_first() + b);
        lemma_esc_concat(a.drop_first(), b);
        assert(esc(a + b) =~= esc(a) + esc(b));
    }
}

pub proof fn lemma_esc_snoc(s: Seq<u8>, i: int)
    requires
        0 <= i < s.len(),
    ensures
        esc(s.take(i + 1)) == esc(s.take(i)) + esc_byte(s[i]),
{
    assert(s.take(i + 1) =~= s.take(i) + seq![s[i]]);
    lemma_esc_concat(s.take(i), seq![s[i]]);
    assert(seq![s[i]][0] == s[i]);
    assert(seq![s[i]].drop_first() =~= Seq::<u8>::empty());
    assert(esc(Seq::<u8>::empty()) =~= Seq::<u8>::empty());
    assert(esc(seq![s[i]]) =~= esc_byte(s[i]) + esc(Seq::<u8>::empty()));
    assert(esc_byte(s[i]) + Seq::<u8>::empty() =~= esc_byte(s[i]));
}

pub proof fn lemma_parse_str_len(s: Seq<u8>)
    ensures
        parse_str(s) matches Some(p) ==> p.1 <= s.len(),
    decreases s.len(),
{
    if s.len() == 0 {
    } else if s[0] == 34 {
    } else if s[0] == 92 {
        if s.len() >= 2 {
            lemma_parse_str_len(s.skip(2));
            if s.len() >= 6 {
                lemma_parse_str_len(s.skip(6));
            }
        }
    } else {
        lemma_parse_str_len(s.skip(1));
    }
}

/// Parsing the escaped content followed by the closing quote recovers the
/// original bytes and consumes exactly the escape plus the quote.
pub proof fn lemma_parse_str_inverts(s: Seq<u8>, rest: Seq<u8>)
    ensures
        parse_str(esc(s) + seq![34u8] + rest) == Some((s, (esc(s).len() + 1) as nat)),
    decreases s.len(),
{
    let full = esc(s) + seq![34u8] + rest;
    if s.len() == 0 {
        assert(esc(s) =~= Seq::<u8>::empty());
        assert(full[0] == 34);
        assert(parse_str(full) == Some((Seq::<u8>::empty(), 1nat)));
        assert(s =~= Seq::<u8>::empty());
    } else {
        let b = s[0];
        let t = s.drop_first();
        let sub = esc(t) + seq![34u8] + rest;
        lemma_parse_str_inverts(t, rest);
        assert(esc(s) == esc_byte(b) + esc(t));
        assert(full =~= esc_byte(b) + sub);
        if b == 34 {
            assert(full[0] == 92 && full[1] == 34);
            assert(full.len() >= 2);
            assert(full.skip(2) =~= sub);
            assert(seq![full[1]] + t =~= s);
        } else if b == 92 {
            assert(full[0] == 92 && full[1] == 92);
            assert(full.skip(2) =~= sub);
            assert(seq![full[1]] + t =~= s);
        } else if b < 32 {
            assert(full[0] == 92 && full[1] == 117 && full[2] == 48 && full[3] == 48);
            assert(full[4] == hex_digit(b / 16) && full[5] == hex_digit(b % 16));
            assert(b / 16 < 2);
            assert(full[4] == 48 || full[4] == 49);
            assert(b % 16 < 16);
            assert(is_lo_hex(full[5]));
            assert(full.len() >= 6);
            assert(full.skip(6) =~= sub);
            assert(hex_val(hex_digit(b / 16)) == b / 16);
            assert(hex_val(hex_digit(b % 16)) == b % 16);
            assert((hex_val(full[4]) * 16 + hex_val(full[5])) as u8 == b) by {
                assert(b / 16 * 16 + b % 16 == b) by {
                    vstd::arithmetic::div_mod::lemma_fundamental_div_mod(b as int, 16);
                };
            };
            assert(seq![b] + t =~= s);
        } else {
            assert(full[0] == b);
            assert(full[0] != 34 && full[0] != 92 && !(full[0] < 32));
            assert(full.skip(1) =~= sub);
            assert(seq![full[0]] + t =~= s);
        }
    }
}

pub proof fn lemma_val_snoc(s: Seq<u8>, b: u8)
    requires
        is_digit(b),
    ensures
        val(s + seq![b]) == val(s) * 10 + (b - 48),
{
    assert((s + seq![b]).drop_last() =~= s);
    assert((s + seq![b]).last() == b);
}

pub proof fn lemma_val_dec(e: nat)
    ensures
        val(dec(e)) == e,
    decreases e,
{
    if e < 10 {
        assert(dec(e) == seq![(48 + e) as u8]);
        assert(dec(e).drop_last() =~= Seq::<u8>::empty());
        assert(dec(e).last() == (48 + e) as u8);
        assert(val(Seq::<u8>::empty()) == 0);
        assert(val(dec(e)) == (0 * 10 + ((48 + e) as u8 - 48)) as nat);
    } else {
        lemma_val_dec(e / 10);
        let b = (48 + e % 10) as u8;
        assert(is_digit(b));
        assert(dec(e) == dec(e / 10) + seq![b]);
        lemma_val_snoc(dec(e / 10), b);
        assert(val(dec(e)) == val(dec(e / 10)) * 10 + (b - 48));
        assert(b - 48 == e % 10);
        assert(e / 10 * 10 + e % 10 == e) by {
            vstd::arithmetic::div_mod::lemma_fundamental_div_mod(e as int, 10);
        };
    }
}

pub proof fn lemma_dec_digits(e: nat)
    ensures
        dec(e).len() >= 1,
        forall|i: int| 0 <= i < dec(e).len() ==> is_digit(#[trigger] dec(e)[i]),
        e != 0 ==> dec(e)[0] != 48,
    decreases e,
{
    if e < 10 {
    } else {
        lemma_dec_digits(e / 10);
        assert(forall|i: int|
            0 <= i < dec(e).len() ==> is_digit(#[trigger] dec(e)[i])) by {
            assert(forall|i: int| 0 <= i < dec(e / 10).len() ==> dec(e)[i] == dec(e / 10)[i]);
            assert(dec(e)[dec(e).len() - 1] == (48 + e % 10) as u8);
        };
        assert(dec(e)[0] == dec(e / 10)[0]);
    }
}

pub proof fn lemma_digit_run_end_is(s: Seq<u8>, i: nat, k: nat)
    requires
        i <= k <= s.len(),
        forall|m: int| i <= m < k ==> is_digit(#[trigger] s[m]),
        k < s.len() ==> !is_digit(s[k as int]),
    ensures
        digit_run_end(s, i) == k,
    decreases k - i,
{
    if i == k {
    } else {
        assert(is_digit(s[i as int]));
        lemma_digit_run_end_is(s, (i + 1) as nat, k);
    }
}

/// The value of a longer run of digits is at least the value of a prefix.
pub proof fn lemma_val_prefix_le(s: Seq<u8>, i: int, j: int)
    requires
        0 <= i <= j <= s.len(),
        forall|m: int| 0 <= m < j ==> is_digit(#[trigger] s[m]),
    ensures
        val(s.take(i)) <= val(s.take(j)),
    decreases j - i,
{
    if i == j {
    } else {
        lemma_val_prefix_le(s, i, j - 1);
        assert(s.take(j).drop_last() =~= s.take(j - 1));
        assert(s.take(j).last() == s[j - 1]);
        assert(val(s.take(j)) == val(s.take(j - 1)) * 10 + (s[j - 1] - 48));
        assert(val(s.take(j - 1)) * 10 >= val(s.take(j - 1)));
    }
}

pub proof fn lemma_parse_num_inverts(e: usize)
    ensures
        parse_num(dec(e as nat) + seq![125u8]) == Some(e),
{
    let d = dec(e as nat);
    let s = d + seq![125u8];
    lemma_dec_digits(e as nat);
    assert(forall|m: int| 0 <= m < d.len() ==> is_digit(#[trigger] s[m]));
    assert(!is_digit(s[d.len() as int]));
    lemma_digit_run_end_is(s, 0, d.len());
    assert(s.take(d.len() as int) =~= d);
    lemma_val_dec(e as nat);
    if e == 0 {
        assert(d.len() == 1);
    } else {
        assert(s[0] == d[0]);
        assert(s[0] != 48);
    }
}

/// Round trip: parsing a canonical claims payload recovers its fields.
pub proof fn lemma_parse_claims_inverts(sub: Seq<u8>, exp: usize)
    ensures
        parse_claims_spec(claims_json(sub, exp)) == Some((sub, exp)),
{
    let p = claims_json(sub, exp);
    let tail = sep_bytes() + dec(exp as nat) + seq![125u8];
    assert(p.take(8) =~= pre_bytes());
    assert(p.skip(8) =~= esc(sub) + seq![34u8] + tail);
    lemma_parse_str_inverts(sub, tail);
    let k = (esc(sub).len() + 1) as nat;
    assert(parse_str(p.skip(8)) == Some((sub, k)));
    let rest = p.skip(8 + k as int);
    assert(rest =~= tail);
    assert(rest.take(7) =~= sep_bytes());
    assert(rest.skip(7) =~= dec(exp as nat) + seq![125u8]);
    lemma_parse_num_inverts(exp);
}

// ---------------------------------------------------------------------------
// Executable writer
// ---------------------------------------------------------------------------

fn hex_digit_exec(v: u8) -> (r: u8)
    requires
        v < 16,
    ensures
        r == hex_digit(v),
{
    if v < 10 {
        48 + v
    } else {
        87 + v
    }
}

fn push_dec(e: usize, out: &mut Vec<u8>)
    ensures
        final(out)@ == old(out)@ + dec(e as nat),
    decreases e,
{
    if e < 10 {
        out.push(48 + e as u8);
        assert(final(out)@ =~= old(out)@ + dec(e as nat));
    } else {
        push_dec(e / 10, out);
        out.push(48 + (e % 10) as u8);
        assert(final(out)@ =~= old(out)@ + dec(e as nat));
    }
}

/// Write the canonical claims payload for the given subject bytes and expiry.
pub fn write_claims(sub: &Vec<u8>, exp: usize) -> (r: Vec<u8>)
    ensures
        r@ == claims_json(sub@, exp),
{
    let mut out: Vec<u8> = Vec::new();
    out.push(123);
    out.push(34);
    out.push(115);
    out.push(117);
    out.push(98);
    out.push(34);
    out.push(58);
    out.push(34);
    assert(out@ =~= pre_bytes());
    let mut i: usize = 0;
    while i < sub.len()
        invariant
            i <= sub@.len(),
            out@ == pre_bytes() + esc(sub@.take(i as int)),
        decreases sub@.len() - i,
    {
        let b = sub[i];
        if b == 34 {
            out.push(92);
            out.push(34);
        } else if b == 92 {
            out.push(92);
            out.push(92);
        } else if b < 32 {
            out.push(92);
            out.push(117);
            out.push(48);
            out.push(48);
            out.push(hex_digit_exec(b / 16));
            out.push(hex_digit_exec(b % 16));
        } else {
            out.push(b);
        }
        proof {
            lemma_esc_snoc(sub@, i as int);
            assert(out@ =~= pre_bytes() + esc(sub@.take(i as int + 1)));
        }
        i += 1;
    }
    proof {
        assert(sub@.take(sub@.len() as int) =~= sub@);
    }
    out.push(34);
    out.push(44);
    out.push(34);
    out.push(101);
    out.push(120);
    out.push(112);
    out.push(34);
    out.push(58);
    assert(out@ =~= pre_bytes() + esc(sub@) + seq![34u8] + sep_bytes());
    push_dec(exp, &mut out);
    out.push(125);
    assert(out@ =~= claims_json(sub@, exp));
    out
}

// ---------------------------------------------------------------------------
// Executable parser
// ---------------------------------------------------------------------------

fn hex_val_exec(b: u8) -> (r: u8)
    requires
        is_lo_hex(b),
    ensures
        r == hex_val(b),
{
    if b <= 57 {
        b - 48
    } else {
        b - 87
    }
}

fn parse_str_exec(v: &Vec<u8>, i: usize, acc: &mut Vec<u8>) -> (r: Option<usize>)
    requires
        i <= v@.len(),
    ensures
        (match parse_str(v@.skip(i as int)) {
            None => r is None,
            Some(p) => r == Some((i + p.1) as usize) && final(acc)@ == old(acc)@ + p.0,
        }),
    decreases v@.len() - i,
{
    let ghost s = v@.skip(i as int);
    proof {
        lemma_parse_str_len(s);
    }
    if i >= v.len() {
        return None;
    }
    let b = v[i];
    assert(s[0] == b);
    if b == 34 {
        assert(final(acc)@ =~= old(acc)@ + Seq::<u8>::empty());
        return Some(i + 1);
    }
    if b == 92 {
        if i + 1 >= v.len() {
            assert(s.len() < 2);
            return None;
        }
        let c = v[i + 1];
        assert(s[1] == c);
        if c == 34 || c == 92 {
            acc.push(c);
            assert(s.skip(2) =~= v@.skip(i as int + 2));
            let res = parse_str_exec(v, i + 2, acc);
            proof {
                match parse_str(s.skip(2)) {
                    Some(p2) => {
                        assert(final(acc)@ =~= old(acc)@ + (seq![c] + p2.0));
                    },
                    None => {},
                }
            }
            return res;
        } else if c == 117 {
            if v.len() - i < 6 {
                assert(s.len() < 6);
                return None;
            }
            let c2 = v[i + 2];
            let c3 = v[i + 3];
            let c4 = v[i + 4];
            let c5 = v[i + 5];
            assert(s[2] == c2 && s[3] == c3 && s[4] == c4 && s[5] == c5);
            if c2 == 48 && c3 == 48 && (c4 == 48 || c4 == 49) && (48 <= c5 && c5 <= 57 || 97 <= c5
                && c5 <= 102) {
                let hb = hex_val_exec(c4) * 16 + hex_val_exec(c5);
                acc.push(hb);
                assert(s.skip(6) =~= v@.skip(i as int + 6));
                let res = parse_str_exec(v, i + 6, acc);
                proof {
                    match parse_str(s.skip(6)) {
                        Some(p2) => {
                            assert(final(acc)@ =~= old(acc)@ + (seq![hb] + p2.0));
                        },
                        None => {},
                    }
                }
                return res;
            } else {
                return None;
            }
        } else {
            return None;
        }
    }
    if b < 32 {
        return None;
    }
    acc.push(b);
    assert(s.skip(1) =~= v@.skip(i as int + 1));
    let res = parse_str_exec(v, i + 1, acc);
    proof {
        match parse_str(s.skip(1)) {
            Some(p2) => {
                assert(final(acc)@ =~= old(acc)@ + (seq![b] + p2.0));
            },
            None => {},
        }
    }
    res
}

fn is_digit_exec(b: u8) -> (r: bool)
    ensures
        r == is_digit(b),
{
    48 <= b && b <= 57
}

fn parse_num_exec(v: &Vec<u8>, j: usize) -> (r: Option<usize>)
    requires
        j <= v@.len(),
    ensures
        (match parse_num(v@.skip(j as int)) {
            None => r is None,
            Some(e) => r == Some(e),
        }),
{
    let ghost s = v@.skip(j as int);
    let mut m = j;
    while m < v.len() && is_digit_exec(v[m])
        invariant
            j <= m <= v@.len(),
            forall|q: int| j <= q < m ==> is_digit(#[trigger] v@[q]),
        decreases v@.len() - m,
    {
        m += 1;
    }
    proof {
        assert(forall|q: int| 0 <= q < m - j ==> is_digit(#[trigger] s[q]));
        if m < v.len() {
            assert(s[(m - j) as int] == v@[m as int]);
            assert(!is_digit(s[(m - j) as int]));
        }
        lemma_digit_run_end_is(s, 0, (m - j) as nat);
    }
    let ghost end = (m - j) as nat;
    if m == j {
        return None;
    }
    if v[j] == 48 && m != j + 1 {
        assert(s[0] == 48 && end != 1);
        return None;
    }
    let mut acc: usize = 0;
    let mut q = j;
    while q < m
        invariant
            j <= q <= m <= v@.len(),
            forall|t: int| j <= t < m ==> is_digit(#[trigger] v@[t]),
            s == v@.skip(j as int),
            end == m - j,
            digit_run_end(s, 0) == end,
            acc == val(s.take((q - j) as int)),
        decreases m - q,
    {
        let d = v[q] - 48;
        proof {
            assert(s[(q - j) as int] == v@[q as int]);
            assert(is_digit(s[(q - j) as int]));
            assert(s.take((q - j) as int + 1).drop_last() =~= s.take((q - j) as int));
            assert(s.take((q - j) as int + 1).last() == v@[q as int]);
            assert(val(s.take((q - j) as int + 1)) == acc * 10 + d);
            assert(forall|t: int| 0 <= t < end ==> is_digit(#[trigger] s[t])) by {
                assert(forall|t: int| 0 <= t < end ==> s[t] == v@[j + t] && is_digit(
                    #[trigger] v@[j + t],
                ));
            };
        }
        let overflowed: bool = match acc.checked_mul(10) {
            Some(x1) => {
                match x1.checked_add(d as usize) {
                    Some(x2) => {
                        acc = x2;
                        false
                    },
                    None => true,
                }
            },
            None => true,
        };
        if overflowed {
            proof {
                assert(val(s.take((q - j) as int + 1)) > usize::MAX);
                lemma_val_prefix_le(s, (q - j) as int + 1, end as int);
                assert(val(s.take(end as int)) > usize::MAX);
            }
            return None;
        }
        q += 1;
    }
    assert(acc == val(s.take(end as int)));
    if m < v.len() && v[m] == 125 && m + 1 == v.len() {
        assert(s[end as int] == 125 && end + 1 == s.len());
        Some(acc)
    } else {
        proof {
            if m + 1 == v.len() && m < v.len() {
                assert(s[end as int] == v@[m as int]);
            }
            if m == v.len() {
                assert(end == s.len());
            }
            if m + 1 < v.len() {
                assert(end + 1 != s.len());
            }
        }
        None
    }
}

/// Parse a claims payload; returns the subject bytes and the expiry exactly
/// when the payload is canonical.
pub fn parse_claims(p: &Vec<u8>) -> (r: Option<(Vec<u8>, usize)>)
    ensures
        (match parse_claims_spec(p@) {
            None => r is None,
            Some(c) => r matches Some(rc) && rc.0@ == c.0 && rc.1 == c.1,
        }),
{
    if p.len() < 8 {
        return None;
    }
    if !(p[0] == 123 && p[1] == 34 && p[2] == 115 && p[3] == 117 && p[4] == 98 && p[5] == 34 && p[6]
        == 58 && p[7] == 34) {
        proof {
            assert(p@.take(8) != pre_bytes()) by {
                if p@.take(8) == pre_bytes() {
                    assert(p@[0] == pre_bytes()[0]);
                    assert(p@[1] == pre_bytes()[1]);
                    assert(p@[2] == pre_bytes()[2]);
                    assert(p@[3] == pre_bytes()[3]);
                    assert(p@[4] == pre_bytes()[4]);
                    assert(p@[5] == pre_bytes()[5]);
                    assert(p@[6] == pre_bytes()[6]);
                    assert(p@[7] == pre_bytes()[7]);
                }
            };
        }
        return None;
    }
    assert(p@.take(8) =~= pre_bytes());
    let mut sub: Vec<u8> = Vec::new();
    let k = match parse_str_exec(p, 8, &mut sub) {
        None => {
            return None;
        },
        Some(k) => k,
    };
    proof {
        lemma_parse_str_len(p@.skip(8));
    }
    assert(k <= p@.len());
    if p.len() - k < 7 {
        return None;
    }
    if !(p[k] == 44 && p[k + 1] == 34 && p[k + 2] == 101 && p[k + 3] == 120 && p[k + 4] == 112
        && p[k + 5] == 34 && p[k + 6] == 58) {
        proof {
            let rest = p@.skip(k as int);
            assert(rest.take(7) != sep_bytes()) by {
                if rest.take(7) == sep_bytes() {
                    assert(rest[0] == sep_bytes()[0]);
                    assert(rest[1] == sep_bytes()[1]);
                    assert(rest[2] == sep_bytes()[2]);
                    assert(rest[3] == sep_bytes()[3]);
                    assert(rest[4] == sep_bytes()[4]);
                    assert(rest[5] == sep_bytes()[5]);
                    assert(rest[6] == sep_bytes()[6]);
                }
            };
        }
        return None;
    }
    proof {
        let rest = p@.skip(k as int);
        assert(rest.take(7) =~= sep_bytes());
        assert(rest.skip(7) =~= p@.skip(k as int + 7));
    }
    let e = match parse_num_exec(p, k + 7) {
        None => {
            return None;
        },
        Some(e) => e,
    };
    Some((sub, e))
}

} // verus!
