//! The canonical claims payload: a fixed-shape JSON object
//! `{"username":"...","permissions":["...",...],"exp":N}` written and read
//! at the byte level. The writer escapes quotes, backslashes and control
//! bytes; the parser accepts exactly the escapes the writer produces and
//! hands every other byte through, so that reading what was written gives
//! the original values back.

use vstd::prelude::*;

verus! {

/// The lowercase hex digit for a four-bit value.
pub open spec fn hex_digit(v: u8) -> u8
    recommends
        v < 16,
{
    if v < 10 {
        (48 + v) as u8
    } else {
        (87 + v) as u8
    }
}

/// The four-bit value of a lowercase hex digit.
pub open spec fn hex_val(c: u8) -> u8
    recommends
        is_hex_digit(c),
{
    if 48 <= c <= 57 {
        (c - 48) as u8
    } else {
        (c - 87) as u8
    }
}

/// True of the bytes the escape parser accepts as lowercase hex digits.
pub open spec fn is_hex_digit(c: u8) -> bool {
    (48 <= c <= 57) || (97 <= c <= 102)
}

/// How one byte of string content is written: quote and backslash get a
/// backslash escape, control bytes a `\u00XY` escape, anything else
/// passes through unchanged.
pub open spec fn esc_byte(b: u8) -> Seq<u8> {
    if b == 34 {
        seq![92u8, 34u8]
    } else if b == 92 {
        seq![92u8, 92u8]
    } else if b < 32 {
        seq![92u8, 117u8, 48u8, 48u8, hex_digit(b >> 4), hex_digit(b & 15)]
    } else {
        seq![b]
    }
}

/// The escaped form of string content.
pub open spec fn json_escape(s: Seq<u8>) -> Seq<u8>
    decreases s.len(),
{
    if s.len() == 0 {
        seq![]
    } else {
        esc_byte(s[0]) + json_escape(s.drop_first())
    }
}

/// Read string content up to and including the closing quote; gives the
/// unescaped content and what follows the quote.
pub open spec fn parse_jstring(b: Seq<u8>) -> Option<(Seq<u8>, Seq<u8>)>
    decreases b.len(),
{
    if b.len() == 0 {
        None
    } else if b[0] == 34 {
        Some((seq![], b.skip(1)))
    } else if b[0] == 92 {
        if b.len() < 2 {
            None
        } else if b[1] == 34 || b[1] == 92 {
            match parse_jstring(b.skip(2)) {
                Some((v, rest)) => Some((seq![b[1]] + v, rest)),
                None => None,
            }
        } else if b[1] == 117 {
            if b.len() < 6 {
                None
            } else if b[2] == 48 && b[3] == 48 && (b[4] == 48 || b[4] == 49) && is_hex_digit(b[5])
            {
                match parse_jstring(b.skip(6)) {
                    Some((v, rest)) => Some(
                        (seq![(((b[4] - 48) * 16 + hex_val(b[5])) as u8)] + v, rest),
                    ),
                    None => None,
                }
            } else {
                None
            }
        } else {
            None
        }
    } else if b[0] < 32 {
        None
    } else {
        match parse_jstring(b.skip(1)) {
            Some((v, rest)) => Some((seq![b[0]] + v, rest)),
            None => None,
        }
    }
}

/// A quoted, escaped string.
pub open spec fn jstr_bytes(s: Seq<u8>) -> Seq<u8> {
    seq![34u8] + json_escape(s) + seq![34u8]
}

/// A comma-separated list of quoted strings, without the surrounding
/// brackets.
pub open spec fn perms_json_bytes(ps: Seq<Seq<u8>>) -> Seq<u8>
    decreases ps.len(),
{
    if ps.len() == 0 {
        seq![]
    } else if ps.len() == 1 {
        jstr_bytes(ps[0])
    } else {
        jstr_bytes(ps[0]) + seq![44u8] + perms_json_bytes(ps.skip(1))
    }
}

/// Read a comma-separated list of quoted strings, stopping (without
/// consuming) at the closing bracket.
pub open spec fn parse_perms(b: Seq<u8>) -> Option<(Seq<Seq<u8>>, Seq<u8>)>
    decreases b.len(),
{
    if b.len() == 0 {
        None
    } else if b[0] == 93 {
        Some((seq![], b))
    } else if b[0] == 34 {
        match parse_jstring(b.skip(1)) {
            None => None,
            Some((s, rest)) => if rest.len() >= b.len() {
                None
            } else if rest.len() > 0 && rest[0] == 44 {
                match parse_perms(rest.skip(1)) {
                    None => None,
                    Some((tail, rest2)) => Some((seq![s] + tail, rest2)),
                }
            } else {
                Some((seq![s], rest))
            },
        }
    } else {
        None
    }
}

/// The decimal digits of a number, most significant first.
pub open spec fn dec_digits(n: nat) -> Seq<u8>
    decreases n,
{
    if n < 10 {
        seq![(48 + n) as u8]
    } else {
        dec_digits(n / 10) + seq![(48 + n % 10) as u8]
    }
}

/// Read digits greedily, folding them onto an accumulator.
pub open spec fn parse_digits_rec(b: Seq<u8>, acc: int) -> (int, Seq<u8>)
    decreases b.len(),
{
    if b.len() > 0 && 48 <= b[0] <= 57 {
        parse_digits_rec(b.skip(1), acc * 10 + (b[0] - 48))
    } else {
        (acc, b)
    }
}

/// Read a canonical nonnegative decimal number: at least one digit, no
/// leading zero, value within `i64`.
pub open spec fn parse_number(b: Seq<u8>) -> Option<(int, Seq<u8>)> {
    if b.len() == 0 || !(48 <= b[0] <= 57) {
        None
    } else if b[0] == 48 && b.len() >= 2 && 48 <= b[1] <= 57 {
        None
    } else {
        let folded = parse_digits_rec(b, 0);
        if folded.0 <= i64::MAX {
            Some(folded)
        } else {
            None
        }
    }
}

/// `{"username":"`
pub open spec fn lit_user_open() -> Seq<u8> {
    seq![123u8, 34u8, 117u8, 115u8, 101u8, 114u8, 110u8, 97u8, 109u8, 101u8, 34u8, 58u8, 34u8]
}

/// `","permissions":[` — the quote closing the username, then the key.
pub open spec fn lit_perms_mid() -> Seq<u8> {
    seq![
        34u8,
        44u8,
        34u8,
        112u8,
        101u8,
        114u8,
        109u8,
        105u8,
        115u8,
        115u8,
        105u8,
        111u8,
        110u8,
        115u8,
        34u8,
        58u8,
        91u8,
    ]
}

/// `,"permissions":[` — what remains of [`lit_perms_mid`] once the string
/// parser has consumed the closing quote.
pub open spec fn lit_perms_tail() -> Seq<u8> {
    lit_perms_mid().skip(1)
}

/// `],"exp":`
pub open spec fn lit_exp_mid() -> Seq<u8> {
    seq![93u8, 44u8, 34u8, 101u8, 120u8, 112u8, 34u8, 58u8]
}

/// The whole canonical payload for the given username bytes, permission
/// byte strings and expiry.
pub open spec fn claims_json_bytes(ub: Seq<u8>, ps: Seq<Seq<u8>>, exp: int) -> Seq<u8>
    recommends
        exp >= 0,
{
    lit_user_open() + json_escape(ub) + lit_perms_mid() + perms_json_bytes(ps) + lit_exp_mid()
        + dec_digits(exp as nat) + seq![125u8]
}

/// The three fields read back from a payload.
pub struct ClaimsBytes {
    pub username: Seq<u8>,
    pub perms: Seq<Seq<u8>>,
    pub exp: int,
}

/// Strip an expected literal prefix.
pub open spec fn expect_lit(b: Seq<u8>, lit: Seq<u8>) -> Option<Seq<u8>> {
    if b.len() >= lit.len() && b.take(lit.len() as int) == lit {
        Some(b.skip(lit.len() as int))
    } else {
        None
    }
}

/// Read a whole canonical payload, or nothing if a single byte strays
/// from the canonical shape.
pub open spec fn parse_claims_json(b: Seq<u8>) -> Option<ClaimsBytes> {
    match expect_lit(b, lit_user_open()) {
        None => None,
        Some(r1) => match parse_jstring(r1) {
            None => None,
            Some((ub, r2)) => match expect_lit(r2, lit_perms_tail()) {
                None => None,
                Some(r3) => match parse_perms(r3) {
                    None => None,
                    Some((ps, r4)) => match expect_lit(r4, lit_exp_mid()) {
                        None => None,
                        Some(r5) => match parse_number(r5) {
                            None => None,
                            Some((n, r6)) => if r6 == seq![125u8] {
                                Some(ClaimsBytes { username: ub, perms: ps, exp: n })
                            } else {
                                None
                            },
                        },
                    },
                },
            },
        },
    }
}

/// Every hex digit reads back as the value it was written from.
proof fn lemma_hex_round_trip(v: u8)
    requires
        v < 16,
    ensures
        is_hex_digit(hex_digit(v)),
        hex_val(hex_digit(v)) == v,
{
}

/// Reading escaped content followed by a closing quote gives the original
/// content back, with everything after the quote untouched.
pub proof fn lemma_jstring_round_trip(t: Seq<u8>, rest: Seq<u8>)
    ensures
        parse_jstring(json_escape(t) + seq![34u8] + rest) == Some((t, rest)),
    decreases t.len(),
{
    let b = json_escape(t) + seq![34u8] + rest;
    if t.len() == 0 {
        assert(b[0] == 34);
        assert(b.skip(1) =~= rest);
    } else {
        let t0 = t[0];
        let tail_b = json_escape(t.drop_first()) + seq![34u8] + rest;
        assert(b =~= esc_byte(t0) + tail_b);
        lemma_jstring_round_trip(t.drop_first(), rest);
        if t0 == 34 {
            assert(b[0] == 92 && b[1] == 34);
            assert(b.skip(2) =~= tail_b);
            assert(seq![b[1]] + t.drop_first() =~= t);
        } else if t0 == 92 {
            assert(b[0] == 92 && b[1] == 92);
            assert(b.skip(2) =~= tail_b);
            assert(seq![b[1]] + t.drop_first() =~= t);
        } else if t0 < 32 {
            assert((t0 >> 4) < 2 && (t0 & 15) < 16) by (bit_vector)
                requires
                    t0 < 32,
            ;
            lemma_hex_round_trip(t0 & 15);
            assert(b[0] == 92 && b[1] == 117 && b[2] == 48 && b[3] == 48);
            assert(b[4] == hex_digit(t0 >> 4) && b[5] == hex_digit(t0 & 15));
            assert(b[4] == 48 + (t0 >> 4));
            assert(b.len() >= 6);
            assert(b.skip(6) =~= tail_b);
            assert(((t0 >> 4) * 16 + (t0 & 15)) == t0) by (bit_vector)
                requires
                    t0 < 32,
            ;
            assert((((b[4] - 48) * 16 + hex_val(b[5])) as u8) == t0);
            assert(seq![t0] + t.drop_first() =~= t);
        } else {
            assert(b[0] == t0);
            assert(!(b[0] == 34) && !(b[0] == 92) && !(b[0] < 32));
            assert(b.skip(1) =~= tail_b);
            assert(seq![b[0]] + t.drop_first() =~= t);
        }
    }
}

/// Reading a written permission list, up to the closing bracket that
/// follows it, gives the original list back.
pub proof fn lemma_perms_round_trip(ps: Seq<Seq<u8>>, rest: Seq<u8>)
    requires
        rest.len() > 0,
        rest[0] == 93,
    ensures
        parse_perms(perms_json_bytes(ps) + rest) == Some((ps, rest)),
    decreases ps.len(),
{
    let b = perms_json_bytes(ps) + rest;
    if ps.len() == 0 {
        assert(b =~= rest);
        assert(parse_perms(b) == Some((Seq::<Seq<u8>>::empty(), b)));
        assert(Seq::<Seq<u8>>::empty() =~= ps);
    } else if ps.len() == 1 {
        assert(b[0] == 34);
        assert(b.skip(1) =~= json_escape(ps[0]) + seq![34u8] + rest);
        lemma_jstring_round_trip(ps[0], rest);
        assert(rest.len() < b.len());
        assert(rest[0] != 44);
        assert(seq![ps[0]] =~= ps);
    } else {
        let rest1 = seq![44u8] + perms_json_bytes(ps.skip(1)) + rest;
        assert(b[0] == 34);
        assert(b.skip(1) =~= json_escape(ps[0]) + seq![34u8] + rest1);
        lemma_jstring_round_trip(ps[0], rest1);
        assert(rest1.len() < b.len());
        assert(rest1[0] == 44);
        assert(rest1.skip(1) =~= perms_json_bytes(ps.skip(1)) + rest);
        lemma_perms_round_trip(ps.skip(1), rest);
        assert(seq![ps[0]] + ps.skip(1) =~= ps);
    }
}

/// Ten to the power of the digit count, for relating the fold of a parse
/// to the number it spells.
pub open spec fn pow10(k: nat) -> nat
    decreases k,
{
    if k == 0 {
        1nat
    } else {
        10 * pow10((k - 1) as nat)
    }
}

/// Folding the digits of `n` onto an accumulator scales the accumulator
/// past those digits and lands on `n`.
proof fn lemma_parse_digits_prepend(n: nat, rest: Seq<u8>, acc: int)
    ensures
        parse_digits_rec(dec_digits(n) + rest, acc) == parse_digits_rec(
            rest,
            acc * pow10(dec_digits(n).len()) + n,
        ),
    decreases n,
{
    vstd::arithmetic::div_mod::lemma_fundamental_div_mod(n as int, 10);
    if n < 10 {
        let b = dec_digits(n) + rest;
        assert(b[0] == 48 + n);
        assert(b.skip(1) =~= rest);
        assert(dec_digits(n).len() == 1);
        assert(pow10(0) == 1);
        assert(pow10(1) == 10);
    } else {
        let d = (48 + n % 10) as u8;
        let l1 = dec_digits(n / 10).len();
        assert(dec_digits(n) + rest =~= dec_digits(n / 10) + (seq![d] + rest));
        lemma_parse_digits_prepend(n / 10, seq![d] + rest, acc);
        let acc2 = acc * pow10(l1) + n / 10;
        assert((seq![d] + rest)[0] == d);
        assert(48 <= d <= 57);
        assert((seq![d] + rest).skip(1) =~= rest);
        assert(parse_digits_rec(seq![d] + rest, acc2) == parse_digits_rec(
            rest,
            acc2 * 10 + (d - 48),
        ));
        assert(dec_digits(n).len() == l1 + 1);
        assert(pow10((l1 + 1) as nat) == 10 * pow10(l1));
        assert(acc2 * 10 + (n % 10) == acc * (10 * pow10(l1)) + n) by (nonlinear_arith)
            requires
                acc2 == acc * pow10(l1) + n / 10,
                n == 10 * (n / 10) + n % 10,
        ;
    }
}

/// The digit string of a number is nonempty, starts with a digit, and
/// starts with `0` only for zero itself.
proof fn lemma_dec_digits_first(n: nat)
    ensures
        dec_digits(n).len() >= 1,
        48 <= dec_digits(n)[0] <= 57,
        n >= 1 ==> dec_digits(n)[0] != 48,
    decreases n,
{
    if n >= 10 {
        lemma_dec_digits_first(n / 10);
        assert(dec_digits(n)[0] == dec_digits(n / 10)[0]);
    }
}

/// Folding digits never shrinks a nonnegative accumulator.
proof fn lemma_parse_digits_lower(b: Seq<u8>, acc: int)
    requires
        acc >= 0,
    ensures
        parse_digits_rec(b, acc).0 >= acc,
    decreases b.len(),
{
    if b.len() > 0 && 48 <= b[0] <= 57 {
        lemma_parse_digits_lower(b.skip(1), acc * 10 + (b[0] - 48));
    }
}

/// Reading the written digits of a number, followed by anything that is
/// not a digit, gives the number back.
pub proof fn lemma_number_round_trip(n: nat, rest: Seq<u8>)
    requires
        n <= i64::MAX,
        rest.len() == 0 || !(48 <= rest[0] <= 57),
    ensures
        parse_number(dec_digits(n) + rest) == Some(((n as int), rest)),
{
    let b = dec_digits(n) + rest;
    lemma_dec_digits_first(n);
    assert(b[0] == dec_digits(n)[0]);
    if b[0] == 48 {
        assert(n == 0);
        assert(dec_digits(0) =~= seq![48u8]);
        if b.len() >= 2 {
            assert(b[1] == rest[0]);
        }
    }
    lemma_parse_digits_prepend(n, rest, 0);
    assert(0 * pow10(dec_digits(n).len()) + n == n) by (nonlinear_arith);
    assert(parse_digits_rec(rest, n as int) == ((n as int), rest));
}

/// Reading a written payload gives the original fields back.
pub proof fn lemma_claims_round_trip(ub: Seq<u8>, ps: Seq<Seq<u8>>, exp: int)
    requires
        0 <= exp <= i64::MAX,
    ensures
        parse_claims_json(claims_json_bytes(ub, ps, exp)) == Some(
            ClaimsBytes { username: ub, perms: ps, exp },
        ),
{
    let b = claims_json_bytes(ub, ps, exp);
    let jd = json_escape(ub);
    let pj = perms_json_bytes(ps);
    let dd = dec_digits(exp as nat);
    let r1 = jd + lit_perms_mid() + pj + lit_exp_mid() + dd + seq![125u8];
    assert(b.len() >= lit_user_open().len());
    assert(b.take(lit_user_open().len() as int) =~= lit_user_open());
    assert(b.skip(lit_user_open().len() as int) =~= r1);
    let r2 = lit_perms_tail() + pj + lit_exp_mid() + dd + seq![125u8];
    assert(r1 =~= jd + seq![34u8] + r2);
    lemma_jstring_round_trip(ub, r2);
    let r3 = pj + lit_exp_mid() + dd + seq![125u8];
    assert(r2.len() >= lit_perms_tail().len());
    assert(r2.take(lit_perms_tail().len() as int) =~= lit_perms_tail());
    assert(r2.skip(lit_perms_tail().len() as int) =~= r3);
    let r4 = lit_exp_mid() + dd + seq![125u8];
    assert(r3 =~= pj + r4);
    assert(r4[0] == 93);
    lemma_perms_round_trip(ps, r4);
    let r5 = dd + seq![125u8];
    assert(r4.len() >= lit_exp_mid().len());
    assert(r4.take(lit_exp_mid().len() as int) =~= lit_exp_mid());
    assert(r4.skip(lit_exp_mid().len() as int) =~= r5);
    lemma_number_round_trip(exp as nat, seq![125u8]);
    assert(r5 == dd + seq![125u8]);
}

/// The UTF-8 bytes of each string in a sequence.
pub open spec fn strs_bytes(ss: Seq<String>) -> Seq<Seq<u8>> {
    ss.map_values(|s: String| vstd::utf8::encode_utf8(s@))
}

/// The contents of each byte vector in a sequence.
pub open spec fn vecs_views(vs: Seq<Vec<u8>>) -> Seq<Seq<u8>> {
    vs.map_values(|v: Vec<u8>| v@)
}

/// The lowercase hex digit for a four-bit value.
fn hex_digit_of(v: u8) -> (c: u8)
    requires
        v < 16,
    ensures
        c == hex_digit(v),
{
    if v < 10 {
        48 + v
    } else {
        87 + v
    }
}

/// Append the escaped form of string content.
pub fn write_escaped(s: &[u8], out: &mut Vec<u8>)
    ensures
        final(out)@ == old(out)@ + json_escape(s@),
    decreases s@.len(),
{
    if s.len() == 0 {
        proof {
            assert(out@ =~= old(out)@ + json_escape(s@));
        }
    } else {
        let b = s[0];
        if b == 34 {
            out.push(92);
            out.push(34);
        } else if b == 92 {
            out.push(92);
            out.push(92);
        } else if b < 32 {
            out.push(92);
            out.push(117);
            out.push(48);
            out.push(48);
            proof {
                assert((b >> 4) < 16 && (b & 15) < 16) by (bit_vector);
            }
            out.push(hex_digit_of(b >> 4));
            out.push(hex_digit_of(b & 15));
        } else {
            out.push(b);
        }
        proof {
            assert(out@ =~= old(out)@ + esc_byte(s@[0]));
        }
        write_escaped(&s[1..s.len()], out);
        proof {
            assert(s@.subrange(1, s@.len() as int) =~= s@.drop_first());
            assert(out@ =~= old(out)@ + json_escape(s@));
        }
    }
}

/// Append the decimal digits of a number, most significant first.
pub fn write_dec(n: u64, out: &mut Vec<u8>)
    ensures
        final(out)@ == old(out)@ + dec_digits(n as nat),
    decreases n,
{
    if n < 10 {
        out.push(48 + (n as u8));
        proof {
            assert(out@ =~= old(out)@ + dec_digits(n as nat));
        }
    } else {
        write_dec(n / 10, out);
        out.push(48 + ((n % 10) as u8));
        proof {
            assert(out@ =~= old(out)@ + dec_digits(n as nat));
        }
    }
}

/// Append the comma-separated quoted permission strings.
fn write_perms(perms: &[String], out: &mut Vec<u8>)
    ensures
        final(out)@ == old(out)@ + perms_json_bytes(strs_bytes(perms@)),
    decreases perms@.len(),
{
    if perms.len() == 0 {
        proof {
            assert(out@ =~= old(out)@ + perms_json_bytes(strs_bytes(perms@)));
        }
    } else {
        out.push(34);
        write_escaped(perms[0].as_str().as_bytes(), out);
        out.push(34);
        proof {
            assert(strs_bytes(perms@)[0] == vstd::utf8::encode_utf8(perms@[0]@));
            assert(out@ =~= old(out)@ + jstr_bytes(strs_bytes(perms@)[0]));
        }
        if perms.len() >= 2 {
            out.push(44);
            write_perms(&perms[1..perms.len()], out);
            proof {
                assert(perms@.subrange(1, perms@.len() as int) =~= perms@.skip(1));
                assert(strs_bytes(perms@.skip(1)) =~= strs_bytes(perms@).skip(1));
                assert(out@ =~= old(out)@ + perms_json_bytes(strs_bytes(perms@)));
            }
        } else {
            proof {
                assert(strs_bytes(perms@).len() == 1);
                assert(out@ =~= old(out)@ + perms_json_bytes(strs_bytes(perms@)));
            }
        }
    }
}

/// The literal `{"username":"`.
fn lit_user_open_vec() -> (r: Vec<u8>)
    ensures
        r@ == lit_user_open(),
{
    let mut v: Vec<u8> = Vec::new();
    v.push(123);
    v.push(34);
    v.push(117);
    v.push(115);
    v.push(101);
    v.push(114);
    v.push(110);
    v.push(97);
    v.push(109);
    v.push(101);
    v.push(34);
    v.push(58);
    v.push(34);
    proof {
        assert(v@ =~= lit_user_open());
    }
    v
}

/// The literal `","permissions":[`.
fn lit_perms_mid_vec() -> (r: Vec<u8>)
    ensures
        r@ == lit_perms_mid(),
{
    let mut v: Vec<u8> = Vec::new();
    v.push(34);
    v.push(44);
    v.push(34);
    v.push(112);
    v.push(101);
    v.push(114);
    v.push(109);
    v.push(105);
    v.push(115);
    v.push(115);
    v.push(105);
    v.push(111);
    v.push(110);
    v.push(115);
    v.push(34);
    v.push(58);
    v.push(91);
    proof {
        assert(v@ =~= lit_perms_mid());
    }
    v
}

/// The literal `],"exp":`.
fn lit_exp_mid_vec() -> (r: Vec<u8>)
    ensures
        r@ == lit_exp_mid(),
{
    let mut v: Vec<u8> = Vec::new();
    v.push(93);
    v.push(44);
    v.push(34);
    v.push(101);
    v.push(120);
    v.push(112);
    v.push(34);
    v.push(58);
    proof {
        assert(v@ =~= lit_exp_mid());
    }
    v
}

/// Write the whole canonical payload for the given field values.
pub fn write_claims_json(username: &str, perms: &Vec<String>, exp: u64) -> (r: Vec<u8>)
    ensures
        r@ == claims_json_bytes(
            vstd::utf8::encode_utf8(username@),
            strs_bytes(perms@),
            exp as int,
        ),
{
    let mut out = lit_user_open_vec();
    write_escaped(username.as_bytes(), &mut out);
    let mut mid = lit_perms_mid_vec();
    out.append(&mut mid);
    write_perms(perms.as_slice(), &mut out);
    let mut emid = lit_exp_mid_vec();
    out.append(&mut emid);
    write_dec(exp, &mut out);
    out.push(125);
    proof {
        assert(out@ =~= claims_json_bytes(
            vstd::utf8::encode_utf8(username@),
            strs_bytes(perms@),
            exp as int,
        ));
    }
    out
}

/// Read string content from position `i`, mirroring [`parse_jstring`] on
/// the remaining bytes.
fn parse_jstring_at(s: &[u8], i: usize) -> (r: Option<(Vec<u8>, usize)>)
    requires
        i <= s@.len(),
    ensures
        r matches Some(p) ==> i < p.1 <= s@.len() && parse_jstring(s@.skip(i as int)) == Some(
            (p.0@, s@.skip(p.1 as int)),
        ),
        r is None ==> parse_jstring(s@.skip(i as int)) is None,
    decreases s@.len() - i,
{
    let ghost tail = s@.skip(i as int);
    if i == s.len() {
        return None;
    }
    let b = s[i];
    proof {
        assert(tail[0] == b);
    }
    if b == 34 {
        proof {
            assert(tail.skip(1) =~= s@.skip(i as int + 1));
        }
        Some((Vec::new(), i + 1))
    } else if b == 92 {
        if i + 1 == s.len() {
            return None;
        }
        let e = s[i + 1];
        proof {
            assert(tail[1] == e);
        }
        if e == 34 || e == 92 {
            proof {
                assert(tail.skip(2) =~= s@.skip(i as int + 2));
            }
            match parse_jstring_at(s, i + 2) {
                None => None,
                Some((mut v, j)) => {
                    v.insert(0, e);
                    proof {
                        assert(v@ =~= seq![tail[1]] + v@.skip(1));
                    }
                    Some((v, j))
                },
            }
        } else if e == 117 {
            if s.len() - i < 6 {
                return None;
            }
            let h2 = s[i + 2];
            let h3 = s[i + 3];
            let h4 = s[i + 4];
            let h5 = s[i + 5];
            proof {
                assert(tail[2] == h2 && tail[3] == h3 && tail[4] == h4 && tail[5] == h5);
            }
            if h2 == 48 && h3 == 48 && (h4 == 48 || h4 == 49) && ((48 <= h5 && h5 <= 57) || (97
                <= h5 && h5 <= 102)) {
                let hv: u8 = if h5 <= 57 {
                    h5 - 48
                } else {
                    h5 - 87
                };
                let val: u8 = (h4 - 48) * 16 + hv;
                proof {
                    assert(hv == hex_val(tail[5]));
                    assert(val == (((tail[4] - 48) * 16 + hex_val(tail[5])) as u8));
                    assert(tail.skip(6) =~= s@.skip(i as int + 6));
                }
                match parse_jstring_at(s, i + 6) {
                    None => None,
                    Some((mut v, j)) => {
                        v.insert(0, val);
                        proof {
                            assert(v@ =~= seq![(((tail[4] - 48) * 16 + hex_val(tail[5])) as u8)]
                                + v@.skip(1));
                        }
                        Some((v, j))
                    },
                }
            } else {
                None
            }
        } else {
            None
        }
    } else if b < 32 {
        None
    } else {
        proof {
            assert(tail.skip(1) =~= s@.skip(i as int + 1));
        }
        match parse_jstring_at(s, i + 1) {
            None => None,
            Some((mut v, j)) => {
                v.insert(0, b);
                proof {
                    assert(v@ =~= seq![tail[0]] + v@.skip(1));
                }
                Some((v, j))
            },
        }
    }
}

/// Read the permission list from position `i`, mirroring [`parse_perms`].
fn parse_perms_at(s: &[u8], i: usize) -> (r: Option<(Vec<Vec<u8>>, usize)>)
    requires
        i <= s@.len(),
    ensures
        r matches Some(p) ==> i <= p.1 <= s@.len() && parse_perms(s@.skip(i as int)) == Some(
            (vecs_views(p.0@), s@.skip(p.1 as int)),
        ),
        r is None ==> parse_perms(s@.skip(i as int)) is None,
    decreases s@.len() - i,
{
    let ghost tail = s@.skip(i as int);
    if i == s.len() {
        return None;
    }
    let b = s[i];
    proof {
        assert(tail[0] == b);
    }
    if b == 93 {
        proof {
            assert(vecs_views(Seq::<Vec<u8>>::empty()) =~= Seq::<Seq<u8>>::empty());
        }
        return Some((Vec::new(), i));
    }
    if b != 34 {
        return None;
    }
    proof {
        assert(tail.skip(1) =~= s@.skip(i as int + 1));
    }
    match parse_jstring_at(s, i + 1) {
        None => None,
        Some((sv, j2)) => {
            let ghost rest = s@.skip(j2 as int);
            proof {
                assert(rest.len() < tail.len());
            }
            if j2 < s.len() && s[j2] == 44 {
                proof {
                    assert(rest[0] == s@[j2 as int]);
                    assert(rest.skip(1) =~= s@.skip(j2 as int + 1));
                }
                match parse_perms_at(s, j2 + 1) {
                    None => None,
                    Some((mut vs, j3)) => {
                        vs.insert(0, sv);
                        proof {
                            assert(vecs_views(vs@) =~= seq![vs@[0]@] + vecs_views(vs@.skip(1)));
                        }
                        Some((vs, j3))
                    },
                }
            } else {
                proof {
                    if j2 < s.len() {
                        assert(rest[0] == s@[j2 as int]);
                    }
                }
                let mut vs: Vec<Vec<u8>> = Vec::new();
                vs.push(sv);
                proof {
                    assert(vecs_views(vs@) =~= seq![vs@[0]@]);
                }
                Some((vs, j2))
            }
        },
    }
}

/// Fold digits from position `i` onto the accumulator, stopping at the
/// first non-digit; fails once the value can no longer fit an `i64`.
fn parse_digits_at(s: &[u8], i: usize, acc: u64) -> (r: Option<(u64, usize)>)
    requires
        i <= s@.len(),
        acc <= 0x7fff_ffff_ffff_ffff,
    ensures
        r matches Some(p) ==> i <= p.1 <= s@.len() && p.0 <= 0x7fff_ffff_ffff_ffff
            && parse_digits_rec(s@.skip(i as int), acc as int) == ((p.0 as int), s@.skip(
            p.1 as int,
        )),
        r matches Some(p) ==> ((i < s@.len() && 48 <= s@[i as int] <= 57) ==> p.1 > i),
        r is None ==> parse_digits_rec(s@.skip(i as int), acc as int).0 > 0x7fff_ffff_ffff_ffff,
    decreases s@.len() - i,
{
    let ghost tail = s@.skip(i as int);
    if i == s.len() {
        return Some((acc, i));
    }
    let b = s[i];
    proof {
        assert(tail[0] == b);
    }
    if b < 48 || b > 57 {
        return Some((acc, i));
    }
    let d = (b - 48) as u64;
    let limit: u64 = (0x7fff_ffff_ffff_ffffu64 - d) / 10;
    proof {
        assert(tail.skip(1) =~= s@.skip(i as int + 1));
        vstd::arithmetic::div_mod::lemma_fundamental_div_mod(
            0x7fff_ffff_ffff_ffff - (d as int),
            10,
        );
    }
    if acc > limit {
        proof {
            assert((acc as int) * 10 + (d as int) > 0x7fff_ffff_ffff_ffff);
            lemma_parse_digits_lower(s@.skip(i as int + 1), (acc as int) * 10 + (d as int));
        }
        None
    } else {
        proof {
            assert((acc as int) * 10 + (d as int) <= 0x7fff_ffff_ffff_ffff);
        }
        let r = parse_digits_at(s, i + 1, acc * 10 + d);
        proof {
            assert(parse_digits_rec(tail, acc as int) == parse_digits_rec(
                tail.skip(1),
                (acc as int) * 10 + (d as int),
            ));
        }
        match r {
            None => None,
            Some((n, j)) => Some((n, j)),
        }
    }
}

/// Read a canonical number from position `i`, mirroring [`parse_number`].
fn parse_number_at(s: &[u8], i: usize) -> (r: Option<(i64, usize)>)
    requires
        i <= s@.len(),
    ensures
        r matches Some(p) ==> i < p.1 <= s@.len() && p.0 >= 0 && parse_number(s@.skip(i as int))
            == Some(((p.0 as int), s@.skip(p.1 as int))),
        r is None ==> parse_number(s@.skip(i as int)) is None,
{
    let ghost tail = s@.skip(i as int);
    if i == s.len() {
        return None;
    }
    let b = s[i];
    proof {
        assert(tail[0] == b);
    }
    if b < 48 || b > 57 {
        return None;
    }
    if b == 48 && i + 1 < s.len() && 48 <= s[i + 1] && s[i + 1] <= 57 {
        proof {
            assert(tail[1] == s@[i as int + 1]);
        }
        return None;
    }
    proof {
        if tail.len() >= 2 {
            assert(tail[1] == s@[i as int + 1]);
        }
    }
    match parse_digits_at(s, i, 0) {
        None => None,
        Some((n, j)) => Some((n as i64, j)),
    }
}

/// Read a whole canonical payload: the username bytes, the permission
/// byte strings, and the expiry.
pub fn parse_claims_bytes(s: &[u8]) -> (r: Option<(Vec<u8>, Vec<Vec<u8>>, i64)>)
    ensures
        r matches Some(p) ==> p.2 >= 0 && parse_claims_json(s@) == Some(
            ClaimsBytes { username: p.0@, perms: vecs_views(p.1@), exp: p.2 as int },
        ),
        r is None ==> parse_claims_json(s@) is None,
{
    let l1 = lit_user_open_vec();
    proof {
        assert(s@.skip(0) =~= s@);
    }
    let j1 = match eat_lit(s, 0, &l1) {
        None => {
            return None;
        },
        Some(j) => j,
    };
    let (ub, j2) = match parse_jstring_at(s, j1) {
        None => {
            return None;
        },
        Some(p) => p,
    };
    let mut l2 = lit_perms_mid_vec();
    l2.remove(0);
    proof {
        assert(l2@ =~= lit_perms_tail());
    }
    let j3 = match eat_lit(s, j2, &l2) {
        None => {
            return None;
        },
        Some(j) => j,
    };
    let (ps, j4) = match parse_perms_at(s, j3) {
        None => {
            return None;
        },
        Some(p) => p,
    };
    let l3 = lit_exp_mid_vec();
    let j5 = match eat_lit(s, j4, &l3) {
        None => {
            return None;
        },
        Some(j) => j,
    };
    let (n, j6) = match parse_number_at(s, j5) {
        None => {
            return None;
        },
        Some(p) => p,
    };
    if j6 < s.len() && s[j6] == 125 && j6 + 1 == s.len() {
        proof {
            assert(s@.skip(j6 as int) =~= seq![125u8]);
        }
        Some((ub, ps, n))
    } else {
        proof {
            let r6 = s@.skip(j6 as int);
            assert(r6.len() == s@.len() - j6);
            if j6 == s@.len() {
                assert(r6.len() != seq![125u8].len());
            } else if s@[j6 as int] != 125 {
                assert(r6[0] == s@[j6 as int]);
                assert(r6[0] != seq![125u8][0]);
            } else {
                assert(j6 + 1 < s@.len());
                assert(r6.len() != seq![125u8].len());
            }
            assert(r6 != seq![125u8]);
        }
        None
    }
}

/// Strip an expected literal at position `i`, giving the position after it.
fn eat_lit(s: &[u8], i: usize, lit: &Vec<u8>) -> (r: Option<usize>)
    requires
        i <= s@.len(),
    ensures
        r matches Some(j) ==> i <= j <= s@.len() && expect_lit(s@.skip(i as int), lit@) == Some(
            s@.skip(j as int),
        ),
        r is None ==> expect_lit(s@.skip(i as int), lit@) is None,
{
    let ghost tail = s@.skip(i as int);
    let n: usize = s.len();
    if n - i < lit.len() {
        return None;
    }
    let mut k: usize = 0;
    while k < lit.len()
        invariant
            n == s@.len(),
            i + lit@.len() <= n,
            0 <= k <= lit@.len(),
            forall|m: int| 0 <= m < k ==> s@[i + m] == lit@[m],
        decreases lit@.len() - k,
    {
        if s[i + k] != lit[k] {
            proof {
                assert(s@.skip(i as int).take(lit@.len() as int)[k as int] == s@[i + k]);
            }
            return None;
        }
        k = k + 1;
    }
    proof {
        assert(s@.skip(i as int).take(lit@.len() as int) =~= lit@);
    }
    Some(i + lit.len())
}

} // verus!
