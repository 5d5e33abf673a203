//! Unpadded base64url coding of byte strings, the alphabet used by the
//! compact token framing: `A`-`Z`, `a`-`z`, `0`-`9`, `-`, `_`, no `=` padding.

use vstd::prelude::*;

verus! {

/// True of the bytes that can appear in an unpadded base64url encoding.
pub open spec fn is_b64_byte(c: u8) -> bool {
    (65 <= c <= 90) || (97 <= c <= 122) || (48 <= c <= 57) || c == 45 || c == 95
}

/// The alphabet byte that stands for a six-bit value.
pub open spec fn b64_char(v: u8) -> u8
    recommends
        v < 64,
{
    if v < 26 {
        (v + 65) as u8
    } else if v < 52 {
        (v + 71) as u8
    } else if v < 62 {
        (v - 4) as u8
    } else if v == 62 {
        45u8
    } else {
        95u8
    }
}

/// The six-bit value that an alphabet byte stands for.
pub open spec fn b64_val(c: u8) -> u8
    recommends
        is_b64_byte(c),
{
    if 65 <= c <= 90 {
        (c - 65) as u8
    } else if 97 <= c <= 122 {
        (c - 71) as u8
    } else if 48 <= c <= 57 {
        (c + 4) as u8
    } else if c == 45 {
        62u8
    } else {
        63u8
    }
}

/// The four alphabet bytes that encode a full three-byte group.
pub open spec fn b64_encode3(b0: u8, b1: u8, b2: u8) -> Seq<u8> {
    seq![
        b64_char(b0 >> 2),
        b64_char(((b0 & 3) << 4) | (b1 >> 4)),
        b64_char(((b1 & 15) << 2) | (b2 >> 6)),
        b64_char(b2 & 63),
    ]
}

/// The unpadded base64url encoding of a byte string: full groups of three
/// bytes become four alphabet bytes; a final group of one or two bytes
/// becomes two or three, with the unused low bits zero.
pub open spec fn b64_encode_spec(s: Seq<u8>) -> Seq<u8>
    decreases s.len(),
{
    if s.len() >= 3 {
        b64_encode3(s[0], s[1], s[2]) + b64_encode_spec(s.skip(3))
    } else if s.len() == 2 {
        seq![
            b64_char(s[0] >> 2),
            b64_char(((s[0] & 3) << 4) | (s[1] >> 4)),
            b64_char((s[1] & 15) << 2),
        ]
    } else if s.len() == 1 {
        seq![b64_char(s[0] >> 2), b64_char((s[0] & 3) << 4)]
    } else {
        seq![]
    }
}

/// True of the byte strings that the decoder accepts: every byte from the
/// alphabet, and a length that no encoding misses (one more than a multiple
/// of four never occurs).
pub open spec fn b64_valid(s: Seq<u8>) -> bool {
    s.len() % 4 != 1 && (forall|i: int| 0 <= i < s.len() ==> is_b64_byte(#[trigger] s[i]))
}

/// The three bytes read back from a full four-byte group.
pub open spec fn b64_decode3(c0: u8, c1: u8, c2: u8, c3: u8) -> Seq<u8> {
    let v0 = b64_val(c0);
    let v1 = b64_val(c1);
    let v2 = b64_val(c2);
    let v3 = b64_val(c3);
    seq![(v0 << 2) | (v1 >> 4), ((v1 & 15) << 4) | (v2 >> 2), ((v2 & 3) << 6) | v3]
}

/// The bytes read back from an encoding, meaningful on inputs that satisfy
/// [`b64_valid`]; trailing bits beyond the encoded bytes are dropped.
pub open spec fn b64_decode_raw(s: Seq<u8>) -> Seq<u8>
    decreases s.len(),
{
    if s.len() >= 4 {
        b64_decode3(s[0], s[1], s[2], s[3]) + b64_decode_raw(s.skip(4))
    } else if s.len() == 3 {
        let v0 = b64_val(s[0]);
        let v1 = b64_val(s[1]);
        let v2 = b64_val(s[2]);
        seq![(v0 << 2) | (v1 >> 4), ((v1 & 15) << 4) | (v2 >> 2)]
    } else if s.len() == 2 {
        let v0 = b64_val(s[0]);
        let v1 = b64_val(s[1]);
        seq![(v0 << 2) | (v1 >> 4)]
    } else {
        seq![]
    }
}

/// Every alphabet byte stands for the six-bit value it encodes, and the
/// alphabet contains neither a dot nor any byte outside ASCII.
pub proof fn lemma_b64_char_val(v: u8)
    requires
        v < 64,
    ensures
        is_b64_byte(b64_char(v)),
        b64_val(b64_char(v)) == v,
        b64_char(v) != 46,
        b64_char(v) < 128,
{
}

/// The six-bit pieces of a three-byte group are in range and reassemble to
/// the original bytes.
proof fn lemma_b64_bits3(b0: u8, b1: u8, b2: u8)
    ensures
        (b0 >> 2) < 64,
        (((b0 & 3) << 4) | (b1 >> 4)) < 64,
        (((b1 & 15) << 2) | (b2 >> 6)) < 64,
        (b2 & 63) < 64,
        ((b0 & 3) << 4) < 64,
        ((b1 & 15) << 2) < 64,
        ((b0 >> 2) << 2) | ((((b0 & 3) << 4) | (b1 >> 4)) >> 4) == b0,
        (((((b0 & 3) << 4) | (b1 >> 4)) & 15) << 4) | (((((b1 & 15) << 2) | (b2 >> 6))) >> 2)
            == b1,
        ((((((b1 & 15) << 2) | (b2 >> 6))) & 3) << 6) | (b2 & 63) == b2,
        (((((b0 & 3) << 4) | (b1 >> 4)) & 15) << 4) | (((b1 & 15) << 2) >> 2) == b1,
{
    assert((b0 >> 2) < 64 && (((b0 & 3) << 4) | (b1 >> 4)) < 64 && (((b1 & 15) << 2) | (b2 >> 6))
        < 64 && (b2 & 63) < 64 && ((b0 & 3) << 4) < 64 && ((b1 & 15) << 2) < 64) by (bit_vector);
    assert(((b0 >> 2) << 2) | ((((b0 & 3) << 4) | (b1 >> 4)) >> 4) == b0) by (bit_vector);
    assert((((((b0 & 3) << 4) | (b1 >> 4)) & 15) << 4) | (((((b1 & 15) << 2) | (b2 >> 6))) >> 2)
        == b1) by (bit_vector);
    assert(((((((b1 & 15) << 2) | (b2 >> 6))) & 3) << 6) | (b2 & 63) == b2) by (bit_vector);
    assert((((((b0 & 3) << 4) | (b1 >> 4)) & 15) << 4) | (((b1 & 15) << 2) >> 2) == b1)
        by (bit_vector);
}

/// Decoding an encoding gives the original bytes back, and every encoding
/// is a byte string the decoder accepts.
pub proof fn lemma_b64_round_trip(s: Seq<u8>)
    ensures
        b64_valid(b64_encode_spec(s)),
        b64_decode_raw(b64_encode_spec(s)) == s,
    decreases s.len(),
{
    let e = b64_encode_spec(s);
    if s.len() >= 3 {
        lemma_b64_bits3(s[0], s[1], s[2]);
        lemma_b64_char_val(s[0] >> 2);
        lemma_b64_char_val(((s[0] & 3) << 4) | (s[1] >> 4));
        lemma_b64_char_val(((s[1] & 15) << 2) | (s[2] >> 6));
        lemma_b64_char_val(s[2] & 63);
        lemma_b64_round_trip(s.skip(3));
        let rest = b64_encode_spec(s.skip(3));
        assert(e =~= b64_encode3(s[0], s[1], s[2]) + rest);
        assert(e.len() % 4 != 1) by {
            assert(rest.len() % 4 != 1);
            assert(e.len() == rest.len() + 4);
        }
        assert forall|i: int| 0 <= i < e.len() implies is_b64_byte(#[trigger] e[i]) by {
            if i >= 4 {
                assert(e[i] == rest[i - 4]);
            }
        }
        assert(e.skip(4) =~= rest);
        assert(b64_decode3(e[0], e[1], e[2], e[3]) =~= seq![s[0], s[1], s[2]]);
        assert(b64_decode_raw(e) =~= s);
    } else if s.len() == 2 {
        lemma_b64_bits3(s[0], s[1], 0);
        lemma_b64_char_val(s[0] >> 2);
        lemma_b64_char_val(((s[0] & 3) << 4) | (s[1] >> 4));
        lemma_b64_char_val((s[1] & 15) << 2);
        assert(b64_decode_raw(e) =~= s);
    } else if s.len() == 1 {
        lemma_b64_bits3(s[0], 0, 0);
        lemma_b64_char_val(s[0] >> 2);
        lemma_b64_char_val((s[0] & 3) << 4);
        let b0 = s[0];
        assert((((b0 & 3) << 4) >> 4) == (b0 & 3)) by (bit_vector);
        assert(((b0 >> 2) << 2) | (b0 & 3) == b0) by (bit_vector);
        assert(b64_decode_raw(e) =~= s);
    } else {
        assert(b64_decode_raw(e) =~= s);
    }
}

/// No byte of an encoding is a dot, so a dot-separated frame can always be
/// split around encoded segments.
pub proof fn lemma_b64_encode_no_dot(s: Seq<u8>)
    ensures
        forall|i: int|
            0 <= i < b64_encode_spec(s).len() ==> #[trigger] b64_encode_spec(s)[i] != 46,
{
    lemma_b64_round_trip(s);
    assert forall|i: int|
        0 <= i < b64_encode_spec(s).len() implies #[trigger] b64_encode_spec(s)[i] != 46 by {
        assert(is_b64_byte(b64_encode_spec(s)[i]));
    }
}

/// The alphabet byte for a six-bit value.
fn b64_char_of(v: u8) -> (c: u8)
    requires
        v < 64,
    ensures
        c == b64_char(v),
{
    if v < 26 {
        v + 65
    } else if v < 52 {
        v + 71
    } else if v < 62 {
        v - 4
    } else if v == 62 {
        45
    } else {
        95
    }
}

/// The six-bit value of an alphabet byte, or `None` off the alphabet.
fn b64_val_of(c: u8) -> (r: Option<u8>)
    ensures
        match r {
            Some(v) => is_b64_byte(c) && v == b64_val(c),
            None => !is_b64_byte(c),
        },
{
    if 65 <= c && c <= 90 {
        Some(c - 65)
    } else if 97 <= c && c <= 122 {
        Some(c - 71)
    } else if 48 <= c && c <= 57 {
        Some(c + 4)
    } else if c == 45 {
        Some(62)
    } else if c == 95 {
        Some(63)
    } else {
        None
    }
}

fn b64_encode_rec(s: &[u8], out: &mut Vec<u8>)
    ensures
        final(out)@ == old(out)@ + b64_encode_spec(s@),
    decreases s@.len(),
{
    proof {
        if s@.len() >= 1 {
            lemma_b64_bits3(s@[0], if s@.len() >= 2 { s@[1] } else { 0 }, if s@.len() >= 3 { s@[2] } else { 0 });
        }
    }
    if s.len() >= 3 {
        out.push(b64_char_of(s[0] >> 2));
        out.push(b64_char_of(((s[0] & 3) << 4) | (s[1] >> 4)));
        out.push(b64_char_of(((s[1] & 15) << 2) | (s[2] >> 6)));
        out.push(b64_char_of(s[2] & 63));
        b64_encode_rec(&s[3..s.len()], out);
        proof {
            assert(s@.subrange(3, s@.len() as int) =~= s@.skip(3));
            assert(out@ =~= old(out)@ + b64_encode_spec(s@));
        }
    } else if s.len() == 2 {
        out.push(b64_char_of(s[0] >> 2));
        out.push(b64_char_of(((s[0] & 3) << 4) | (s[1] >> 4)));
        out.push(b64_char_of((s[1] & 15) << 2));
        proof {
            assert(out@ =~= old(out)@ + b64_encode_spec(s@));
        }
    } else if s.len() == 1 {
        out.push(b64_char_of(s[0] >> 2));
        out.push(b64_char_of((s[0] & 3) << 4));
        proof {
            assert(out@ =~= old(out)@ + b64_encode_spec(s@));
        }
    } else {
        proof {
            assert(out@ =~= old(out)@ + b64_encode_spec(s@));
        }
    }
}

/// Encode a byte string as unpadded base64url.
pub fn b64_encode(s: &[u8]) -> (r: Vec<u8>)
    ensures
        r@ == b64_encode_spec(s@),
{
    let mut out: Vec<u8> = Vec::new();
    b64_encode_rec(s, &mut out);
    proof {
        assert(out@ =~= b64_encode_spec(s@));
    }
    out
}

fn b64_decode_rec(s: &[u8], out: &mut Vec<u8>) -> (ok: bool)
    ensures
        ok == b64_valid(s@),
        ok ==> final(out)@ == old(out)@ + b64_decode_raw(s@),
    decreases s@.len(),
{
    if s.len() == 0 {
        proof {
            assert(out@ =~= old(out)@ + b64_decode_raw(s@));
        }
        true
    } else if s.len() == 1 {
        false
    } else if s.len() == 2 {
        match (b64_val_of(s[0]), b64_val_of(s[1])) {
            (Some(v0), Some(v1)) => {
                out.push((v0 << 2) | (v1 >> 4));
                proof {
                    assert(out@ =~= old(out)@ + b64_decode_raw(s@));
                }
                true
            },
            _ => false,
        }
    } else if s.len() == 3 {
        match (b64_val_of(s[0]), b64_val_of(s[1]), b64_val_of(s[2])) {
            (Some(v0), Some(v1), Some(v2)) => {
                out.push((v0 << 2) | (v1 >> 4));
                out.push(((v1 & 15) << 4) | (v2 >> 2));
                proof {
                    assert(out@ =~= old(out)@ + b64_decode_raw(s@));
                }
                true
            },
            _ => false,
        }
    } else {
        match (b64_val_of(s[0]), b64_val_of(s[1]), b64_val_of(s[2]), b64_val_of(s[3])) {
            (Some(v0), Some(v1), Some(v2), Some(v3)) => {
                out.push((v0 << 2) | (v1 >> 4));
                out.push(((v1 & 15) << 4) | (v2 >> 2));
                out.push(((v2 & 3) << 6) | v3);
                let ok = b64_decode_rec(&s[4..s.len()], out);
                proof {
                    assert(s@.subrange(4, s@.len() as int) =~= s@.skip(4));
                    if ok {
                        assert forall|i: int| 0 <= i < s@.len() implies is_b64_byte(
                            #[trigger] s@[i],
                        ) by {
                            if i >= 4 {
                                assert(is_b64_byte(s@.skip(4)[i - 4]));
                            }
                        }
                        assert(s@.len() % 4 == (s@.len() - 4) % 4);
                        assert(out@ =~= old(out)@ + b64_decode_raw(s@));
                    } else {
                        if b64_valid(s@) {
                            assert forall|i: int| 0 <= i < s@.skip(4).len() implies is_b64_byte(
                                #[trigger] s@.skip(4)[i],
                            ) by {
                                assert(is_b64_byte(s@[i + 4]));
                            }
                            assert(s@.len() % 4 == (s@.len() - 4) % 4);
                            assert(b64_valid(s@.skip(4)));
                        }
                    }
                }
                ok
            },
            _ => false,
        }
    }
}

/// Decode an unpadded base64url byte string, or `None` when a byte falls
/// outside the alphabet or the length is impossible for an encoding.
pub fn b64_decode(s: &[u8]) -> (r: Option<Vec<u8>>)
    ensures
        match r {
            Some(v) => b64_valid(s@) && v@ == b64_decode_raw(s@),
            None => !b64_valid(s@),
        },
{
    let mut out: Vec<u8> = Vec::new();
    let ok = b64_decode_rec(s, &mut out);
    if ok {
        proof {
            assert(out@ =~= b64_decode_raw(s@));
        }
        Some(out)
    } else {
        None
    }
}

} // verus!
