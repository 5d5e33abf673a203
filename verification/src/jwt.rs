//! The token codec: the sole arbiter of token validity. A token is three
//! dot-joined unpadded base64url segments — a fixed header, the claims
//! payload, and an HMAC-SHA256 tag over the first two — and decoding
//! collapses every malformed, forged or expired token into the same
//! failure.

use vstd::prelude::*;
use vstd::utf8::{
    decode_utf8, encode_utf8, encode_utf8_decode_utf8, encode_utf8_valid_utf8, valid_utf8,
};
use crate::base64url::{
    b64_decode, b64_decode_raw, b64_encode, b64_encode_spec, b64_valid, is_b64_byte,
    lemma_b64_encode_no_dot, lemma_b64_round_trip,
};
use crate::claims::{Claims, ClaimsView, PermissionSet};
use crate::errors::AuthError;
use crate::payload::{
    claims_json_bytes, lemma_claims_round_trip, parse_claims_bytes, parse_claims_json,
    strs_bytes, vecs_views, write_claims_json, ClaimsBytes,
};
use crate::text::{bytes_eq, bytes_to_string, lemma_ascii_bytes_valid_utf8};

verus! {

/// The bytes of the fixed token header `{"alg":"HS256","typ":"JWT"}`.
pub open spec fn header_json() -> Seq<u8> {
    seq![
        123u8,
        34u8,
        97u8,
        108u8,
        103u8,
        34u8,
        58u8,
        34u8,
        72u8,
        83u8,
        50u8,
        53u8,
        54u8,
        34u8,
        44u8,
        34u8,
        116u8,
        121u8,
        112u8,
        34u8,
        58u8,
        34u8,
        74u8,
        87u8,
        84u8,
        34u8,
        125u8,
    ]
}

/// The header segment: the header bytes in base64url.
pub open spec fn header_b64() -> Seq<u8> {
    b64_encode_spec(header_json())
}

/// The base64url text of the HMAC-SHA256 tag over a message under a key;
/// a function of the two arguments alone.
pub uninterp spec fn hmac_tag_of(key: Seq<u8>, msg: Seq<u8>) -> Seq<u8>;

/// Relies on jsonwebtoken's `crypto::sign` with HS256: it never fails for
/// an HMAC algorithm, its result depends on the key and message alone, and
/// it is the unpadded base64url text of the 32-byte HMAC-SHA256 tag — 43
/// bytes, every one from the base64url alphabet.
#[verifier::external_body]
fn hmac_sign(key: &[u8], msg: &[u8]) -> (r: Vec<u8>)
    ensures
        r@ == hmac_tag_of(key@, msg@),
        r@.len() == 43,
        forall|i: int| 0 <= i < r@.len() ==> is_b64_byte(#[trigger] r@[i]),
{
    let encoding_key = jsonwebtoken::EncodingKey::from_secret(key);
    let tag = jsonwebtoken::crypto::sign(msg, &encoding_key, jsonwebtoken::Algorithm::HS256)
        .unwrap();
    tag.into_bytes()
}

/// The UTF-8 bytes of each role name.
pub open spec fn perms_utf8(ps: Seq<Seq<char>>) -> Seq<Seq<u8>> {
    ps.map_values(|p: Seq<char>| encode_utf8(p))
}

/// The two segments every signature covers: header, dot, payload.
pub open spec fn signing_input(c: ClaimsView) -> Seq<u8> {
    header_b64() + seq![46u8] + b64_encode_spec(
        claims_json_bytes(encode_utf8(c.username), perms_utf8(c.permissions), c.exp),
    )
}

/// The complete token issued for a claim set under a key.
pub open spec fn token_bytes(key: Seq<u8>, c: ClaimsView) -> Seq<u8> {
    signing_input(c) + seq![46u8] + hmac_tag_of(key, signing_input(c))
}

/// The position of the first dot at or after `from`, or the length when
/// there is none.
pub open spec fn find_dot(t: Seq<u8>, from: int) -> int
    recommends
        0 <= from <= t.len(),
    decreases t.len() - from,
    when 0 <= from
{
    if from >= t.len() {
        t.len() as int
    } else if t[from] == 46 {
        from
    } else {
        find_dot(t, from + 1)
    }
}

/// `find_dot` runs off the end when no dot remains.
proof fn lemma_find_dot_none(t: Seq<u8>, from: int)
    requires
        0 <= from <= t.len(),
        forall|i: int| from <= i < t.len() ==> t[i] != 46,
    ensures
        find_dot(t, from) == t.len(),
    decreases t.len() - from,
{
    if from < t.len() {
        lemma_find_dot_none(t, from + 1);
    }
}

/// The compact framing of the wire format: exactly three non-empty
/// dot-joined segments, every byte outside the two dots from the
/// base64url alphabet.
pub open spec fn well_framed(t: Seq<u8>) -> bool {
    let i = find_dot(t, 0);
    let j = find_dot(t, i + 1);
    &&& 0 < i
    &&& i + 1 < j
    &&& j + 1 < t.len()
    &&& find_dot(t, j + 1) == t.len()
    &&& forall|k: int| 0 <= k < t.len() && k != i && k != j ==> is_b64_byte(#[trigger] t[k])
}

/// `find_dot` lands on `k` when `k` holds a dot and nothing before it,
/// back to `from`, does.
proof fn lemma_find_dot_hits(t: Seq<u8>, from: int, k: int)
    requires
        0 <= from <= k < t.len(),
        t[k] == 46,
        forall|i: int| from <= i < k ==> t[i] != 46,
    ensures
        find_dot(t, from) == k,
    decreases k - from,
{
    if from < k {
        lemma_find_dot_hits(t, from + 1, k);
    }
}

/// Lift the parsed payload fields to a claim set: every byte string must
/// be valid UTF-8 and the result well formed, or the token is worthless.
pub open spec fn claims_of_bytes(cb: ClaimsBytes) -> Option<ClaimsView> {
    if !valid_utf8(cb.username) {
        None
    } else if exists|k: int| 0 <= k < cb.perms.len() && !valid_utf8(#[trigger] cb.perms[k]) {
        None
    } else {
        let c = ClaimsView {
            username: decode_utf8(cb.username),
            permissions: cb.perms.map_values(|p: Seq<u8>| decode_utf8(p)),
            exp: cb.exp,
        };
        if c.wf() {
            Some(c)
        } else {
            None
        }
    }
}

/// What structural validation yields: the claim set carried by the token,
/// or nothing when the framing, the header, the signature or the payload
/// is not exactly right.
pub open spec fn parse_token(key: Seq<u8>, t: Seq<u8>) -> Option<ClaimsView> {
    let i = find_dot(t, 0);
    let j = find_dot(t, i + 1);
    if i >= t.len() || j >= t.len() {
        None
    } else if t.skip(j + 1) != hmac_tag_of(key, t.take(j)) {
        None
    } else if t.take(i) != header_b64() {
        None
    } else if !b64_valid(t.subrange(i + 1, j)) {
        None
    } else {
        match parse_claims_json(b64_decode_raw(t.subrange(i + 1, j))) {
            None => None,
            Some(cb) => claims_of_bytes(cb),
        }
    }
}

/// What decoding yields at time `now`: the claim set of a structurally
/// valid, unexpired token, and one indistinct failure otherwise.
pub open spec fn decode_spec(key: Seq<u8>, t: Seq<u8>, now: int) -> Result<ClaimsView, AuthError> {
    match parse_token(key, t) {
        None => Err(AuthError::InvalidCredential),
        Some(c) => if now < c.exp {
            Ok(c)
        } else {
            Err(AuthError::InvalidCredential)
        },
    }
}

/// Structural validation accepts exactly what encoding produced and gives
/// the claim set back unchanged.
proof fn lemma_parse_token_of_encoding(key: Seq<u8>, c: ClaimsView)
    requires
        c.wf(),
    ensures
        parse_token(key, token_bytes(key, c)) == Some(c),
{
    broadcast use encode_utf8_valid_utf8, encode_utf8_decode_utf8;

    let jb = claims_json_bytes(encode_utf8(c.username), perms_utf8(c.permissions), c.exp);
    let p64 = b64_encode_spec(jb);
    let h64 = header_b64();
    let msg = signing_input(c);
    let tag = hmac_tag_of(key, msg);
    let t = token_bytes(key, c);
    assert(t =~= h64 + seq![46u8] + p64 + seq![46u8] + tag);
    let hl = h64.len() as int;
    let jpos = msg.len() as int;
    lemma_b64_encode_no_dot(header_json());
    lemma_b64_encode_no_dot(jb);
    assert(t[hl] == 46);
    assert forall|i: int| 0 <= i < hl implies t[i] != 46 by {
        assert(t[i] == h64[i]);
    }
    lemma_find_dot_hits(t, 0, hl);
    assert(t[jpos] == 46);
    assert forall|i: int| hl + 1 <= i < jpos implies t[i] != 46 by {
        assert(t[i] == p64[i - hl - 1]);
    }
    lemma_find_dot_hits(t, hl + 1, jpos);
    assert(t.take(jpos) =~= msg);
    assert(t.skip(jpos + 1) =~= tag);
    assert(t.take(hl) =~= h64);
    assert(t.subrange(hl + 1, jpos) =~= p64);
    lemma_b64_round_trip(jb);
    lemma_claims_round_trip(encode_utf8(c.username), perms_utf8(c.permissions), c.exp);
    let cb = ClaimsBytes {
        username: encode_utf8(c.username),
        perms: perms_utf8(c.permissions),
        exp: c.exp,
    };
    assert(valid_utf8(cb.username));
    assert forall|k: int| 0 <= k < cb.perms.len() implies valid_utf8(#[trigger] cb.perms[k]) by {
        assert(cb.perms[k] == encode_utf8(c.permissions[k]));
    }
    let c2 = ClaimsView {
        username: decode_utf8(cb.username),
        permissions: cb.perms.map_values(|p: Seq<u8>| decode_utf8(p)),
        exp: cb.exp,
    };
    assert(c2.username == c.username);
    assert(c2.permissions =~= c.permissions);
    assert(c2 == c);
}

/// Decoding what was encoded, before the expiry, gives the claim set back:
/// the round-trip law of the codec.
pub proof fn lemma_round_trip(key: Seq<u8>, c: ClaimsView, now: int)
    requires
        c.wf(),
        now < c.exp,
    ensures
        decode_spec(key, token_bytes(key, c), now) == Ok::<ClaimsView, AuthError>(c),
{
    lemma_parse_token_of_encoding(key, c);
}

/// Decoding what was encoded, at or after the expiry, fails like any other
/// invalid token, although the signature still verifies.
pub proof fn lemma_expired_rejected(key: Seq<u8>, c: ClaimsView, now: int)
    requires
        c.wf(),
        now >= c.exp,
    ensures
        decode_spec(key, token_bytes(key, c), now) == Err::<ClaimsView, AuthError>(
            AuthError::InvalidCredential,
        ),
{
    lemma_parse_token_of_encoding(key, c);
}

/// A token whose signature segment is anything but the true tag of its
/// first two segments is rejected, whatever the time.
pub proof fn lemma_tampered_signature_rejected(
    key: Seq<u8>,
    c: ClaimsView,
    sig: Seq<u8>,
    now: int,
)
    requires
        c.wf(),
        sig != hmac_tag_of(key, signing_input(c)),
    ensures
        decode_spec(key, signing_input(c) + seq![46u8] + sig, now) == Err::<
            ClaimsView,
            AuthError,
        >(AuthError::InvalidCredential),
{
    let jb = claims_json_bytes(encode_utf8(c.username), perms_utf8(c.permissions), c.exp);
    let p64 = b64_encode_spec(jb);
    let h64 = header_b64();
    let msg = signing_input(c);
    let t = msg + seq![46u8] + sig;
    assert(t =~= h64 + seq![46u8] + p64 + seq![46u8] + sig);
    let hl = h64.len() as int;
    let jpos = msg.len() as int;
    lemma_b64_encode_no_dot(header_json());
    lemma_b64_encode_no_dot(jb);
    assert(t[hl] == 46);
    assert forall|i: int| 0 <= i < hl implies t[i] != 46 by {
        assert(t[i] == h64[i]);
    }
    lemma_find_dot_hits(t, 0, hl);
    assert(t[jpos] == 46);
    assert forall|i: int| hl + 1 <= i < jpos implies t[i] != 46 by {
        assert(t[i] == p64[i - hl - 1]);
    }
    lemma_find_dot_hits(t, hl + 1, jpos);
    assert(t.take(jpos) =~= msg);
    assert(t.skip(jpos + 1) =~= sig);
}

/// The header bytes `{"alg":"HS256","typ":"JWT"}`.
fn header_json_vec() -> (r: Vec<u8>)
    ensures
        r@ == header_json(),
{
    let mut v: Vec<u8> = Vec::new();
    v.push(123);
    v.push(34);
    v.push(97);
    v.push(108);
    v.push(103);
    v.push(34);
    v.push(58);
    v.push(34);
    v.push(72);
    v.push(83);
    v.push(50);
    v.push(53);
    v.push(54);
    v.push(34);
    v.push(44);
    v.push(34);
    v.push(116);
    v.push(121);
    v.push(112);
    v.push(34);
    v.push(58);
    v.push(34);
    v.push(74);
    v.push(87);
    v.push(84);
    v.push(34);
    v.push(125);
    proof {
        assert(v@ =~= header_json());
    }
    v
}

/// The position of the first dot at or after `from`, or the length.
fn find_dot_at(t: &[u8], from: usize) -> (r: usize)
    requires
        from <= t@.len(),
    ensures
        r == find_dot(t@, from as int),
        from <= r <= t@.len(),
    decreases t@.len() - from,
{
    if from == t.len() {
        from
    } else if t[from] == 46 {
        from
    } else {
        find_dot_at(t, from + 1)
    }
}

/// The token codec: holds the process-wide signing secret, fixed at
/// construction, byte-identical across every encode and decode.
#[derive(Debug)]
pub struct TokenCodec {
    secret: Vec<u8>,
}

impl TokenCodec {
    /// The signing key the codec was built with.
    pub closed spec fn key(&self) -> Seq<u8> {
        self.secret@
    }

    /// A codec over the given shared secret.
    pub fn new(secret: Vec<u8>) -> (c: Self)
        ensures
            c.key() == secret@,
    {
        TokenCodec { secret }
    }

    /// A second codec over the same secret.
    pub fn duplicate(&self) -> (c: Self)
        ensures
            c.key() == self.key(),
    {
        let mut v: Vec<u8> = Vec::new();
        let mut i: usize = 0;
        while i < self.secret.len()
            invariant
                0 <= i <= self.secret@.len(),
                v@ == self.secret@.take(i as int),
            decreases self.secret@.len() - i,
        {
            v.push(self.secret[i]);
            proof {
                assert(v@ =~= self.secret@.take(i + 1));
            }
            i = i + 1;
        }
        proof {
            assert(v@ =~= self.secret@);
        }
        TokenCodec { secret: v }
    }

    /// Serialize and sign a claim set. Always succeeds for a well-formed
    /// claim set; the result is exactly the token the decoder accepts, and
    /// carries the wire shape: three non-empty dot-joined base64url
    /// segments, the signature over the first two.
    pub fn create_jwt(&self, claims: &Claims) -> (t: String)
        requires
            claims@.wf(),
        ensures
            encode_utf8(t@) == token_bytes(self.key(), claims@),
            well_framed(encode_utf8(t@)),
    {
        let names = claims.permissions.names();
        let payload_json = write_claims_json(
            claims.username.as_str(),
            names,
            claims.exp as u64,
        );
        proof {
            assert(strs_bytes(names@) =~= perms_utf8(claims@.permissions));
        }
        let header = header_json_vec();
        let mut msg = b64_encode(header.as_slice());
        msg.push(46);
        let mut payload64 = b64_encode(payload_json.as_slice());
        msg.append(&mut payload64);
        proof {
            assert(msg@ =~= signing_input(claims@));
        }
        let tag = hmac_sign(self.secret.as_slice(), msg.as_slice());
        let ghost msg_view = msg@;
        let mut token = msg;
        token.push(46);
        let mut tag2 = tag;
        token.append(&mut tag2);
        proof {
            assert(token@ =~= token_bytes(self.key(), claims@));
            let jb = claims_json_bytes(
                encode_utf8(claims@.username),
                perms_utf8(claims@.permissions),
                claims@.exp,
            );
            lemma_b64_round_trip(header_json());
            lemma_b64_round_trip(jb);
            let t = token@;
            let h64 = header_b64();
            let p64 = b64_encode_spec(jb);
            let hl = h64.len() as int;
            let ml = msg_view.len() as int;
            let sig = hmac_tag_of(self.key(), msg_view);
            assert(msg_view =~= h64 + seq![46u8] + p64);
            assert(t =~= msg_view + seq![46u8] + sig);
            assert(t[hl] == 46);
            assert(t[ml] == 46);
            assert(hl > 0) by {
                if h64.len() == 0 {
                    assert(b64_decode_raw(h64).len() == 0);
                    assert(header_json().len() == 27);
                }
            }
            assert(p64.len() > 0) by {
                if p64.len() == 0 {
                    assert(b64_decode_raw(p64).len() == 0);
                    assert(jb.len() >= 13);
                }
            }
            assert forall|k: int| 0 <= k < t.len() && k != hl && k != ml implies is_b64_byte(
                #[trigger] t[k],
            ) by {
                if k < hl {
                    assert(t[k] == h64[k]);
                    assert(is_b64_byte(h64[k]));
                } else if k < ml {
                    assert(t[k] == p64[k - hl - 1]);
                    assert(is_b64_byte(p64[k - hl - 1]));
                } else {
                    assert(t[k] == sig[k - ml - 1]);
                    assert(is_b64_byte(sig[k - ml - 1]));
                }
            }
            assert forall|k: int| 0 <= k < t.len() implies #[trigger] t[k] < 128 by {
                if k != hl && k != ml {
                    assert(is_b64_byte(t[k]));
                }
            }
            lemma_ascii_bytes_valid_utf8(t);
            assert forall|k: int| 0 <= k < hl implies t[k] != 46 by {
                assert(is_b64_byte(t[k]));
            }
            lemma_find_dot_hits(t, 0, hl);
            assert forall|k: int| hl + 1 <= k < ml implies t[k] != 46 by {
                assert(is_b64_byte(t[k]));
            }
            lemma_find_dot_hits(t, hl + 1, ml);
            assert forall|k: int| ml + 1 <= k < t.len() implies t[k] != 46 by {
                assert(is_b64_byte(t[k]));
            }
            lemma_find_dot_none(t, ml + 1);
            assert(well_framed(t));
        }
        match bytes_to_string(token.as_slice()) {
            Some(s) => s,
            None => {
                proof {
                    assert(false);
                }
                String::new()
            },
        }
    }

    /// Validate a token against the key and the given time, and return the
    /// claim set it carries: exactly what [`decode_spec`] yields.
    pub fn decode_jwt_at(&self, token: &str, now: i64) -> (r: Result<Claims, AuthError>)
        ensures
            r matches Ok(c) ==> c@.wf() && decode_spec(self.key(), encode_utf8(token@), now as int)
                == Ok::<ClaimsView, AuthError>(c@),
            r matches Err(e) ==> decode_spec(self.key(), encode_utf8(token@), now as int) == Err::<
                ClaimsView,
                AuthError,
            >(e),
    {
        broadcast use encode_utf8_decode_utf8;

        let t = token.as_bytes();
        let ghost tb = t@;
        let ghost ispec = find_dot(tb, 0);
        let ghost jspec = find_dot(tb, ispec + 1);
        let i = find_dot_at(t, 0);
        if i == t.len() {
            return Err(AuthError::InvalidCredential);
        }
        let j = find_dot_at(t, i + 1);
        if j == t.len() {
            return Err(AuthError::InvalidCredential);
        }
        let msg = &t[0..j];
        let sig = &t[j + 1..t.len()];
        proof {
            assert(msg@ =~= tb.take(jspec));
            assert(sig@ =~= tb.skip(jspec + 1));
        }
        let expected = hmac_sign(self.secret.as_slice(), msg);
        if !bytes_eq(sig, expected.as_slice()) {
            return Err(AuthError::InvalidCredential);
        }
        let header = &t[0..i];
        let header_expected = b64_encode(header_json_vec().as_slice());
        proof {
            assert(header@ =~= tb.take(ispec));
        }
        if !bytes_eq(header, header_expected.as_slice()) {
            return Err(AuthError::InvalidCredential);
        }
        let payload = &t[i + 1..j];
        proof {
            assert(payload@ =~= tb.subrange(ispec + 1, jspec));
        }
        let decoded = match b64_decode(payload) {
            None => {
                return Err(AuthError::InvalidCredential);
            },
            Some(d) => d,
        };
        let parsed = match parse_claims_bytes(decoded.as_slice()) {
            None => {
                return Err(AuthError::InvalidCredential);
            },
            Some(p) => p,
        };
        let (ub, ps, exp) = parsed;
        let ghost cb = ClaimsBytes { username: ub@, perms: vecs_views(ps@), exp: exp as int };
        proof {
            assert(parse_token(self.key(), tb) == claims_of_bytes(cb));
        }
        let username = match bytes_to_string(ub.as_slice()) {
            None => {
                return Err(AuthError::InvalidCredential);
            },
            Some(s) => s,
        };
        if username.as_str().is_empty() {
            proof {
                assert(claims_of_bytes(cb) is None);
            }
            return Err(AuthError::InvalidCredential);
        }
        let ghost perms_chars = cb.perms.map_values(|p: Seq<u8>| decode_utf8(p));
        let mut pset = PermissionSet::new();
        let mut k: usize = 0;
        while k < ps.len()
            invariant
                tb == encode_utf8(token@),
                parse_token(self.key(), tb) == claims_of_bytes(cb),
                0 <= k <= ps@.len(),
                cb.perms == vecs_views(ps@),
                perms_chars == cb.perms.map_values(|p: Seq<u8>| decode_utf8(p)),
                perms_chars.len() == ps@.len(),
                forall|m: int| 0 <= m < k ==> valid_utf8(#[trigger] cb.perms[m]),
                pset@ == perms_chars.take(k as int),
                pset.wf(),
            decreases ps@.len() - k,
        {
            let perm = match bytes_to_string(ps[k].as_slice()) {
                None => {
                    proof {
                        assert(!valid_utf8(cb.perms[k as int]));
                        assert(claims_of_bytes(cb) is None);
                    }
                    return Err(AuthError::InvalidCredential);
                },
                Some(s) => s,
            };
            proof {
                assert(cb.perms[k as int] == ps@[k as int]@);
                vstd::utf8::encode_utf8_decode_utf8(perm@);
                assert(perm@ == perms_chars[k as int]);
            }
            if pset.contains(perm.as_str()) {
                proof {
                    let m = choose|m: int| 0 <= m < pset@.len() && pset@[m] == perm@;
                    assert(perms_chars[m] == perms_chars[k as int]);
                    let cv = ClaimsView {
                        username: decode_utf8(cb.username),
                        permissions: perms_chars,
                        exp: cb.exp,
                    };
                    if cv.wf() {
                        assert(cv.permissions[m] != cv.permissions[k as int]);
                    }
                    assert(!cv.wf());
                    assert(claims_of_bytes(cb) is None);
                }
                return Err(AuthError::InvalidCredential);
            }
            pset.insert(perm);
            proof {
                assert(pset@ =~= perms_chars.take(k + 1));
            }
            k = k + 1;
        }
        proof {
            assert(perms_chars.take(perms_chars.len() as int) =~= perms_chars);
        }
        let claims = Claims { username, permissions: pset, exp };
        proof {
            vstd::utf8::encode_utf8_decode_utf8(claims.username@);
            assert(claims@ == ClaimsView {
                username: decode_utf8(cb.username),
                permissions: perms_chars,
                exp: cb.exp,
            });
            assert(claims@.wf());
            assert(claims_of_bytes(cb) == Some(claims@));
        }
        if now < claims.exp {
            Ok(claims)
        } else {
            Err(AuthError::InvalidCredential)
        }
    }

    /// Validate a token against the key and the process clock. A token
    /// that fails structural validation is rejected whatever the clock
    /// says; one that passes is accepted or rejected on its expiry alone.
    pub fn decode_jwt(&self, token: &str) -> (r: Result<Claims, AuthError>)
        ensures
            r matches Ok(c) ==> c@.wf() && parse_token(self.key(), encode_utf8(token@)) == Some(
                c@,
            ),
            r matches Err(e) ==> e == AuthError::InvalidCredential,
            parse_token(self.key(), encode_utf8(token@)) is None ==> r is Err,
    {
        let now = crate::claims::current_timestamp();
        self.decode_jwt_at(token, now)
    }
}

} // verus!
