//! Tests of the token codec: round trips, expiry, tampering, and the
//! wire format seen by an independent JWT implementation.

use jwt_auth::{Claims, TokenCodec};

const SECRET: &[u8] = b"totallySecureMegaHDPassword";

fn codec() -> TokenCodec {
    TokenCodec::new(SECRET.to_vec())
}

#[test]
fn round_trip_preserves_claims() {
    let codec = codec();
    let now: i64 = 1_700_000_000;
    let claims = Claims::new_at(
        "alice".to_string(),
        vec!["user".to_string(), "admin".to_string()],
        now,
    );
    let token = codec.create_jwt(&claims);
    let back = codec.decode_jwt_at(&token, now).expect("fresh token must decode");
    assert_eq!(back.username, "alice");
    assert_eq!(back.exp, now + 86400);
    assert!(back.permissions.contains("user"));
    assert!(back.permissions.contains("admin"));
    assert!(!back.permissions.contains("root"));
}

#[test]
fn round_trip_empty_permissions() {
    let codec = codec();
    let now: i64 = 1_700_000_000;
    let claims = Claims::new_at("bob".to_string(), vec![], now);
    let token = codec.create_jwt(&claims);
    let back = codec.decode_jwt_at(&token, now).expect("fresh token must decode");
    assert_eq!(back.username, "bob");
    assert!(!back.permissions.contains("user"));
}

#[test]
fn round_trip_awkward_characters() {
    let codec = codec();
    let now: i64 = 1_700_000_000;
    let name = "a\"b\\c\nd\u{1f600}é".to_string();
    let claims = Claims::new_at(name.clone(), vec!["r\"o\\le".to_string()], now);
    let token = codec.create_jwt(&claims);
    let back = codec.decode_jwt_at(&token, now).expect("fresh token must decode");
    assert_eq!(back.username, name);
    assert!(back.permissions.contains("r\"o\\le"));
}

#[test]
fn expired_token_is_invalid() {
    let codec = codec();
    let now: i64 = 1_700_000_000;
    let claims = Claims::new_at("alice".to_string(), vec!["user".to_string()], now);
    let token = codec.create_jwt(&claims);
    // Exactly at the expiry the token is no longer valid.
    let r = codec.decode_jwt_at(&token, now + 86400);
    assert_eq!(r.err(), Some(jwt_auth::AuthError::InvalidCredential));
    let r = codec.decode_jwt_at(&token, now + 200_000);
    assert_eq!(r.err(), Some(jwt_auth::AuthError::InvalidCredential));
    // One second before the expiry it still decodes.
    assert!(codec.decode_jwt_at(&token, now + 86399).is_ok());
}

#[test]
fn every_payload_or_signature_byte_matters() {
    let codec = codec();
    let now: i64 = 1_700_000_000;
    let claims = Claims::new_at("alice".to_string(), vec!["user".to_string()], now);
    let token = codec.create_jwt(&claims);
    let bytes = token.as_bytes();
    let first_dot = token.find('.').expect("token has segments");
    for pos in (first_dot + 1)..bytes.len() {
        if bytes[pos] == b'.' {
            continue;
        }
        let mut mutated = bytes.to_vec();
        mutated[pos] = if mutated[pos] == b'A' { b'B' } else { b'A' };
        if mutated[pos] == bytes[pos] {
            continue;
        }
        let mutated = String::from_utf8(mutated).expect("ascii stays ascii");
        let r = codec.decode_jwt_at(&mutated, now);
        assert_eq!(
            r.err(),
            Some(jwt_auth::AuthError::InvalidCredential),
            "mutation at byte {} was accepted",
            pos
        );
    }
}

#[test]
fn malformed_tokens_are_invalid() {
    let codec = codec();
    let now: i64 = 1_700_000_000;
    for t in [
        "",
        "justonepiece",
        "two.pieces",
        "a.b.c",
        "..",
        "not base64.!!!.???",
        "Bearer abc.def.ghi",
    ] {
        assert_eq!(
            codec.decode_jwt_at(t, now).err(),
            Some(jwt_auth::AuthError::InvalidCredential),
            "{:?} was accepted",
            t
        );
    }
}

#[test]
fn token_under_other_secret_is_invalid() {
    let codec = codec();
    let other = TokenCodec::new(b"someOtherSecret".to_vec());
    let now: i64 = 1_700_000_000;
    let claims = Claims::new_at("alice".to_string(), vec!["user".to_string()], now);
    let token = other.create_jwt(&claims);
    assert_eq!(
        codec.decode_jwt_at(&token, now).err(),
        Some(jwt_auth::AuthError::InvalidCredential)
    );
}

#[test]
fn header_segment_is_standard() {
    let codec = codec();
    let claims = Claims::new_at("alice".to_string(), vec!["user".to_string()], 1_700_000_000);
    let token = codec.create_jwt(&claims);
    let header = token.split('.').next().unwrap();
    assert_eq!(header, "eyJhbGciOiJIUzI1NiIsInR5cCI6IkpXVCJ9");
    assert_eq!(token.split('.').count(), 3);
}

#[test]
fn independent_jwt_library_accepts_our_tokens() {
    let codec = codec();
    let now = chrono::Utc::now().timestamp();
    let claims = Claims::new_at(
        "alice".to_string(),
        vec!["admin".to_string(), "user".to_string()],
        now,
    );
    let token = codec.create_jwt(&claims);
    let key = jsonwebtoken::DecodingKey::from_secret(SECRET);
    let data = jsonwebtoken::decode::<serde_json::Value>(
        &token,
        &key,
        &jsonwebtoken::Validation::default(),
    )
    .expect("an independent decoder must accept the token and its signature");
    assert_eq!(
        data.claims["username"],
        serde_json::Value::String("alice".to_string())
    );
    assert_eq!(data.claims["exp"], serde_json::Value::from(now + 86400));
    let perms: Vec<String> = data.claims["permissions"]
        .as_array()
        .expect("permissions is a list")
        .iter()
        .map(|v| v.as_str().unwrap().to_string())
        .collect();
    assert_eq!(perms, vec!["admin".to_string(), "user".to_string()]);
}

#[test]
fn clock_based_issuance_expires_a_day_out() {
    let codec = codec();
    let before = chrono::Utc::now().timestamp();
    let claims = Claims::new("carol".to_string(), vec!["user".to_string()]);
    let after = chrono::Utc::now().timestamp();
    assert!(claims.exp >= before + 86400);
    assert!(claims.exp <= after + 86400);
    let token = codec.create_jwt(&claims);
    let back = codec.decode_jwt(&token).expect("fresh token must decode");
    assert_eq!(back.username, "carol");
}
