//! The request interceptor: runs before route dispatch, pulls a bearer
//! token out of the authorization header, validates it, and produces the
//! identity context for the rest of the request. A missing or non-bearer
//! header passes through anonymously; a present but invalid token fails
//! the request outright.

use vstd::prelude::*;
use vstd::string::StrSliceExecFns;
use vstd::utf8::encode_utf8;
use crate::claims::PermissionSet;
use crate::errors::AuthError;
use crate::jwt::{decode_spec, parse_token, TokenCodec};

verus! {

/// The identity context of one request: who the caller is and what they
/// may do. It exists only as the product of a successfully validated
/// token, and lives no longer than the request.
#[derive(Debug, Clone)]
pub struct AuthUser {
    pub username: String,
    pub permissions: PermissionSet,
}

/// What the interceptor decides for one request.
#[derive(Debug)]
pub enum AuthOutcome {
    /// No credential was presented: the request goes on unauthenticated.
    Anonymous,
    /// A valid token was presented: the request carries this identity.
    Authenticated(AuthUser),
    /// A credential was presented and is invalid: the request fails now.
    Rejected(AuthError),
}

/// The characters of the expected `Bearer ` header prefix.
pub open spec fn bearer_chars() -> Seq<char> {
    seq!['B', 'e', 'a', 'r', 'e', 'r', ' ']
}

/// True of header values in the `Bearer <token>` shape.
pub open spec fn has_bearer(h: Seq<char>) -> bool {
    h.len() >= 7 && h.subrange(0, 7) == bearer_chars()
}

/// The token part of a bearer header value.
pub open spec fn bearer_token(h: Seq<char>) -> Seq<char> {
    h.skip(7)
}

/// The pipeline stage that installs token validation in front of an inner
/// endpoint.
#[derive(Debug)]
pub struct JwtMiddleware {
    codec: TokenCodec,
}

impl JwtMiddleware {
    /// The signing key the stage validates against.
    pub closed spec fn key(&self) -> Seq<u8> {
        self.codec.key()
    }

    /// A middleware over the given codec.
    pub fn new(codec: TokenCodec) -> (m: Self)
        ensures
            m.key() == codec.key(),
    {
        JwtMiddleware { codec }
    }

    /// Wrap an inner endpoint; the wrapper validates against the same key.
    pub fn transform<E>(&self, ep: E) -> (w: JwtMiddlewareImpl<E>)
        ensures
            w.key() == self.key(),
    {
        JwtMiddlewareImpl { ep, codec: self.codec.duplicate() }
    }
}

/// An endpoint wrapped by the interceptor: validates the authorization
/// header, then hands the request on.
#[derive(Debug)]
pub struct JwtMiddlewareImpl<E> {
    ep: E,
    codec: TokenCodec,
}

impl<E> JwtMiddlewareImpl<E> {
    /// The signing key the wrapper validates against.
    pub closed spec fn key(&self) -> Seq<u8> {
        self.codec.key()
    }

    /// The wrapped endpoint.
    pub fn endpoint(&self) -> &E {
        &self.ep
    }

    /// Decide the fate of a request from its authorization header at time
    /// `now`: no header or no bearer shape passes through anonymously; a
    /// bearer token is decoded, and the request is authenticated with the
    /// token's identity or rejected, exactly as [`decode_spec`] says.
    pub fn authenticate_at(&self, header: Option<&str>, now: i64) -> (r: AuthOutcome)
        ensures
            header is None ==> r is Anonymous,
            header matches Some(h) ==> (!has_bearer(h@) ==> r is Anonymous),
            header matches Some(h) ==> (has_bearer(h@) ==> match r {
                AuthOutcome::Anonymous => false,
                AuthOutcome::Authenticated(u) => decode_spec(
                    self.key(),
                    encode_utf8(bearer_token(h@)),
                    now as int,
                ) matches Ok(c) && c.username == u.username@ && c.permissions == u.permissions@
                    && u.permissions.wf(),
                AuthOutcome::Rejected(e) => decode_spec(
                    self.key(),
                    encode_utf8(bearer_token(h@)),
                    now as int,
                ) == Err::<crate::claims::ClaimsView, AuthError>(e),
            }),
    {
        let h = match header {
            None => {
                return AuthOutcome::Anonymous;
            },
            Some(h) => h,
        };
        let n = h.unicode_len();
        if n < 7 {
            return AuthOutcome::Anonymous;
        }
        if h.get_char(0) != 'B' || h.get_char(1) != 'e' || h.get_char(2) != 'a' || h.get_char(3)
            != 'r' || h.get_char(4) != 'e' || h.get_char(5) != 'r' || h.get_char(6) != ' ' {
            proof {
                if has_bearer(h@) {
                    assert(h@.subrange(0, 7)[0] == h@[0]);
                    assert(h@.subrange(0, 7)[1] == h@[1]);
                    assert(h@.subrange(0, 7)[2] == h@[2]);
                    assert(h@.subrange(0, 7)[3] == h@[3]);
                    assert(h@.subrange(0, 7)[4] == h@[4]);
                    assert(h@.subrange(0, 7)[5] == h@[5]);
                    assert(h@.subrange(0, 7)[6] == h@[6]);
                }
            }
            return AuthOutcome::Anonymous;
        }
        proof {
            assert(h@.subrange(0, 7) =~= bearer_chars());
        }
        let token = h.substring_char(7, n);
        proof {
            assert(token@ == bearer_token(h@));
        }
        match self.codec.decode_jwt_at(token, now) {
            Ok(claims) => AuthOutcome::Authenticated(
                AuthUser { username: claims.username, permissions: claims.permissions },
            ),
            Err(e) => AuthOutcome::Rejected(e),
        }
    }

    /// Decide the fate of a request from its authorization header, reading
    /// the process clock. A header without a bearer token passes through
    /// anonymously whatever the clock says; a bearer token that fails
    /// structural validation is rejected whatever the clock says.
    pub fn authenticate(&self, header: Option<&str>) -> (r: AuthOutcome)
        ensures
            header is None ==> r is Anonymous,
            header matches Some(h) ==> (!has_bearer(h@) ==> r is Anonymous),
            header matches Some(h) ==> (has_bearer(h@) ==> match r {
                AuthOutcome::Anonymous => false,
                AuthOutcome::Authenticated(u) => parse_token(
                    self.key(),
                    encode_utf8(bearer_token(h@)),
                ) matches Some(c) && c.username == u.username@ && c.permissions == u.permissions@
                    && u.permissions.wf(),
                AuthOutcome::Rejected(e) => e == AuthError::InvalidCredential,
            }),
            header matches Some(h) ==> ((has_bearer(h@) && parse_token(
                self.key(),
                encode_utf8(bearer_token(h@)),
            ) is None) ==> r is Rejected),
    {
        let now = crate::claims::current_timestamp();
        self.authenticate_at(header, now)
    }
}

} // verus!
