//! Stateless token-based authentication and role-based authorization.
//!
//! The crate issues and verifies signed session tokens (compact three-segment
//! tokens: base64url header, payload and HMAC signature), extracts a bearer
//! token from a request's authorization header, and gates routes on the
//! permission set carried by a validated token.

pub mod base64url;
pub mod claims;
pub mod errors;
pub mod guard;
pub mod jwt;
pub mod middleware;
pub mod models;
pub mod payload;
pub mod text;
pub mod users;

pub use claims::Claims;
pub use claims::PermissionSet;
pub use errors::AuthError;
pub use guard::RouteGuard;
pub use jwt::TokenCodec;
pub use middleware::AuthOutcome;
pub use middleware::AuthUser;
pub use middleware::JwtMiddleware;
pub use middleware::JwtMiddlewareImpl;
pub use models::FileEntry;
pub use users::User;
