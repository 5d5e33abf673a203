//! Tests of the request pipeline: the interceptor's anonymous, rejected
//! and authenticated paths, the per-route gate, and the login flow.

use jwt_auth::{
    AuthError, AuthOutcome, Claims, JwtMiddleware, PermissionSet, RouteGuard, TokenCodec, User,
};
use jwt_auth::users::check_credentials;

const SECRET: &[u8] = b"totallySecureMegaHDPassword";
const NOW: i64 = 1_700_000_000;

fn interceptor() -> jwt_auth::JwtMiddlewareImpl<()> {
    JwtMiddleware::new(TokenCodec::new(SECRET.to_vec())).transform(())
}

fn token_for(perms: &[&str]) -> String {
    let codec = TokenCodec::new(SECRET.to_vec());
    let claims = Claims::new_at(
        "alice".to_string(),
        perms.iter().map(|p| p.to_string()).collect(),
        NOW,
    );
    codec.create_jwt(&claims)
}

#[test]
fn missing_header_passes_through_anonymously() {
    let ep = interceptor();
    assert!(matches!(ep.authenticate_at(None, NOW), AuthOutcome::Anonymous));
}

#[test]
fn non_bearer_header_passes_through_anonymously() {
    let ep = interceptor();
    for h in ["Basic dXNlcjpwYXNz", "bearer lowercase", "Bearer", "Beare r x", ""] {
        assert!(
            matches!(ep.authenticate_at(Some(h), NOW), AuthOutcome::Anonymous),
            "{:?} did not pass through",
            h
        );
    }
}

#[test]
fn anonymous_request_is_rejected_by_a_protected_route() {
    let guard = RouteGuard::new("user".to_string());
    assert_eq!(guard.check(None), Err(AuthError::MissingCredential));
    assert_eq!(AuthError::MissingCredential.status_code(), 401);
}

#[test]
fn invalid_bearer_token_is_rejected_outright() {
    let ep = interceptor();
    let r = ep.authenticate_at(Some("Bearer not.a.token"), NOW);
    match r {
        AuthOutcome::Rejected(e) => {
            assert_eq!(e, AuthError::InvalidCredential);
            assert_eq!(e.status_code(), 401);
        },
        _ => panic!("an invalid credential must fail the request"),
    }
}

#[test]
fn expired_bearer_token_is_rejected_outright() {
    let ep = interceptor();
    let header = format!("Bearer {}", token_for(&["user"]));
    let r = ep.authenticate_at(Some(&header), NOW + 86400);
    assert!(matches!(r, AuthOutcome::Rejected(AuthError::InvalidCredential)));
}

#[test]
fn user_token_passes_user_route_and_fails_admin_route() {
    let ep = interceptor();
    let header = format!("Bearer {}", token_for(&["user"]));
    let user = match ep.authenticate_at(Some(&header), NOW) {
        AuthOutcome::Authenticated(u) => u,
        _ => panic!("a valid token must authenticate"),
    };
    assert_eq!(user.username, "alice");
    let user_route = RouteGuard::new("user".to_string());
    let admin_route = RouteGuard::new("admin".to_string());
    assert_eq!(user_route.check(Some(&user)), Ok(()));
    assert_eq!(
        admin_route.check(Some(&user)),
        Err(AuthError::InsufficientPermission)
    );
    assert_eq!(AuthError::InsufficientPermission.status_code(), 403);
}

#[test]
fn admin_user_token_passes_both_routes() {
    let ep = interceptor();
    let header = format!("Bearer {}", token_for(&["admin", "user"]));
    let user = match ep.authenticate_at(Some(&header), NOW) {
        AuthOutcome::Authenticated(u) => u,
        _ => panic!("a valid token must authenticate"),
    };
    let user_route = RouteGuard::new("user".to_string());
    let admin_route = RouteGuard::new("admin".to_string());
    assert_eq!(user_route.check(Some(&user)), Ok(()));
    assert_eq!(admin_route.check(Some(&user)), Ok(()));
}

#[test]
fn holding_admin_does_not_imply_user() {
    let ep = interceptor();
    let header = format!("Bearer {}", token_for(&["admin"]));
    let user = match ep.authenticate_at(Some(&header), NOW) {
        AuthOutcome::Authenticated(u) => u,
        _ => panic!("a valid token must authenticate"),
    };
    let user_route = RouteGuard::new("user".to_string());
    assert_eq!(
        user_route.check(Some(&user)),
        Err(AuthError::InsufficientPermission)
    );
}

#[test]
fn login_scenario_issues_a_decodable_token() {
    let stored = User::new(
        "alice".to_string(),
        "wonderland".to_string(),
        vec!["user".to_string()],
    );
    let found = check_credentials(Some(stored), "wonderland")
        .expect("a matching password must log in");
    let codec = TokenCodec::new(SECRET.to_vec());
    let claims = Claims::new_at(found.username, found.role, NOW);
    let token = codec.create_jwt(&claims);
    let back = codec.decode_jwt_at(&token, NOW).expect("the fresh token must decode");
    assert_eq!(back.username, "alice");
    assert!(back.permissions.contains("user"));
    assert!(!back.permissions.contains("admin"));
    assert_eq!(back.exp, NOW + 86400);
}

#[test]
fn login_rejects_wrong_password_and_unknown_user() {
    let stored = User::new(
        "alice".to_string(),
        "wonderland".to_string(),
        vec!["user".to_string()],
    );
    assert!(check_credentials(Some(stored), "rabbit").is_none());
    assert!(check_credentials(None, "wonderland").is_none());
}

#[test]
fn permission_sets_ignore_duplicates() {
    let set = PermissionSet::from_names(vec![
        "user".to_string(),
        "user".to_string(),
        "admin".to_string(),
    ]);
    assert!(set.contains("user"));
    assert!(set.contains("admin"));
    assert_eq!(set.names().len(), 2);
}

#[test]
fn seed_plan_creates_what_is_missing() {
    let plan = jwt_auth::users::seed_plan(&vec![]);
    assert_eq!(plan.len(), 2);
    assert_eq!(plan[0].username, "test");
    assert_eq!(plan[0].role, vec!["admin".to_string(), "user".to_string()]);
    assert_eq!(plan[1].username, "test2");
    assert_eq!(plan[1].role, vec!["user".to_string()]);

    let only_test = vec![User::new(
        "test".to_string(),
        "test".to_string(),
        vec!["admin".to_string(), "user".to_string()],
    )];
    let plan = jwt_auth::users::seed_plan(&only_test);
    assert_eq!(plan.len(), 1);
    assert_eq!(plan[0].username, "test2");

    let only_test2 = vec![User::new(
        "test2".to_string(),
        "test".to_string(),
        vec!["user".to_string()],
    )];
    let plan = jwt_auth::users::seed_plan(&only_test2);
    assert_eq!(plan.len(), 1);
    assert_eq!(plan[0].username, "test");

    let both = vec![
        User::new("test".to_string(), "t".to_string(), vec![]),
        User::new("test2".to_string(), "t".to_string(), vec![]),
    ];
    assert!(jwt_auth::users::seed_plan(&both).is_empty());
}

#[test]
fn file_entry_holds_its_fields() {
    let e = jwt_auth::FileEntry::new("0123abcd".to_string(), "notes.txt".to_string());
    assert_eq!(e.id, "0123abcd");
    assert_eq!(e.filename, "notes.txt");
}
