//! The account record the login flow works on, and the one credential
//! decision the flow makes. Looking records up and storing them is the
//! database's business; deciding whether a found record matches the
//! presented password is decided here.

use vstd::prelude::*;
use crate::text::str_eq;

verus! {

/// A stored account: name, password and granted roles. The password is
/// held and compared in plain text, exactly as the stored record has it.
#[derive(Debug)]
pub struct User {
    pub username: String,
    pub password: String,
    pub role: Vec<String>,
}

impl User {
    /// An account record with the given fields.
    pub fn new(username: String, password: String, role: Vec<String>) -> (u: User)
        ensures
            u.username@ == username@,
            u.password@ == password@,
            u.role.deep_view() == role.deep_view(),
    {
        User { username, password, role }
    }
}

/// The first seed account: an administrator that also holds the plain
/// user permission, since holding `admin` alone grants nothing else.
pub open spec fn is_seed_test(u: User) -> bool {
    u.username@ == "test"@ && u.password@ == "test"@ && u.role.deep_view() =~= seq![
        "admin"@,
        "user"@,
    ]
}

/// The second seed account: a plain user.
pub open spec fn is_seed_test2(u: User) -> bool {
    u.username@ == "test2"@ && u.password@ == "test"@ && u.role.deep_view() =~= seq!["user"@]
}

/// Which seed accounts a database is missing: with none of them stored
/// both are created, with exactly one stored the other is, and with both
/// stored nothing is.
pub fn seed_plan(found: &Vec<User>) -> (r: Vec<User>)
    ensures
        found@.len() == 0 ==> r@.len() == 2 && is_seed_test(r@[0]) && is_seed_test2(r@[1]),
        found@.len() == 1 && found@[0].username@ == "test"@ ==> r@.len() == 1 && is_seed_test2(
            r@[0],
        ),
        found@.len() == 1 && found@[0].username@ != "test"@ ==> r@.len() == 1 && is_seed_test(
            r@[0],
        ),
        found@.len() >= 2 ==> r@.len() == 0,
{
    let mut r: Vec<User> = Vec::new();
    if found.len() >= 2 {
        return r;
    }
    let mut admin_roles: Vec<String> = Vec::new();
    admin_roles.push("admin".to_owned());
    admin_roles.push("user".to_owned());
    let mut user_roles: Vec<String> = Vec::new();
    user_roles.push("user".to_owned());
    proof {
        assert(admin_roles.deep_view() =~= seq!["admin"@, "user"@]);
        assert(user_roles.deep_view() =~= seq!["user"@]);
    }
    if found.len() == 0 {
        r.push(User::new("test".to_owned(), "test".to_owned(), admin_roles));
        r.push(User::new("test2".to_owned(), "test".to_owned(), user_roles));
    } else if str_eq(found[0].username.as_str(), "test") {
        r.push(User::new("test2".to_owned(), "test".to_owned(), user_roles));
    } else {
        r.push(User::new("test".to_owned(), "test".to_owned(), admin_roles));
    }
    r
}

/// The login decision: the looked-up record is accepted exactly when one
/// was found and its stored password equals the presented one. A missing
/// account and a wrong password are indistinguishable to the caller.
pub fn check_credentials(found: Option<User>, password: &str) -> (r: Option<User>)
    ensures
        found is None ==> r is None,
        found matches Some(u) ==> r == if u.password@ == password@ {
            Some(u)
        } else {
            None::<User>
        },
{
    match found {
        None => None,
        Some(u) => {
            if str_eq(u.password.as_str(), password) {
                Some(u)
            } else {
                None
            }
        },
    }
}

} // verus!
