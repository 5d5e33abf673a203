//! The signed payload of a token: who the caller is, what they may do,
//! and when the token stops being valid.

use vstd::prelude::*;
use crate::text::str_eq;

verus! {

/// How long a freshly issued token stays valid, in seconds.
pub const TOKEN_VALIDITY_SECS: i64 = 86400;

/// An unordered collection of role names; duplicates are never stored, so
/// membership is plain set membership.
#[derive(Debug, Clone)]
pub struct PermissionSet {
    items: Vec<String>,
}

impl View for PermissionSet {
    type V = Seq<Seq<char>>;

    closed spec fn view(&self) -> Seq<Seq<char>> {
        self.items.deep_view()
    }
}

/// Membership in a role-name sequence survives appending another name.
proof fn lemma_contains_push(s: Seq<Seq<char>>, y: Seq<char>, x: Seq<char>)
    ensures
        s.push(y).contains(x) <==> (s.contains(x) || x == y),
{
    if s.push(y).contains(x) {
        let i = choose|i: int| 0 <= i < s.push(y).len() && s.push(y)[i] == x;
        if i < s.len() {
            assert(s[i] == x);
        }
    }
    if s.contains(x) {
        let i = choose|i: int| 0 <= i < s.len() && s[i] == x;
        assert(s.push(y)[i] == x);
    }
    if x == y {
        assert(s.push(y)[s.len() as int] == x);
    }
}

impl PermissionSet {
    /// The names are pairwise distinct.
    pub open spec fn wf(self) -> bool {
        forall|i: int, j: int| 0 <= i < j < self@.len() ==> self@[i] != self@[j]
    }

    /// The empty permission set.
    pub fn new() -> (s: Self)
        ensures
            s@ == Seq::<Seq<char>>::empty(),
            s.wf(),
    {
        let s = PermissionSet { items: Vec::new() };
        proof {
            assert(s@ =~= Seq::<Seq<char>>::empty());
        }
        s
    }

    /// Whether the set holds the given name.
    pub fn contains(&self, p: &str) -> (r: bool)
        ensures
            r == self@.contains(p@),
    {
        let mut i: usize = 0;
        while i < self.items.len()
            invariant
                0 <= i <= self@.len(),
                self@.len() == self.items@.len(),
                forall|k: int| 0 <= k < i ==> self@[k] != p@,
            decreases self@.len() - i,
        {
            if str_eq(self.items[i].as_str(), p) {
                proof {
                    assert(self@[i as int] == p@);
                }
                return true;
            }
            i = i + 1;
        }
        proof {
            if self@.contains(p@) {
                let k = choose|k: int| 0 <= k < self@.len() && self@[k] == p@;
                assert(self@[k] != p@);
            }
        }
        false
    }

    /// Add a name; a name already present is not stored twice.
    pub fn insert(&mut self, p: String)
        ensures
            final(self)@ == if old(self)@.contains(p@) {
                old(self)@
            } else {
                old(self)@.push(p@)
            },
            old(self).wf() ==> final(self).wf(),
    {
        if !self.contains(p.as_str()) {
            let ghost before = self@;
            self.items.push(p);
            proof {
                assert(self@ =~= before.push(p@));
                if old(self).wf() {
                    assert forall|i: int, j: int| 0 <= i < j < self@.len() implies self@[i]
                        != self@[j] by {
                        if j == self@.len() - 1 {
                            assert(before.contains(before[i]));
                        }
                    }
                }
            }
        }
    }

    /// Collect names into a set, dropping duplicates.
    pub fn from_names(names: Vec<String>) -> (s: Self)
        ensures
            s.wf(),
            forall|x: Seq<char>|
                #[trigger] s@.contains(x) <==> names.deep_view().contains(x),
    {
        let ghost all = names.deep_view();
        let mut s = PermissionSet::new();
        let mut i: usize = 0;
        while i < names.len()
            invariant
                0 <= i <= all.len(),
                all.len() == names@.len(),
                all == names.deep_view(),
                s.wf(),
                forall|x: Seq<char>| #[trigger] s@.contains(x) <==> all.take(i as int).contains(x),
            decreases all.len() - i,
        {
            let ghost prev = s@;
            let name = names[i].clone();
            proof {
                assert(name@ == all[i as int]);
            }
            s.insert(name);
            proof {
                assert(all.take(i + 1) =~= all.take(i as int).push(all[i as int]));
                assert forall|x: Seq<char>| #[trigger] s@.contains(x) <==> all.take(
                    i + 1,
                ).contains(x) by {
                    lemma_contains_push(all.take(i as int), all[i as int], x);
                    if prev.contains(all[i as int]) {
                        assert(s@ == prev);
                    } else {
                        lemma_contains_push(prev, all[i as int], x);
                    }
                }
            }
            i = i + 1;
        }
        proof {
            assert(all.take(all.len() as int) =~= all);
        }
        s
    }

    /// The names, in storage order; the order carries no meaning.
    pub fn names(&self) -> (r: &Vec<String>)
        ensures
            r.deep_view() == self@,
    {
        &self.items
    }
}

/// The view of a claim set: the subject's name, the granted role names,
/// and the expiry timestamp.
pub struct ClaimsView {
    pub username: Seq<char>,
    pub permissions: Seq<Seq<char>>,
    pub exp: int,
}

impl ClaimsView {
    /// A claim set is well formed when the subject is named, the expiry is
    /// a timestamp, and no role name repeats.
    pub open spec fn wf(self) -> bool {
        &&& self.username.len() > 0
        &&& 0 <= self.exp <= i64::MAX
        &&& forall|i: int, j: int|
            0 <= i < j < self.permissions.len() ==> self.permissions[i] != self.permissions[j]
    }
}

/// The signed payload of a token: subject, permission set and expiry,
/// fixed at issuance and never changed afterwards.
#[derive(Debug)]
pub struct Claims {
    pub username: String,
    pub permissions: PermissionSet,
    pub exp: i64,
}

impl View for Claims {
    type V = ClaimsView;

    open spec fn view(&self) -> ClaimsView {
        ClaimsView {
            username: self.username@,
            permissions: self.permissions@,
            exp: self.exp as int,
        }
    }
}

/// The expiry written into a token issued at time `now`: the validity
/// window past `now`, held inside the timestamp range.
pub open spec fn spec_expiry(now: int) -> int {
    if now + TOKEN_VALIDITY_SECS <= i64::MAX {
        now + TOKEN_VALIDITY_SECS
    } else {
        i64::MAX as int
    }
}

/// Relies on std's `SystemTime::now`: the current time, as whole seconds
/// since the epoch. A clock set before the epoch reads as the epoch;
/// nothing else is assumed of the value.
#[verifier::external_body]
fn now_secs() -> u64 {
    match std::time::SystemTime::now().duration_since(std::time::UNIX_EPOCH) {
        Ok(elapsed) => elapsed.as_secs(),
        Err(_) => 0,
    }
}

/// The process clock as a timestamp, held inside the timestamp range.
pub(crate) fn current_timestamp() -> (r: i64)
    ensures
        r >= 0,
{
    let secs = now_secs();
    if secs > i64::MAX as u64 {
        i64::MAX
    } else {
        secs as i64
    }
}

impl Claims {
    /// Issue a claim set at a given time: the permission names deduplicated,
    /// the expiry the fixed validity window past `now`.
    pub fn new_at(username: String, permissions: Vec<String>, now: i64) -> (c: Claims)
        requires
            username@.len() > 0,
            now >= 0,
        ensures
            c@.wf(),
            c@.username == username@,
            forall|x: Seq<char>|
                #[trigger] c@.permissions.contains(x) <==> permissions.deep_view().contains(x),
            c@.exp == spec_expiry(now as int),
    {
        let exp: i64 = if now <= i64::MAX - TOKEN_VALIDITY_SECS {
            now + TOKEN_VALIDITY_SECS
        } else {
            i64::MAX
        };
        Claims { username, permissions: PermissionSet::from_names(permissions), exp }
    }

    /// Issue a claim set now, reading the process clock; a clock before the
    /// epoch reads as the epoch.
    pub fn new(username: String, permissions: Vec<String>) -> (c: Claims)
        requires
            username@.len() > 0,
        ensures
            c@.wf(),
            c@.username == username@,
            forall|x: Seq<char>|
                #[trigger] c@.permissions.contains(x) <==> permissions.deep_view().contains(x),
            c@.exp >= TOKEN_VALIDITY_SECS,
    {
        let now = current_timestamp();
        Claims::new_at(username, permissions, now)
    }
}

} // verus!
