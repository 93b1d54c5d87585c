use vstd::prelude::*;

use crate::db::{constraint, valid_id, Database, DbError, Table};

verus! {

/// The first role with this name, if any.
pub open spec fn role_named(db: &Database, name: Seq<char>) -> Option<int> {
    if exists|j: int| 0 <= j < db.roles@.len() && #[trigger] db.roles@[j].name@ == name {
        Some(
            choose|j: int|
                0 <= j < db.roles@.len() && #[trigger] db.roles@[j].name@ == name && forall|t: int|
                    0 <= t < j ==> db.roles@[t].name@ != name,
        )
    } else {
        None
    }
}

/// The id of the role with this name, if any.
pub fn role_id_by_name(db: &Database, name: &str) -> (r: Option<i64>)
    requires
        db.wf(),
    ensures
        r == (match role_named(db, name@) {
            Some(j) => Some(db.roles@[j].id),
            None => None,
        }),
{
    let target = name.to_owned();
    let mut j: usize = 0;
    while j < db.roles.len()
        invariant
            j <= db.roles.len(),
            target@ == name@,
            forall|t: int| 0 <= t < j ==> #[trigger] db.roles@[t].name@ != name@,
        decreases db.roles.len() - j,
    {
        if db.roles[j].name == target {
            proof {
                let c = choose|c: int|
                    0 <= c < db.roles@.len() && #[trigger] db.roles@[c].name@ == name@ && forall|t: int|
                        0 <= t < c ==> db.roles@[t].name@ != name@;
                assert(c == j);
            }
            return Some(db.roles[j].id);
        }
        j = j + 1;
    }
    None
}

/// The user holds the role.
pub open spec fn holds_role(db: &Database, user_id: i64, role_id: i64) -> bool {
    exists|i: int| 0 <= i < db.user_roles@.len() && #[trigger] db.user_roles@[i] == (user_id, role_id)
}

fn find_pair(db: &Database, user_id: i64, role_id: i64) -> (b: bool)
    ensures
        b == holds_role(db, user_id, role_id),
{
    let mut i: usize = 0;
    while i < db.user_roles.len()
        invariant
            i <= db.user_roles.len(),
            forall|t: int| 0 <= t < i ==> #[trigger] db.user_roles@[t] != (user_id, role_id),
        decreases db.user_roles.len() - i,
    {
        let (u, rr) = db.user_roles[i];
        if u == user_id && rr == role_id {
            assert(db.user_roles@[i as int] == (user_id, role_id));
            return true;
        }
        i = i + 1;
    }
    false
}

/// Gives user `user_id` role `role_id`: both must exist; a role already
/// held is left as it is.
pub fn assign_role(db: &mut Database, user_id: i64, role_id: i64) -> (r: Result<(), DbError>)
    requires
        old(db).wf(),
    ensures
        final(db).wf(),
        old(db).agrees_outside(final(db), set![Table::UserRoles]),
        !(valid_id(user_id, old(db).users@.len()) && valid_id(role_id, old(db).roles@.len())) ==> {
            &&& r matches Err(DbError::Constraint(m))
            &&& m@ == "FOREIGN KEY constraint failed"@
            &&& final(db).user_roles@ == old(db).user_roles@
        },
        valid_id(user_id, old(db).users@.len()) && valid_id(role_id, old(db).roles@.len()) ==> {
            &&& r is Ok
            &&& holds_role(old(db), user_id, role_id) ==> final(db).user_roles@ == old(db).user_roles@
            &&& !holds_role(old(db), user_id, role_id) ==> final(db).user_roles@ == old(db).user_roles@.push(
                (user_id, role_id),
            )
        },
{
    if user_id < 1 || user_id as u64 > db.users.len() as u64 || role_id < 1 || role_id as u64
        > db.roles.len() as u64 {
        return Err(constraint("FOREIGN KEY constraint failed"));
    }
    if find_pair(db, user_id, role_id) {
        return Ok(());
    }
    db.user_roles.push((user_id, role_id));
    Ok(())
}

/// Permission row `j` reaches the user through one of the user's roles.
pub open spec fn granted(db: &Database, user_id: i64, j: int) -> bool {
    exists|a: int, b: int|
        0 <= a < db.user_roles@.len() && 0 <= b < db.role_permissions@.len() && #[trigger] db.user_roles@[a].0
            == user_id && #[trigger] db.role_permissions@[b].0 == db.user_roles@[a].1
            && db.role_permissions@[b].1 == db.permissions@[j].id
}

fn is_granted(db: &Database, user_id: i64, j: usize) -> (b: bool)
    requires
        j < db.permissions@.len(),
    ensures
        b == granted(db, user_id, j as int),
{
    let pid = db.permissions[j].id;
    let mut a: usize = 0;
    while a < db.user_roles.len()
        invariant
            j < db.permissions@.len(),
            pid == db.permissions@[j as int].id,
            a <= db.user_roles.len(),
            forall|x: int, y: int|
                0 <= x < a && 0 <= y < db.role_permissions@.len() ==> !(#[trigger] db.user_roles@[x].0 == user_id
                    && #[trigger] db.role_permissions@[y].0 == db.user_roles@[x].1 && db.role_permissions@[y].1
                    == pid),
        decreases db.user_roles.len() - a,
    {
        let (u, role) = db.user_roles[a];
        if u == user_id {
            let mut b: usize = 0;
            while b < db.role_permissions.len()
                invariant
                    a < db.user_roles.len(),
                    db.user_roles@[a as int] == (u, role),
                    u == user_id,
                    pid == db.permissions@[j as int].id,
                    b <= db.role_permissions.len(),
                    forall|y: int|
                        0 <= y < b ==> !(#[trigger] db.role_permissions@[y].0 == role && db.role_permissions@[y].1
                            == pid),
                decreases db.role_permissions.len() - b,
            {
                let (r2, p2) = db.role_permissions[b];
                if r2 == role && p2 == pid {
                    assert(db.user_roles@[a as int].0 == user_id && db.role_permissions@[b as int].0
                        == db.user_roles@[a as int].1);
                    return true;
                }
                b = b + 1;
            }
        }
        a = a + 1;
    }
    false
}

/// `key` is the key of a permission the user is granted.
#[verifier::opaque]
pub open spec fn is_granted_key(db: &Database, user_id: i64, key: String) -> bool {
    exists|j: int| 0 <= j < db.permissions@.len() && granted(db, user_id, j) && key == #[trigger] db.permissions@[j].key
}

/// The union of the permission keys of every role the user holds, each
/// once.
pub fn permissions_for_user(db: &Database, user_id: i64) -> (keys: Vec<String>)
    requires
        db.wf(),
    ensures
        forall|k: int| 0 <= k < keys@.len() ==> is_granted_key(db, user_id, #[trigger] keys@[k]),
        forall|j: int|
            0 <= j < db.permissions@.len() && granted(db, user_id, j) ==> exists|k: int|
                0 <= k < keys@.len() && (#[trigger] keys@[k])@ == db.permissions@[j].key@,
        forall|a: int, b: int| 0 <= a < b < keys@.len() ==> (#[trigger] keys@[a])@ != (#[trigger] keys@[b])@,
{
    let mut keys: Vec<String> = Vec::new();
    let ghost mut src: Seq<int> = Seq::empty();
    let ghost mut hit: Seq<int> = Seq::empty();
    let mut j: usize = 0;
    while j < db.permissions.len()
        invariant
            j <= db.permissions.len(),
            src.len() == keys@.len(),
            forall|k: int|
                0 <= k < keys@.len() ==> 0 <= #[trigger] src[k] < j && granted(db, user_id, src[k]) && keys@[k]
                    == db.permissions@[src[k]].key,
            hit.len() == j,
            forall|t: int|
                0 <= t < j && granted(db, user_id, t) ==> 0 <= #[trigger] hit[t] < keys@.len() && keys@[hit[t]]@
                    == db.permissions@[t].key@,
            forall|a: int, b: int| 0 <= a < b < keys@.len() ==> (#[trigger] keys@[a])@ != (#[trigger] keys@[b])@,
        decreases db.permissions.len() - j,
    {
        let mut at: usize = keys.len();
        if is_granted(db, user_id, j) {
            let key = &db.permissions[j].key;
            let mut k: usize = 0;
            while k < keys.len()
                invariant_except_break
                    at == keys.len(),
                invariant
                    k <= keys.len(),
                    forall|t: int| 0 <= t < k ==> (#[trigger] keys@[t])@ != key@,
                ensures
                    at < keys.len() ==> keys@[at as int]@ == key@,
                    at == keys.len() ==> forall|t: int| 0 <= t < keys.len() ==> (#[trigger] keys@[t])@ != key@,
                    at <= keys.len(),
                decreases keys.len() - k,
            {
                if keys[k] == *key {
                    at = k;
                    break;
                }
                k = k + 1;
            }
            if at == keys.len() {
                keys.push(key.clone());
                proof {
                    src = src.push(j as int);
                }
            }
        }
        proof {
            hit = hit.push(at as int);
        }
        j = j + 1;
    }
    proof {
        reveal(is_granted_key);
        assert forall|k: int| 0 <= k < keys@.len() implies is_granted_key(db, user_id, #[trigger] keys@[k]) by {
            let w = src[k];
            assert(0 <= w < db.permissions@.len() && granted(db, user_id, w) && keys@[k] == db.permissions@[w].key);
        }
        assert forall|j: int| 0 <= j < db.permissions@.len() && granted(db, user_id, j) implies exists|k: int|
            0 <= k < keys@.len() && (#[trigger] keys@[k])@ == db.permissions@[j].key@ by {
            assert(keys@[hit[j]]@ == db.permissions@[j].key@);
        }
    }
    keys
}

} // verus!
