//! What setup, login and permission resolution promise together.

use vstd::prelude::*;

use crate::auth::{
    admin_created, bootstrap_answer, full_name_check, grants_of, login_answer, password_check, permitted,
    username_check, utf8_len, AuthError, AuthenticatedUser,
};
use crate::db::repositories::rbac::{granted, holds_role, is_granted_key};
use crate::order::lemma_increasing_unique;
use crate::db::repositories::users::user_named;
use crate::db::{seeded_grants, seeded_permission_keys, Database};
use crate::text::{folded, texts, trim};

verus! {

/// After setup, signing in with the same password and a username that
/// trims and lowercases to the same text succeeds, as the first user:
/// the same id, username, full name and permission list.
pub proof fn law_login_after_setup(
    old: &Database,
    new: &Database,
    username: Seq<char>,
    password: Seq<char>,
    full_name: Seq<char>,
    r: Result<AuthenticatedUser, AuthError>,
    login_name: Seq<char>,
    r2: Result<AuthenticatedUser, AuthError>,
)
    requires
        old.wf(),
        new.wf(),
        bootstrap_answer(old, new, username, password, full_name, r),
        r is Ok,
        folded(trim(login_name)) == folded(trim(username)),
        login_answer(new, login_name, password, r2),
    ensures
        r2 matches Ok(u) && u.id == 1 && u.username@ == folded(trim(username)),
        r2 matches Ok(u) && u.id == r->Ok_0.id && u.username@ == r->Ok_0.username@ && u.full_name@
            == r->Ok_0.full_name@ && texts(u.permissions@) == texts(r->Ok_0.permissions@),
{
    let name = folded(trim(username));
    assert(username_check(username) == Ok::<Seq<char>, Seq<char>>(name));
    assert(new.users@[0].username@ == name);
    let c = user_named(new, name)->0;
    assert(user_named(new, name) is Some);
    assert(c == 0);
    lemma_grants_unique(new, 1, r2->Ok_0.permissions@, r->Ok_0.permissions@);
}

proof fn lemma_grant_listed(db: &Database, user_id: i64, p1: Seq<String>, p2: Seq<String>, i: int)
    requires
        is_granted_key(db, user_id, p1[i]),
        forall|j: int|
            0 <= j < db.permissions@.len() && granted(db, user_id, j) ==> exists|k: int|
                0 <= k < p2.len() && (#[trigger] p2[k])@ == db.permissions@[j].key@,
        0 <= i < p1.len(),
    ensures
        texts(p2).contains(p1[i]@),
{
    reveal(is_granted_key);
    let j = choose|j: int|
        0 <= j < db.permissions@.len() && granted(db, user_id, j) && p1[i] == #[trigger] db.permissions@[j].key;
    let k = choose|k: int| 0 <= k < p2.len() && (#[trigger] p2[k])@ == db.permissions@[j].key@;
    assert(texts(p2)[k] == p1[i]@);
}

/// Two listings of what a user is granted, each sorted without repeats,
/// hold the same texts in the same order.
pub proof fn lemma_grants_unique(db: &Database, user_id: i64, p1: Seq<String>, p2: Seq<String>)
    requires
        grants_of(db, user_id, p1),
        grants_of(db, user_id, p2),
    ensures
        texts(p1) == texts(p2),
{
    let (a, b) = (texts(p1), texts(p2));
    assert forall|x: Seq<char>| a.contains(x) <==> b.contains(x) by {
        if a.contains(x) {
            let i = choose|i: int| 0 <= i < a.len() && a[i] == x;
            assert(a[i] == p1[i]@);
            lemma_grant_listed(db, user_id, p1, p2, i);
        }
        if b.contains(x) {
            let i = choose|i: int| 0 <= i < b.len() && b[i] == x;
            assert(b[i] == p2[i]@);
            lemma_grant_listed(db, user_id, p2, p1, i);
        }
    }
    lemma_increasing_unique(a, b);
}

/// The first account holds every permission there is.
pub proof fn law_first_account_holds_every_permission(
    old: &Database,
    new: &Database,
    username: Seq<char>,
    password: Seq<char>,
    full_name: Seq<char>,
    r: Result<AuthenticatedUser, AuthError>,
)
    requires
        old.wf(),
        old.admin_holds_all(),
        new.wf(),
        bootstrap_answer(old, new, username, password, full_name, r),
        r is Ok,
    ensures
        forall|j: int|
            0 <= j < new.permissions@.len() ==> permitted(r->Ok_0, #[trigger] new.permissions@[j].key@),
{
    let au = r->Ok_0;
    let name = folded(trim(username));
    assert(username_check(username) is Ok);
    assert(holds_role(new, 1, 1));
    let a = choose|a: int| 0 <= a < new.user_roles@.len() && #[trigger] new.user_roles@[a] == (1i64, 1i64);
    assert forall|j: int| 0 <= j < new.permissions@.len() implies permitted(au, #[trigger] new.permissions@[j].key@) by {
        assert(new.permissions@ == old.permissions@);
        assert(old.admin_grants(old.permissions@[j].id));
        let b = choose|b: int|
            0 <= b < old.role_permissions@.len() && #[trigger] old.role_permissions@[b] == (1i64, old.permissions@[j].id);
        assert(new.role_permissions@[b] == (1i64, new.permissions@[j].id));
        assert(new.user_roles@[a].0 == 1 && new.role_permissions@[b].0 == new.user_roles@[a].1);
        assert(granted(new, 1, j));
        let k = choose|k: int| 0 <= k < au.permissions@.len() && (#[trigger] au.permissions@[k])@ == new.permissions@[j].key@;
        assert(au.permissions@[k]@ == new.permissions@[j].key@);
    }
}

/// Setup with valid inputs on a store without users succeeds (for any
/// password under 2^32 bytes, the limit of Argon2): it creates exactly the
/// first account, with the admin role, and answers with it.
pub proof fn law_setup_succeeds_on_an_empty_store(
    old: &Database,
    new: &Database,
    username: Seq<char>,
    password: Seq<char>,
    full_name: Seq<char>,
    r: Result<AuthenticatedUser, AuthError>,
)
    requires
        old.wf(),
        old.users@.len() == 0,
        username_check(username) is Ok,
        password_check(password) is None,
        full_name_check(full_name) is Ok,
        utf8_len(password) <= 0xFFFF_FFFF,
        bootstrap_answer(old, new, username, password, full_name, r),
    ensures
        r matches Ok(au) && admin_created(
            old,
            new,
            username_check(username)->Ok_0,
            full_name_check(full_name)->Ok_0,
            password,
            au,
        ),
{
}

/// The permissions as seeded: twelve, with the seeded keys, and the
/// seeded grants.
pub open spec fn seeded(db: &Database) -> bool {
    &&& db.permissions@.len() == 12
    &&& forall|k: int|
        0 <= k < 12 ==> #[trigger] db.permissions@[k].id == k + 1 && db.permissions@[k].key@
            == seeded_permission_keys()[k]
    &&& db.role_permissions@ == seeded_grants()
}

/// On the seeded permissions, the first account holds each seeded key,
/// `settings.manage` and `devices.manage` among them.
pub proof fn law_first_account_holds_the_seeded_keys(
    old: &Database,
    new: &Database,
    username: Seq<char>,
    password: Seq<char>,
    full_name: Seq<char>,
    r: Result<AuthenticatedUser, AuthError>,
)
    requires
        old.wf(),
        old.admin_holds_all(),
        seeded(old),
        new.wf(),
        bootstrap_answer(old, new, username, password, full_name, r),
        r is Ok,
    ensures
        forall|k: int| 0 <= k < 12 ==> permitted(r->Ok_0, #[trigger] seeded_permission_keys()[k]),
{
    law_first_account_holds_every_permission(old, new, username, password, full_name, r);
    assert(new.permissions@ == old.permissions@);
    assert forall|k: int| 0 <= k < 12 implies permitted(r->Ok_0, #[trigger] seeded_permission_keys()[k]) by {
        assert(old.permissions@[k].id == k + 1);
        assert(permitted(r->Ok_0, new.permissions@[k].key@));
    }
}

/// A user whose only role is the seeded cashier role is granted viewing
/// products and creating sales, and not creating products: any listing of
/// exactly what the user is granted shows this.
pub proof fn law_cashier_grants(db: &Database, user_id: i64, perms: Seq<String>)
    requires
        db.wf(),
        seeded(db),
        exists|a: int| 0 <= a < db.user_roles@.len() && #[trigger] db.user_roles@[a] == (user_id, 3i64),
        forall|a: int| 0 <= a < db.user_roles@.len() && (#[trigger] db.user_roles@[a]).0 == user_id ==> db.user_roles@[a].1 == 3,
        forall|k: int| 0 <= k < perms.len() ==> is_granted_key(db, user_id, #[trigger] perms[k]),
        forall|j: int|
            0 <= j < db.permissions@.len() && granted(db, user_id, j) ==> exists|k: int|
                0 <= k < perms.len() && (#[trigger] perms[k])@ == db.permissions@[j].key@,
    ensures
        exists|k: int| 0 <= k < perms.len() && (#[trigger] perms[k])@ == "products.view"@,
        exists|k: int| 0 <= k < perms.len() && (#[trigger] perms[k])@ == "sales.create"@,
        forall|k: int| 0 <= k < perms.len() ==> (#[trigger] perms[k])@ != "products.create"@,
{
    let a = choose|a: int| 0 <= a < db.user_roles@.len() && #[trigger] db.user_roles@[a] == (user_id, 3i64);
    lemma_cashier_holds(db, user_id, perms, a, 0, 22);
    lemma_cashier_holds(db, user_id, perms, a, 5, 24);
    reveal_strlit("products.view");
    reveal_strlit("sales.create");
    assert forall|k: int| 0 <= k < perms.len() implies (#[trigger] perms[k])@ != "products.create"@ by {
        lemma_cashier_lacks(db, user_id, perms, k);
    }
}

/// Permission `j` reaches a cashier through seeded grant `b`, so it is
/// listed.
proof fn lemma_cashier_holds(db: &Database, user_id: i64, perms: Seq<String>, a: int, j: int, b: int)
    requires
        seeded(db),
        0 <= a < db.user_roles@.len(),
        db.user_roles@[a] == (user_id, 3i64),
        (j == 0 && b == 22) || (j == 5 && b == 24),
        forall|j: int|
            0 <= j < db.permissions@.len() && granted(db, user_id, j) ==> exists|k: int|
                0 <= k < perms.len() && (#[trigger] perms[k])@ == db.permissions@[j].key@,
    ensures
        exists|k: int| 0 <= k < perms.len() && (#[trigger] perms[k])@ == seeded_permission_keys()[j],
{
    let g = seeded_grants();
    assert(g[22] == (3i64, 1i64) && g[24] == (3i64, 6i64));
    assert(db.role_permissions@[b] == g[b]);
    assert(db.permissions@[j].id == j + 1);
    assert(db.user_roles@[a].0 == user_id && db.role_permissions@[b].0 == db.user_roles@[a].1
        && db.role_permissions@[b].1 == db.permissions@[j].id);
    assert(granted(db, user_id, j));
    let k = choose|k: int| 0 <= k < perms.len() && (#[trigger] perms[k])@ == db.permissions@[j].key@;
    assert(perms[k]@ == seeded_permission_keys()[j]);
}

/// The seeded grants of the cashier role are permissions 1, 5 and 6.
proof fn lemma_cashier_rows(b: int)
    requires
        0 <= b < 30,
        seeded_grants()[b].0 == 3,
    ensures
        seeded_grants()[b].1 == 1 || seeded_grants()[b].1 == 5 || seeded_grants()[b].1 == 6,
{
    let g = seeded_grants();
    if b == 0 {
        assert(g[0] == g[b]);
    } else if b == 1 {
        assert(g[1] == g[b]);
    } else if b == 2 {
        assert(g[2] == g[b]);
    } else if b == 3 {
        assert(g[3] == g[b]);
    } else if b == 4 {
        assert(g[4] == g[b]);
    } else if b == 5 {
        assert(g[5] == g[b]);
    } else if b == 6 {
        assert(g[6] == g[b]);
    } else if b == 7 {
        assert(g[7] == g[b]);
    } else if b == 8 {
        assert(g[8] == g[b]);
    } else if b == 9 {
        assert(g[9] == g[b]);
    } else if b == 10 {
        assert(g[10] == g[b]);
    } else if b == 11 {
        assert(g[11] == g[b]);
    } else if b == 12 {
        assert(g[12] == g[b]);
    } else if b == 13 {
        assert(g[13] == g[b]);
    } else if b == 14 {
        assert(g[14] == g[b]);
    } else if b == 15 {
        assert(g[15] == g[b]);
    } else if b == 16 {
        assert(g[16] == g[b]);
    } else if b == 17 {
        assert(g[17] == g[b]);
    } else if b == 18 {
        assert(g[18] == g[b]);
    } else if b == 19 {
        assert(g[19] == g[b]);
    } else if b == 20 {
        assert(g[20] == g[b]);
    } else if b == 21 {
        assert(g[21] == g[b]);
    } else if b == 22 {
        assert(g[22] == g[b]);
    } else if b == 23 {
        assert(g[23] == g[b]);
    } else if b == 24 {
        assert(g[24] == g[b]);
    } else if b == 25 {
        assert(g[25] == g[b]);
    } else if b == 26 {
        assert(g[26] == g[b]);
    } else if b == 27 {
        assert(g[27] == g[b]);
    } else if b == 28 {
        assert(g[28] == g[b]);
    } else if b == 29 {
        assert(g[29] == g[b]);
    }
}

/// What a cashier is granted is never `products.create`.
proof fn lemma_cashier_lacks(db: &Database, user_id: i64, perms: Seq<String>, k: int)
    requires
        seeded(db),
        forall|a: int| 0 <= a < db.user_roles@.len() && (#[trigger] db.user_roles@[a]).0 == user_id ==> db.user_roles@[a].1 == 3,
        0 <= k < perms.len(),
        is_granted_key(db, user_id, perms[k]),
    ensures
        perms[k]@ != "products.create"@,
{
    let g = seeded_grants();
    reveal(is_granted_key);
    let j = choose|j: int|
        0 <= j < db.permissions@.len() && granted(db, user_id, j) && perms[k] == #[trigger] db.permissions@[j].key;
    let (x, b) = choose|x: int, b: int|
        0 <= x < db.user_roles@.len() && 0 <= b < db.role_permissions@.len() && #[trigger] db.user_roles@[x].0
            == user_id && #[trigger] db.role_permissions@[b].0 == db.user_roles@[x].1
            && db.role_permissions@[b].1 == db.permissions@[j].id;
    assert(db.user_roles@[x].1 == 3);
    assert(db.role_permissions@[b] == g[b]);
    lemma_cashier_rows(b);
    assert(db.permissions@[j].id == j + 1);
    assert(j == 0 || j == 4 || j == 5);
    assert(db.permissions@[j].key@ == seeded_permission_keys()[j]);
    assert(perms[k]@ == seeded_permission_keys()[j]);
    reveal_strlit("products.view");
    reveal_strlit("sales.view");
    reveal_strlit("sales.create");
    reveal_strlit("products.create");
    assert("products.create"@.len() == 15);
    if j == 0 {
        assert(seeded_permission_keys()[0] == "products.view"@);
        assert("products.view"@.len() == 13);
    } else if j == 4 {
        assert(seeded_permission_keys()[4] == "sales.view"@);
        assert("sales.view"@.len() == 10);
    } else {
        assert(seeded_permission_keys()[5] == "sales.create"@);
        assert("sales.create"@.len() == 12);
    }
}

} // verus!
