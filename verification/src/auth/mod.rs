//! Authentication and permission resolution: who is signed in and what
//! they may do. Every protected operation checks through these functions.
//! Setup creates the first account (there is no built-in default
//! credential), and a failed login looks the same whether the username is
//! unknown or the password wrong.

pub mod password;
pub mod laws;

use vstd::prelude::*;

use crate::auth::password::{hash_password, password_matches, verify_password};
use crate::db::repositories::rbac::{granted, holds_role, is_granted_key, permissions_for_user, role_id_by_name};
use crate::db::repositories::users::{self, user_named};
use crate::db::{Database, DbError, Table};
use crate::order::{lex_increasing, lex_lt, lemma_lex_irreflexive, key_pos_lt, sort_positions, sorts_by_key};
use crate::text::{chars_of, folded, owned, texts, to_lowercase, trim, trim_str};

verus! {

#[derive(Debug)]
pub enum AuthError {
    InvalidCredentials,
    AccountDisabled,
    NotAuthenticated,
    Forbidden,
    AlreadySetUp,
    Validation(String),
    Internal,
    Db(DbError),
}

/// A signed-in user with the permission keys their roles grant, sorted.
#[derive(Debug, Clone)]
pub struct AuthenticatedUser {
    pub id: i64,
    pub username: String,
    pub full_name: String,
    pub permissions: Vec<String>,
}

/// The desktop's one active session: the signed-in user, if any.
pub struct AuthState(pub Option<AuthenticatedUser>);

impl Default for AuthState {
    fn default() -> (s: AuthState)
        ensures
            s.0 is None,
    {
        AuthState(None)
    }
}

/// `b` is a copy of `a`.
pub open spec fn same_user(a: AuthenticatedUser, b: AuthenticatedUser) -> bool {
    &&& b.id == a.id
    &&& b.username == a.username
    &&& b.full_name == a.full_name
    &&& b.permissions@ == a.permissions@
}

fn copy_user(u: &AuthenticatedUser) -> (r: AuthenticatedUser)
    ensures
        same_user(*u, r),
{
    let mut permissions: Vec<String> = Vec::new();
    let mut i: usize = 0;
    while i < u.permissions.len()
        invariant
            i <= u.permissions@.len(),
            permissions@ == u.permissions@.take(i as int),
        decreases u.permissions@.len() - i,
    {
        permissions.push(u.permissions[i].clone());
        i = i + 1;
        assert(permissions@ =~= u.permissions@.take(i as int));
    }
    assert(u.permissions@.take(u.permissions@.len() as int) =~= u.permissions@);
    AuthenticatedUser {
        id: u.id,
        username: u.username.clone(),
        full_name: u.full_name.clone(),
        permissions,
    }
}

// ---------------------------------------------------------------------
// Permissions

/// `out` is `values` ordered by text (`String`'s order: code point by code
/// point), ties in their original order.
pub open spec fn sorted_from(values: Seq<String>, out: Seq<String>) -> bool {
    exists|idx: Seq<usize>| #[trigger] sort_witness(values, out, idx)
}

/// The values, sorted.
pub fn sorted(values: Vec<String>) -> (r: Vec<String>)
    ensures
        sorted_from(values@, r@),
{
    let mut keys: Vec<Vec<char>> = Vec::new();
    let mut i: usize = 0;
    while i < values.len()
        invariant
            i <= values@.len(),
            keys@.len() == i,
            forall|t: int| 0 <= t < i ==> (#[trigger] keys@[t])@ == values@[t]@,
        decreases values@.len() - i,
    {
        keys.push(chars_of(values[i].as_str()));
        i = i + 1;
    }
    assert(keys@.map_values(|k: Vec<char>| k@) =~= texts(values@));
    let idx = sort_positions(&keys);
    let mut out: Vec<String> = Vec::new();
    let mut k: usize = 0;
    while k < idx.len()
        invariant
            k <= idx@.len(),
            idx@.len() == values@.len(),
            forall|a: int| 0 <= a < idx@.len() ==> #[trigger] idx@[a] < values@.len(),
            out@.len() == k,
            forall|a: int| 0 <= a < k ==> #[trigger] out@[a] == values@[idx@[a] as int],
        decreases idx@.len() - k,
    {
        out.push(values[idx[k]].clone());
        k = k + 1;
    }
    assert(sort_witness(values@, out@, idx@));
    out
}

/// `perms` are the keys of the permissions the user's roles grant, each
/// once, in increasing order.
pub open spec fn grants_of(db: &Database, user_id: i64, perms: Seq<String>) -> bool {
    &&& forall|k: int| 0 <= k < perms.len() ==> is_granted_key(db, user_id, #[trigger] perms[k])
    &&& forall|j: int|
        0 <= j < db.permissions@.len() && granted(db, user_id, j) ==> exists|k: int|
            0 <= k < perms.len() && (#[trigger] perms[k])@ == db.permissions@[j].key@
    &&& lex_increasing(texts(perms))
}

/// The listing behind `sorted_from`.
pub open spec fn sort_witness(values: Seq<String>, out: Seq<String>, idx: Seq<usize>) -> bool {
    &&& sorts_by_key(idx, texts(values))
    &&& forall|j: usize| j < values.len() ==> idx.contains(j)
    &&& out.len() == idx.len()
    &&& forall|k: int| 0 <= k < out.len() ==> out[k] == values[idx[k] as int]
}

proof fn lemma_sorted_members(values: Seq<String>, out: Seq<String>, idx: Seq<usize>, v: String)
    requires
        sort_witness(values, out, idx),
        values.len() <= usize::MAX,
        values.contains(v),
    ensures
        out.contains(v),
{
    let w = choose|w: int| 0 <= w < values.len() && values[w] == v;
    assert(idx.contains(w as usize));
    let k = choose|k: int| 0 <= k < idx.len() && idx[k] == w as usize;
    assert(out[k] == values[idx[k] as int]);
}

proof fn lemma_sorted_strict(values: Seq<String>, out: Seq<String>, idx: Seq<usize>)
    requires
        sort_witness(values, out, idx),
        forall|a: int, b: int| 0 <= a < b < values.len() ==> (#[trigger] values[a])@ != (#[trigger] values[b])@,
    ensures
        forall|a: int, b: int| 0 <= a < b < out.len() ==> lex_lt((#[trigger] out[a])@, (#[trigger] out[b])@),
{
    let ks = texts(values);
    assert forall|a: int, b: int| 0 <= a < b < out.len() implies lex_lt((#[trigger] out[a])@, (#[trigger] out[b])@) by {
        let (ia, ib) = (idx[a] as int, idx[b] as int);
        assert(key_pos_lt(ks, ia, ib));
        assert(ks[ia] == values[ia]@ && ks[ib] == values[ib]@);
        assert(out[a] == values[ia] && out[b] == values[ib]);
        if ks[ia] == ks[ib] {
            lemma_lex_irreflexive(ks[ia]);
            assert(ia < ib);
            assert(values[ia]@ != values[ib]@);
        }
    }
}

proof fn lemma_sorted_granted(db: &Database, user_id: i64, keys: Seq<String>, out: Seq<String>, idx: Seq<usize>)
    requires
        sort_witness(keys, out, idx),
        forall|k: int| 0 <= k < keys.len() ==> is_granted_key(db, user_id, #[trigger] keys[k]),
    ensures
        forall|k: int| 0 <= k < out.len() ==> is_granted_key(db, user_id, #[trigger] out[k]),
{
    assert forall|k: int| 0 <= k < out.len() implies is_granted_key(db, user_id, #[trigger] out[k]) by {
        assert(idx[k] < keys.len());
        assert(out[k] == keys[idx[k] as int]);
    }
}

proof fn lemma_sorted_covers(db: &Database, user_id: i64, keys: Seq<String>, out: Seq<String>, idx: Seq<usize>)
    requires
        keys.len() <= usize::MAX,
        sort_witness(keys, out, idx),
        forall|j: int|
            0 <= j < db.permissions@.len() && granted(db, user_id, j) ==> exists|k: int|
                0 <= k < keys.len() && (#[trigger] keys[k])@ == db.permissions@[j].key@,
    ensures
        forall|j: int|
            0 <= j < db.permissions@.len() && granted(db, user_id, j) ==> exists|k: int|
                0 <= k < out.len() && (#[trigger] out[k])@ == db.permissions@[j].key@,
{
    assert forall|j: int| 0 <= j < db.permissions@.len() && granted(db, user_id, j) implies exists|k: int|
        0 <= k < out.len() && (#[trigger] out[k])@ == db.permissions@[j].key@ by {
        let w = choose|w: int| 0 <= w < keys.len() && (#[trigger] keys[w])@ == db.permissions@[j].key@;
        assert(keys.contains(keys[w]));
        lemma_sorted_members(keys, out, idx, keys[w]);
        let k = choose|k: int| 0 <= k < out.len() && out[k] == keys[w];
        assert(out[k]@ == db.permissions@[j].key@);
    }
}

proof fn lemma_sorted_grants(db: &Database, user_id: i64, keys: Seq<String>, out: Seq<String>)
    requires
        keys.len() <= usize::MAX,
        forall|k: int| 0 <= k < keys.len() ==> is_granted_key(db, user_id, #[trigger] keys[k]),
        forall|j: int|
            0 <= j < db.permissions@.len() && granted(db, user_id, j) ==> exists|k: int|
                0 <= k < keys.len() && (#[trigger] keys[k])@ == db.permissions@[j].key@,
        forall|a: int, b: int| 0 <= a < b < keys.len() ==> (#[trigger] keys[a])@ != (#[trigger] keys[b])@,
        sorted_from(keys, out),
    ensures
        grants_of(db, user_id, out),
{
    let idx = choose|idx: Seq<usize>| #[trigger] sort_witness(keys, out, idx);
    lemma_sorted_granted(db, user_id, keys, out, idx);
    lemma_sorted_covers(db, user_id, keys, out, idx);
    lemma_sorted_strict(keys, out, idx);
    reveal(lex_increasing);
    let t = texts(out);
    assert forall|a: int, b: int| 0 <= a < b < t.len() implies lex_lt(#[trigger] t[a], #[trigger] t[b]) by {
        assert(lex_lt(out[a]@, out[b]@));
    }
}

/// The sorted permission keys of a user.
fn resolve_permissions(db: &Database, user_id: i64) -> (r: Vec<String>)
    requires
        db.wf(),
    ensures
        grants_of(db, user_id, r@),
{
    let keys = permissions_for_user(db, user_id);
    let out = sorted(keys);
    proof {
        assert(keys.len() == keys@.len());
        lemma_sorted_grants(db, user_id, keys@, out@);
    }
    out
}

/// The user holds permission `key`.
pub open spec fn permitted(user: AuthenticatedUser, key: Seq<char>) -> bool {
    exists|i: int| 0 <= i < user.permissions@.len() && (#[trigger] user.permissions@[i])@ == key
}

pub fn has_permission(user: &AuthenticatedUser, key: &str) -> (b: bool)
    ensures
        b == permitted(*user, key@),
{
    let target = owned(key);
    let mut i: usize = 0;
    while i < user.permissions.len()
        invariant
            i <= user.permissions@.len(),
            target@ == key@,
            forall|t: int| 0 <= t < i ==> (#[trigger] user.permissions@[t])@ != key@,
        decreases user.permissions@.len() - i,
    {
        if user.permissions[i] == target {
            return true;
        }
        i = i + 1;
    }
    false
}

pub fn require_permission(user: &AuthenticatedUser, key: &str) -> (r: Result<(), AuthError>)
    ensures
        permitted(*user, key@) <==> r is Ok,
        !permitted(*user, key@) ==> r matches Err(AuthError::Forbidden),
{
    if has_permission(user, key) {
        Ok(())
    } else {
        Err(AuthError::Forbidden)
    }
}

/// The check every protected operation makes first: someone is signed in
/// and holds `key`. Returns that user.
pub fn require_permission_for(state: &AuthState, key: &str) -> (r: Result<AuthenticatedUser, AuthError>)
    ensures
        match state.0 {
            None => r matches Err(AuthError::NotAuthenticated),
            Some(u) => if permitted(u, key@) {
                r matches Ok(v) && same_user(u, v)
            } else {
                r matches Err(AuthError::Forbidden)
            },
        },
{
    let user = match &state.0 {
        Some(u) => copy_user(u),
        None => {
            return Err(AuthError::NotAuthenticated);
        },
    };
    match require_permission(&user, key) {
        Ok(()) => Ok(user),
        Err(e) => Err(e),
    }
}

// ---------------------------------------------------------------------
// Validation

/// The number of bytes of `c` in UTF-8.
pub open spec fn utf8_width(c: char) -> nat {
    if (c as u32) < 0x80 {
        1
    } else if (c as u32) < 0x800 {
        2
    } else if (c as u32) < 0x10000 {
        3
    } else {
        4
    }
}

/// The number of bytes of `s` in UTF-8 (what `str::len` reports).
pub open spec fn utf8_len(s: Seq<char>) -> nat
    decreases s.len(),
{
    if s.len() == 0 {
        0
    } else {
        utf8_len(s.drop_last()) + utf8_width(s.last())
    }
}

proof fn lemma_utf8_len_prefix(s: Seq<char>, k: int)
    requires
        0 <= k <= s.len(),
    ensures
        utf8_len(s.take(k)) <= utf8_len(s),
    decreases s.len(),
{
    if k < s.len() {
        assert(s.drop_last().take(k) =~= s.take(k));
        lemma_utf8_len_prefix(s.drop_last(), k);
    } else {
        assert(s.take(k) =~= s);
    }
}

/// `utf8_len(s)`, or `cap` when that is larger.
fn utf8_len_capped(s: &str, cap: u64) -> (n: u64)
    requires
        0 < cap < 0x1_0000_0000,
    ensures
        n == (if utf8_len(s@) < cap {
            utf8_len(s@)
        } else {
            cap as nat
        }),
{
    let cs = chars_of(s);
    let mut acc: u64 = 0;
    let mut i: usize = 0;
    while i < cs.len()
        invariant
            i <= cs@.len(),
            cs@ == s@,
            0 < cap < 0x1_0000_0000,
            acc == utf8_len(cs@.take(i as int)),
            acc < cap,
        decreases cs@.len() - i,
    {
        let c = cs[i];
        let u = c as u32;
        let w: u64 = if u < 0x80 {
            1
        } else if u < 0x800 {
            2
        } else if u < 0x10000 {
            3
        } else {
            4
        };
        assert(cs@.take(i + 1).drop_last() =~= cs@.take(i as int));
        acc = acc + w;
        i = i + 1;
        if acc >= cap {
            proof {
                lemma_utf8_len_prefix(cs@, i as int);
            }
            return cap;
        }
    }
    assert(cs@.take(cs@.len() as int) =~= cs@);
    acc
}

pub open spec fn is_username_char(c: char) -> bool {
    ('a' <= c && c <= 'z') || ('A' <= c && c <= 'Z') || ('0' <= c && c <= '9') || c == '_' || c == '.' || c == '-'
}

/// A username as stored: trimmed, then lowercased; 3 to 50 bytes of UTF-8
/// made of ASCII letters, digits, `.`, `_` and `-`. `Err` holds the message.
pub open spec fn username_check(raw: Seq<char>) -> Result<Seq<char>, Seq<char>> {
    let t = folded(trim(raw));
    let n = utf8_len(t);
    if n < 3 || n > 50 {
        Err("Username must be between 3 and 50 characters"@)
    } else if exists|i: int| 0 <= i < t.len() && !is_username_char(#[trigger] t[i]) {
        Err("Username may only contain letters, numbers, '.', '_', and '-'"@)
    } else {
        Ok(t)
    }
}

/// A password must be at least 8 bytes of UTF-8.
pub open spec fn password_check(p: Seq<char>) -> Option<Seq<char>> {
    if utf8_len(p) < 8 {
        Some("Password must be at least 8 characters"@)
    } else {
        None
    }
}

/// A full name as stored: trimmed, 1 to 100 characters.
pub open spec fn full_name_check(raw: Seq<char>) -> Result<Seq<char>, Seq<char>> {
    let t = trim(raw);
    if t.len() == 0 || t.len() > 100 {
        Err("Full name must be between 1 and 100 characters"@)
    } else {
        Ok(t)
    }
}

fn is_username_char_exec(c: char) -> (b: bool)
    ensures
        b == is_username_char(c),
{
    ('a' <= c && c <= 'z') || ('A' <= c && c <= 'Z') || ('0' <= c && c <= '9') || c == '_' || c == '.' || c == '-'
}

fn all_username_chars(s: &str) -> (b: bool)
    ensures
        b == forall|i: int| 0 <= i < s@.len() ==> is_username_char(#[trigger] s@[i]),
{
    let cs = chars_of(s);
    let mut i: usize = 0;
    while i < cs.len()
        invariant
            i <= cs@.len(),
            cs@ == s@,
            forall|t: int| 0 <= t < i ==> is_username_char(#[trigger] cs@[t]),
        decreases cs@.len() - i,
    {
        if !is_username_char_exec(cs[i]) {
            return false;
        }
        i = i + 1;
    }
    true
}

pub fn validate_username(username: &str) -> (r: Result<String, AuthError>)
    ensures
        match username_check(username@) {
            Ok(t) => r matches Ok(s) && s@ == t,
            Err(m) => r matches Err(AuthError::Validation(x)) && x@ == m,
        },
{
    let trimmed = to_lowercase(trim_str(username));
    let n = utf8_len_capped(trimmed.as_str(), 51);
    if n < 3 || n > 50 {
        return Err(AuthError::Validation(owned("Username must be between 3 and 50 characters")));
    }
    if !all_username_chars(trimmed.as_str()) {
        return Err(
            AuthError::Validation(owned("Username may only contain letters, numbers, '.', '_', and '-'")),
        );
    }
    Ok(trimmed)
}

pub fn validate_password(password: &str) -> (r: Result<(), AuthError>)
    ensures
        match password_check(password@) {
            Some(m) => r matches Err(AuthError::Validation(x)) && x@ == m,
            None => r is Ok,
        },
{
    if utf8_len_capped(password, 8) < 8 {
        return Err(AuthError::Validation(owned("Password must be at least 8 characters")));
    }
    Ok(())
}

pub fn validate_full_name(full_name: &str) -> (r: Result<String, AuthError>)
    ensures
        match full_name_check(full_name@) {
            Ok(t) => r matches Ok(s) && s@ == t,
            Err(m) => r matches Err(AuthError::Validation(x)) && x@ == m,
        },
{
    let trimmed = trim_str(full_name);
    let n = trimmed.unicode_len();
    if n == 0 || n > 100 {
        return Err(AuthError::Validation(owned("Full name must be between 1 and 100 characters")));
    }
    Ok(owned(trimmed))
}

// ---------------------------------------------------------------------
// Setup and login

pub fn needs_setup(db: &Database) -> (r: Result<bool, AuthError>)
    requires
        db.wf(),
    ensures
        r matches Ok(b) && b == (db.users@.len() == 0),
{
    Ok(users::count(db) == 0)
}

/// `new` is `old` with the first account: user 1, active, with the given
/// username and full name and a password hash that `password` matches,
/// holding the `admin` role (seeded as role 1); `au` is that user with its
/// permissions.
pub open spec fn admin_created(
    old: &Database,
    new: &Database,
    name: Seq<char>,
    fname: Seq<char>,
    password: Seq<char>,
    au: AuthenticatedUser,
) -> bool {
    let u = new.users@[0];
    &&& new.users@.len() == 1
    &&& u.id == 1
    &&& u.username@ == name
    &&& u.full_name@ == fname
    &&& u.is_active
    &&& password_matches(password, u.password_hash@)
    &&& holds_role(new, 1, 1)
    &&& (new.user_roles@ == old.user_roles@ || new.user_roles@ == old.user_roles@.push((1i64, 1i64)))
    &&& old.agrees_outside(new, set![Table::Users, Table::UserRoles])
    &&& au.id == 1
    &&& au.username@ == name
    &&& au.full_name@ == fname
    &&& grants_of(new, 1, au.permissions@)
}

/// The answer to setup: the inputs must be valid and no user may exist yet;
/// then the first account is created. Only a password of 2^32 bytes or
/// more can make hashing fail, which is answered with `Internal`.
pub open spec fn bootstrap_answer(
    old: &Database,
    new: &Database,
    username: Seq<char>,
    password: Seq<char>,
    full_name: Seq<char>,
    r: Result<AuthenticatedUser, AuthError>,
) -> bool {
    match username_check(username) {
        Err(m) => (r matches Err(AuthError::Validation(x)) && x@ == m) && old.same_tables(new),
        Ok(name) => match password_check(password) {
            Some(m) => (r matches Err(AuthError::Validation(x)) && x@ == m) && old.same_tables(new),
            None => match full_name_check(full_name) {
                Err(m) => (r matches Err(AuthError::Validation(x)) && x@ == m) && old.same_tables(new),
                Ok(fname) => if old.users@.len() > 0 {
                    r matches Err(AuthError::AlreadySetUp) && old.same_tables(new)
                } else if utf8_len(password) <= 0xFFFF_FFFF {
                    r matches Ok(au) && admin_created(old, new, name, fname, password, au)
                } else {
                    (r matches Err(AuthError::Internal) && old.same_tables(new)) || (r matches Ok(au)
                        && admin_created(old, new, name, fname, password, au))
                },
            },
        },
    }
}

/// Creates the first user account with the `admin` role (see
/// `bootstrap_answer`).
pub fn bootstrap_admin(db: &mut Database, username: &str, password: &str, full_name: &str) -> (r: Result<
    AuthenticatedUser,
    AuthError,
>)
    requires
        old(db).wf(),
    ensures
        final(db).wf(),
        bootstrap_answer(old(db), final(db), username@, password@, full_name@, r),
{
    let username = match validate_username(username) {
        Ok(u) => u,
        Err(e) => {
            return Err(e);
        },
    };
    match validate_password(password) {
        Ok(()) => {},
        Err(e) => {
            return Err(e);
        },
    }
    let full_name = match validate_full_name(full_name) {
        Ok(f) => f,
        Err(e) => {
            return Err(e);
        },
    };
    if users::count(db) > 0 {
        return Err(AuthError::AlreadySetUp);
    }
    let password_hash = match hash_password(password) {
        Ok(h) => h,
        Err(_) => {
            return Err(AuthError::Internal);
        },
    };
    let ghost db0 = *db;
    let user_id = match users::insert(db, username.as_str(), password_hash.as_str(), full_name.as_str()) {
        Ok(id) => id,
        Err(e) => {
            return Err(AuthError::Db(e));
        },
    };
    proof {
        reveal_strlit("admin");
        assert(db.roles@[0].name@ == "admin"@);
    }
    let admin_role_id = match role_id_by_name(db, "admin") {
        Some(id) => id,
        None => {
            return Err(AuthError::Internal);
        },
    };
    proof {
        let c = crate::db::repositories::rbac::role_named(db, "admin"@)->0;
        assert(c == 0);
    }
    let ghost db1 = *db;
    match crate::db::repositories::rbac::assign_role(db, user_id, admin_role_id) {
        Ok(()) => {},
        Err(e) => {
            return Err(AuthError::Db(e));
        },
    }
    let permissions = resolve_permissions(db, user_id);
    proof {
        if !holds_role(&db1, 1, 1) {
            assert(db.user_roles@[db.user_roles@.len() - 1] == (1i64, 1i64));
        }
    }
    Ok(AuthenticatedUser { id: user_id, username, full_name, permissions })
}

/// The answer to a login: the user named by the trimmed, lowercased
/// username must exist and the password match its hash (otherwise the
/// same `InvalidCredentials` either way), and the account must be active.
pub open spec fn login_answer(
    db: &Database,
    username: Seq<char>,
    password: Seq<char>,
    r: Result<AuthenticatedUser, AuthError>,
) -> bool {
    match user_named(db, folded(trim(username))) {
        None => r matches Err(AuthError::InvalidCredentials),
        Some(j) => {
            let u = db.users@[j];
            if !password_matches(password, u.password_hash@) {
                r matches Err(AuthError::InvalidCredentials)
            } else if !u.is_active {
                r matches Err(AuthError::AccountDisabled)
            } else {
                r matches Ok(au) && au.id == u.id && au.username == u.username && au.full_name == u.full_name
                    && grants_of(db, u.id, au.permissions@)
            }
        },
    }
}

pub fn login(db: &Database, username: &str, password: &str) -> (r: Result<AuthenticatedUser, AuthError>)
    requires
        db.wf(),
    ensures
        login_answer(db, username@, password@, r),
{
    let username = to_lowercase(trim_str(username));
    let found = users::find_by_username(db, username.as_str());
    let user = match found {
        Some(u) => {
            if verify_password(password, u.password_hash.as_str()) {
                Some(u)
            } else {
                None
            }
        },
        None => {
            // the same hashing work as a wrong password, so that an unknown
            // username is not faster to reject
            let _ = hash_password(password);
            None
        },
    };
    let user = match user {
        Some(u) => u,
        None => {
            return Err(AuthError::InvalidCredentials);
        },
    };
    if !user.is_active {
        return Err(AuthError::AccountDisabled);
    }
    let permissions = resolve_permissions(db, user.id);
    Ok(AuthenticatedUser { id: user.id, username: user.username, full_name: user.full_name, permissions })
}

} // verus!
