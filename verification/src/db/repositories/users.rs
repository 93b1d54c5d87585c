use vstd::prelude::*;

use crate::db::{constraint, has_room, next_id, room, Database, DbError, Table, UserRecord};

verus! {

pub struct UserRow {
    pub id: i64,
    pub username: String,
    pub password_hash: String,
    pub full_name: String,
    pub is_active: bool,
}

impl UserRow {
    pub open spec fn of(r: UserRecord) -> UserRow {
        UserRow {
            id: r.id,
            username: r.username,
            password_hash: r.password_hash,
            full_name: r.full_name,
            is_active: r.is_active,
        }
    }
}

/// How many user accounts exist.
pub fn count(db: &Database) -> (n: i64)
    requires
        db.wf(),
    ensures
        n == db.users@.len(),
{
    db.users.len() as i64
}

/// The first user row with this username, if any (usernames are unique).
pub open spec fn user_named(db: &Database, username: Seq<char>) -> Option<int> {
    if exists|j: int| 0 <= j < db.users@.len() && #[trigger] db.users@[j].username@ == username {
        Some(
            choose|j: int|
                0 <= j < db.users@.len() && #[trigger] db.users@[j].username@ == username && forall|t: int|
                    0 <= t < j ==> db.users@[t].username@ != username,
        )
    } else {
        None
    }
}

fn find_first(db: &Database, username: &str) -> (r: Option<usize>)
    ensures
        match r {
            Some(j) => j < db.users@.len() && db.users@[j as int].username@ == username@ && forall|t: int|
                0 <= t < j ==> db.users@[t].username@ != username@,
            None => forall|t: int| 0 <= t < db.users@.len() ==> #[trigger] db.users@[t].username@ != username@,
        },
{
    let target = username.to_owned();
    let mut j: usize = 0;
    while j < db.users.len()
        invariant
            j <= db.users.len(),
            target@ == username@,
            forall|t: int| 0 <= t < j ==> #[trigger] db.users@[t].username@ != username@,
        decreases db.users.len() - j,
    {
        if db.users[j].username == target {
            return Some(j);
        }
        j = j + 1;
    }
    None
}

proof fn lemma_first_is_chosen(db: &Database, username: Seq<char>, j: int)
    requires
        0 <= j < db.users@.len(),
        db.users@[j].username@ == username,
        forall|t: int| 0 <= t < j ==> db.users@[t].username@ != username,
    ensures
        user_named(db, username) == Some(j),
{
    let c = choose|c: int|
        0 <= c < db.users@.len() && #[trigger] db.users@[c].username@ == username && forall|t: int|
            0 <= t < c ==> db.users@[t].username@ != username;
    if c < j {
    } else if c > j {
    }
}

/// The user with this exact username, if any.
pub fn find_by_username(db: &Database, username: &str) -> (r: Option<UserRow>)
    requires
        db.wf(),
    ensures
        r == (match user_named(db, username@) {
            Some(j) => Some(UserRow::of(db.users@[j])),
            None => None,
        }),
{
    match find_first(db, username) {
        Some(j) => {
            proof {
                lemma_first_is_chosen(db, username@, j as int);
            }
            let u = &db.users[j];
            Some(
                UserRow {
                    id: u.id,
                    username: u.username.clone(),
                    password_hash: u.password_hash.clone(),
                    full_name: u.full_name.clone(),
                    is_active: u.is_active,
                },
            )
        },
        None => None,
    }
}

/// Adds a user account; usernames are unique and a new user is active.
pub fn insert(db: &mut Database, username: &str, password_hash: &str, full_name: &str) -> (r: Result<i64, DbError>)
    requires
        old(db).wf(),
    ensures
        final(db).wf(),
        user_named(old(db), username@) is Some ==> {
            &&& r matches Err(DbError::Constraint(m))
            &&& m@ == "UNIQUE constraint failed: users.username"@
        },
        user_named(old(db), username@) is None && !room(old(db).users@.len()) ==> r matches Err(DbError::Full),
        user_named(old(db), username@) is None && room(old(db).users@.len()) ==> r is Ok,
        r is Err ==> old(db).same_tables(final(db)),
        r matches Ok(id) ==> {
            let u = final(db).users@.last();
            &&& user_named(old(db), username@) is None
            &&& id == old(db).users@.len() + 1
            &&& final(db).users@.len() == id
            &&& final(db).users@.drop_last() == old(db).users@
            &&& u.id == id
            &&& u.username@ == username@
            &&& u.password_hash@ == password_hash@
            &&& u.full_name@ == full_name@
            &&& u.is_active
            &&& old(db).agrees_outside(final(db), set![Table::Users])
        },
{
    if find_first(db, username).is_some() {
        return Err(constraint("UNIQUE constraint failed: users.username"));
    }
    if !has_room(db.users.len()) {
        return Err(DbError::Full);
    }
    let id = next_id(db.users.len());
    db.users.push(
        UserRecord {
            id,
            username: username.to_owned(),
            password_hash: password_hash.to_owned(),
            full_name: full_name.to_owned(),
            is_active: true,
        },
    );
    assert(db.users@.drop_last() =~= old(db).users@);
    Ok(id)
}

/// Sets whether user `id` is active; no row changes when `id` names none.
pub fn set_active(db: &mut Database, id: i64, is_active: bool)
    requires
        old(db).wf(),
    ensures
        final(db).wf(),
        old(db).agrees_outside(final(db), set![Table::Users]),
        final(db).users@.len() == old(db).users@.len(),
        forall|j: int|
            0 <= j < old(db).users@.len() ==> {
                let (a, u) = (old(db).users@[j], #[trigger] final(db).users@[j]);
                &&& u.id == a.id
                &&& u.username == a.username
                &&& u.password_hash == a.password_hash
                &&& u.full_name == a.full_name
                &&& u.is_active == (if j == id - 1 { is_active } else { a.is_active })
            },
{
    if id < 1 || id as u64 > db.users.len() as u64 {
        return;
    }
    let i = (id - 1) as usize;
    let u = &db.users[i];
    let rec = UserRecord {
        id: u.id,
        username: u.username.clone(),
        password_hash: u.password_hash.clone(),
        full_name: u.full_name.clone(),
        is_active,
    };
    db.users.set(i, rec);
}

} // verus!
