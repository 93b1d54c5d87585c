use vstd::prelude::*;

use crate::db::{constraint, has_room, next_id, room, Database, DbError, Table, UnitRecord};
use crate::order::{candidates, enumerates_sorted, lemma_enumerates, sort_positions};
use crate::text::chars_of;

verus! {

pub struct UnitRow {
    pub id: i64,
    pub name: String,
    pub abbreviation: String,
}

impl UnitRow {
    pub open spec fn of(r: UnitRecord) -> UnitRow {
        UnitRow { id: r.id, name: r.name, abbreviation: r.abbreviation }
    }
}

pub open spec fn unit_visible(db: &Database) -> spec_fn(int) -> bool {
    |j: int| !db.units@[j].deleted
}

pub open spec fn unit_name(db: &Database) -> spec_fn(int) -> Seq<char> {
    |j: int| db.units@[j].name@
}

/// `rows` are the units not deleted, ordered by name.
pub open spec fn lists_units(db: &Database, rows: Seq<UnitRow>) -> bool {
    exists|pos: Seq<int>|
        {
            &&& #[trigger] enumerates_sorted(pos, db.units@.len() as int, unit_visible(db), unit_name(db))
            &&& rows.len() == pos.len()
            &&& forall|k: int| 0 <= k < pos.len() ==> rows[k] == UnitRow::of(db.units@[pos[k]])
        }
}

fn row_of(r: &UnitRecord) -> (row: UnitRow)
    ensures
        row == UnitRow::of(*r),
{
    UnitRow { id: r.id, name: r.name.clone(), abbreviation: r.abbreviation.clone() }
}

/// The units that are not deleted, ordered by name.
pub fn list(db: &Database) -> (rows: Vec<UnitRow>)
    requires
        db.wf(),
    ensures
        lists_units(db, rows@),
{
    let ghost pred = unit_visible(db);
    let ghost key = unit_name(db);
    let n = db.units.len();
    let mut cand: Vec<usize> = Vec::new();
    let mut keys: Vec<Vec<char>> = Vec::new();
    let mut i: usize = 0;
    while i < n
        invariant
            n == db.units@.len(),
            i <= n,
            pred == unit_visible(db),
            key == unit_name(db),
            candidates(cand@, i as int, pred),
            keys.len() == cand.len(),
            forall|t: int| 0 <= t < cand.len() ==> (#[trigger] keys@[t])@ == key(cand@[t] as int),
        decreases n - i,
    {
        let ghost old_cand = cand@;
        assert(pred(i as int) == !db.units@[i as int].deleted);
        if !db.units[i].deleted {
            cand.push(i);
            keys.push(chars_of(db.units[i].name.as_str()));
            assert(cand@[cand.len() - 1] == i);
        }
        proof {
            assert forall|j: int| 0 <= j < i + 1 && #[trigger] pred(j) implies cand@.contains(j as usize) by {
                if j < i {
                    let t = choose|t: int| 0 <= t < old_cand.len() && old_cand[t] == j as usize;
                    assert(cand@[t] == j as usize);
                } else {
                    assert(cand@[cand.len() - 1] == i);
                }
            }
        }
        i = i + 1;
    }
    let idx = sort_positions(&keys);
    let mut rows: Vec<UnitRow> = Vec::new();
    let mut k: usize = 0;
    while k < idx.len()
        invariant
            k <= idx.len(),
            idx.len() == cand.len(),
            forall|a: int| 0 <= a < idx.len() ==> #[trigger] idx@[a] < cand.len(),
            forall|t: int| 0 <= t < cand.len() ==> #[trigger] cand@[t] < n,
            n == db.units@.len(),
            rows.len() == k,
            forall|a: int| 0 <= a < k ==> #[trigger] rows@[a] == UnitRow::of(db.units@[cand@[idx@[a] as int] as int]),
        decreases idx.len() - k,
    {
        let j = cand[idx[k]];
        rows.push(row_of(&db.units[j]));
        k = k + 1;
    }
    proof {
        let ks = keys@.map_values(|v: Vec<char>| v@);
        let pos = Seq::new(rows@.len(), |a: int| cand@[idx@[a] as int] as int);
        lemma_enumerates(cand@, ks, idx@, pos, n as int, pred, key);
        assert(enumerates_sorted(pos, db.units@.len() as int, pred, key));
    }
    rows
}

/// Unit `id`, unless it does not exist or is deleted.
pub fn find_by_id(db: &Database, id: i64) -> (r: Option<UnitRow>)
    requires
        db.wf(),
    ensures
        r == (if 1 <= id <= db.units@.len() && !db.units@[id - 1].deleted {
            Some(UnitRow::of(db.units@[id - 1]))
        } else {
            None
        }),
{
    if id < 1 || id as u64 > db.units.len() as u64 {
        return None;
    }
    let i = (id - 1) as usize;
    if db.units[i].deleted {
        None
    } else {
        Some(row_of(&db.units[i]))
    }
}

/// Some row other than `except` has this abbreviation.
pub open spec fn abbreviation_taken(db: &Database, abbreviation: Seq<char>, except: int) -> bool {
    exists|j: int| 0 <= j < db.units@.len() && j != except && #[trigger] db.units@[j].abbreviation@ == abbreviation
}

fn find_abbreviation(db: &Database, abbreviation: &str, except: Option<usize>) -> (b: bool)
    ensures
        b == abbreviation_taken(db, abbreviation@, match except { Some(e) => e as int, None => -1 }),
{
    let target = abbreviation.to_owned();
    let mut j: usize = 0;
    while j < db.units.len()
        invariant
            j <= db.units.len(),
            target@ == abbreviation@,
            forall|t: int|
                0 <= t < j && t != (match except { Some(e) => e as int, None => -1 }) ==> #[trigger] db.units@[t].abbreviation@
                    != abbreviation@,
        decreases db.units.len() - j,
    {
        if except != Some(j) && db.units[j].abbreviation == target {
            return true;
        }
        j = j + 1;
    }
    false
}

/// Adds a unit; its abbreviation must be unused.
pub fn insert(db: &mut Database, name: &str, abbreviation: &str) -> (r: Result<i64, DbError>)
    requires
        old(db).wf(),
    ensures
        final(db).wf(),
        match r {
            Ok(id) => {
                &&& !abbreviation_taken(old(db), abbreviation@, -1)
                &&& room(old(db).units@.len())
                &&& id == old(db).units@.len() + 1
                &&& final(db).units@.len() == id
                &&& final(db).units@.drop_last() == old(db).units@
                &&& final(db).units@.last().id == id
                &&& final(db).units@.last().name@ == name@
                &&& final(db).units@.last().abbreviation@ == abbreviation@
                &&& !final(db).units@.last().deleted
                &&& old(db).agrees_outside(final(db), set![Table::Units])
            },
            Err(e) => {
                &&& old(db).same_tables(final(db))
                &&& final(db).clock() == old(db).clock()
                &&& (abbreviation_taken(old(db), abbreviation@, -1) ==> (e matches DbError::Constraint(m)
                    && m@ == "UNIQUE constraint failed: units.abbreviation"@))
                &&& (!abbreviation_taken(old(db), abbreviation@, -1) ==> e is Full && !room(old(db).units@.len()))
            },
        },
{
    if find_abbreviation(db, abbreviation, None) {
        return Err(constraint("UNIQUE constraint failed: units.abbreviation"));
    }
    if !has_room(db.units.len()) {
        return Err(DbError::Full);
    }
    let id = next_id(db.units.len());
    db.units.push(UnitRecord { id, name: name.to_owned(), abbreviation: abbreviation.to_owned(), deleted: false });
    assert(db.units@.drop_last() =~= old(db).units@);
    Ok(id)
}

/// Unit `id` exists and is not deleted.
pub open spec fn live(db: &Database, id: i64) -> bool {
    1 <= id <= db.units@.len() && !db.units@[id - 1].deleted
}

/// Renames unit `id` if it exists and is not deleted.
pub fn update(db: &mut Database, id: i64, name: &str, abbreviation: &str) -> (r: Result<(), DbError>)
    requires
        old(db).wf(),
    ensures
        final(db).wf(),
        old(db).agrees_outside(final(db), set![Table::Units]),
        final(db).units@.len() == old(db).units@.len(),
        forall|j: int|
            0 <= j < old(db).units@.len() && j != id - 1 ==> #[trigger] final(db).units@[j] == old(db).units@[j],
        !live(old(db), id) ==> r is Ok && final(db).units@ == old(db).units@,
        live(old(db), id) && abbreviation_taken(old(db), abbreviation@, id - 1) ==> {
            &&& r matches Err(DbError::Constraint(m))
            &&& m@ == "UNIQUE constraint failed: units.abbreviation"@
            &&& final(db).units@ == old(db).units@
        },
        live(old(db), id) && !abbreviation_taken(old(db), abbreviation@, id - 1) ==> {
            let u = final(db).units@[id - 1];
            &&& r is Ok
            &&& u.id == id
            &&& u.name@ == name@
            &&& u.abbreviation@ == abbreviation@
            &&& !u.deleted
        },
{
    if id < 1 || id as u64 > db.units.len() as u64 {
        return Ok(());
    }
    let i = (id - 1) as usize;
    if db.units[i].deleted {
        return Ok(());
    }
    if find_abbreviation(db, abbreviation, Some(i)) {
        return Err(constraint("UNIQUE constraint failed: units.abbreviation"));
    }
    db.units.set(i, UnitRecord { id, name: name.to_owned(), abbreviation: abbreviation.to_owned(), deleted: false });
    Ok(())
}

/// Soft-deletes unit `id` (marks it deleted).
pub fn soft_delete(db: &mut Database, id: i64) -> (r: Result<(), DbError>)
    requires
        old(db).wf(),
    ensures
        final(db).wf(),
        r is Ok,
        old(db).agrees_outside(final(db), set![Table::Units]),
        final(db).units@.len() == old(db).units@.len(),
        forall|j: int|
            0 <= j < old(db).units@.len() ==> {
                let (a, b) = (old(db).units@[j], #[trigger] final(db).units@[j]);
                &&& b.id == a.id
                &&& b.name == a.name
                &&& b.abbreviation == a.abbreviation
                &&& b.deleted == (a.deleted || j == id - 1)
            },
{
    if id < 1 || id as u64 > db.units.len() as u64 {
        return Ok(());
    }
    let i = (id - 1) as usize;
    let u = &db.units[i];
    let rec = UnitRecord { id: u.id, name: u.name.clone(), abbreviation: u.abbreviation.clone(), deleted: true };
    db.units.set(i, rec);
    Ok(())
}

} // verus!
