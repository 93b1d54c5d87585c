use vstd::prelude::*;

use crate::db::{constraint, has_room, next_id, room, Database, DbError, Table, BrandRecord};
use crate::order::{candidates, enumerates_sorted, lemma_enumerates, sort_positions};
use crate::text::chars_of;

verus! {

pub struct BrandRow {
    pub id: i64,
    pub name: String,
}

impl BrandRow {
    pub open spec fn of(r: BrandRecord) -> BrandRow {
        BrandRow { id: r.id, name: r.name }
    }
}

pub open spec fn brand_visible(db: &Database) -> spec_fn(int) -> bool {
    |j: int| !db.brands@[j].deleted
}

pub open spec fn brand_name(db: &Database) -> spec_fn(int) -> Seq<char> {
    |j: int| db.brands@[j].name@
}

/// `rows` are the brands not deleted, ordered by name.
pub open spec fn lists_brands(db: &Database, rows: Seq<BrandRow>) -> bool {
    exists|pos: Seq<int>|
        {
            &&& #[trigger] enumerates_sorted(pos, db.brands@.len() as int, brand_visible(db), brand_name(db))
            &&& rows.len() == pos.len()
            &&& forall|k: int| 0 <= k < pos.len() ==> rows[k] == BrandRow::of(db.brands@[pos[k]])
        }
}

fn row_of(r: &BrandRecord) -> (row: BrandRow)
    ensures
        row == BrandRow::of(*r),
{
    BrandRow { id: r.id, name: r.name.clone() }
}

/// The brands that are not deleted, ordered by name.
pub fn list(db: &Database) -> (rows: Vec<BrandRow>)
    requires
        db.wf(),
    ensures
        lists_brands(db, rows@),
{
    let ghost pred = brand_visible(db);
    let ghost key = brand_name(db);
    let n = db.brands.len();
    let mut cand: Vec<usize> = Vec::new();
    let mut keys: Vec<Vec<char>> = Vec::new();
    let mut i: usize = 0;
    while i < n
        invariant
            n == db.brands@.len(),
            i <= n,
            pred == brand_visible(db),
            key == brand_name(db),
            candidates(cand@, i as int, pred),
            keys.len() == cand.len(),
            forall|t: int| 0 <= t < cand.len() ==> (#[trigger] keys@[t])@ == key(cand@[t] as int),
        decreases n - i,
    {
        let ghost old_cand = cand@;
        assert(pred(i as int) == !db.brands@[i as int].deleted);
        if !db.brands[i].deleted {
            cand.push(i);
            keys.push(chars_of(db.brands[i].name.as_str()));
            assert(cand@[cand.len() - 1] == i);
        }
        proof {
            assert forall|j: int| 0 <= j < i + 1 && #[trigger] pred(j) implies cand@.contains(j as usize) by {
                if j < i {
                    let t = choose|t: int| 0 <= t < old_cand.len() && old_cand[t] == j as usize;
                    assert(cand@[t] == j as usize);
                } else {
                    assert(cand@[cand.len() - 1] == i);
                }
            }
        }
        i = i + 1;
    }
    let idx = sort_positions(&keys);
    let mut rows: Vec<BrandRow> = Vec::new();
    let mut k: usize = 0;
    while k < idx.len()
        invariant
            k <= idx.len(),
            idx.len() == cand.len(),
            forall|a: int| 0 <= a < idx.len() ==> #[trigger] idx@[a] < cand.len(),
            forall|t: int| 0 <= t < cand.len() ==> #[trigger] cand@[t] < n,
            n == db.brands@.len(),
            rows.len() == k,
            forall|a: int| 0 <= a < k ==> #[trigger] rows@[a] == BrandRow::of(db.brands@[cand@[idx@[a] as int] as int]),
        decreases idx.len() - k,
    {
        let j = cand[idx[k]];
        rows.push(row_of(&db.brands[j]));
        k = k + 1;
    }
    proof {
        let ks = keys@.map_values(|v: Vec<char>| v@);
        let pos = Seq::new(rows@.len(), |a: int| cand@[idx@[a] as int] as int);
        lemma_enumerates(cand@, ks, idx@, pos, n as int, pred, key);
        assert(enumerates_sorted(pos, db.brands@.len() as int, pred, key));
    }
    rows
}

/// Brand `id`, unless it does not exist or is deleted.
pub fn find_by_id(db: &Database, id: i64) -> (r: Option<BrandRow>)
    requires
        db.wf(),
    ensures
        r == (if 1 <= id <= db.brands@.len() && !db.brands@[id - 1].deleted {
            Some(BrandRow::of(db.brands@[id - 1]))
        } else {
            None
        }),
{
    if id < 1 || id as u64 > db.brands.len() as u64 {
        return None;
    }
    let i = (id - 1) as usize;
    if db.brands[i].deleted {
        None
    } else {
        Some(row_of(&db.brands[i]))
    }
}

/// Some row other than `except` has this name.
pub open spec fn name_taken(db: &Database, name: Seq<char>, except: int) -> bool {
    exists|j: int| 0 <= j < db.brands@.len() && j != except && #[trigger] db.brands@[j].name@ == name
}

fn find_name(db: &Database, name: &str, except: Option<usize>) -> (b: bool)
    ensures
        b == name_taken(db, name@, match except { Some(e) => e as int, None => -1 }),
{
    let target = name.to_owned();
    let mut j: usize = 0;
    while j < db.brands.len()
        invariant
            j <= db.brands.len(),
            target@ == name@,
            forall|t: int|
                0 <= t < j && t != (match except { Some(e) => e as int, None => -1 }) ==> #[trigger] db.brands@[t].name@
                    != name@,
        decreases db.brands.len() - j,
    {
        if except != Some(j) && db.brands[j].name == target {
            return true;
        }
        j = j + 1;
    }
    false
}

/// Adds a brand; its name must be unused.
pub fn insert(db: &mut Database, name: &str) -> (r: Result<i64, DbError>)
    requires
        old(db).wf(),
    ensures
        final(db).wf(),
        match r {
            Ok(id) => {
                &&& !name_taken(old(db), name@, -1)
                &&& room(old(db).brands@.len())
                &&& id == old(db).brands@.len() + 1
                &&& final(db).brands@.len() == id
                &&& final(db).brands@.drop_last() == old(db).brands@
                &&& final(db).brands@.last().id == id
                &&& final(db).brands@.last().name@ == name@
                &&& !final(db).brands@.last().deleted
                &&& old(db).agrees_outside(final(db), set![Table::Brands])
            },
            Err(e) => {
                &&& old(db).same_tables(final(db))
                &&& final(db).clock() == old(db).clock()
                &&& (name_taken(old(db), name@, -1) ==> (e matches DbError::Constraint(m)
                    && m@ == "UNIQUE constraint failed: brands.name"@))
                &&& (!name_taken(old(db), name@, -1) ==> e is Full && !room(old(db).brands@.len()))
            },
        },
{
    if find_name(db, name, None) {
        return Err(constraint("UNIQUE constraint failed: brands.name"));
    }
    if !has_room(db.brands.len()) {
        return Err(DbError::Full);
    }
    let id = next_id(db.brands.len());
    db.brands.push(BrandRecord { id, name: name.to_owned(), deleted: false });
    assert(db.brands@.drop_last() =~= old(db).brands@);
    Ok(id)
}

/// Brand `id` exists and is not deleted.
pub open spec fn live(db: &Database, id: i64) -> bool {
    1 <= id <= db.brands@.len() && !db.brands@[id - 1].deleted
}

/// Renames brand `id` if it exists and is not deleted.
pub fn update(db: &mut Database, id: i64, name: &str) -> (r: Result<(), DbError>)
    requires
        old(db).wf(),
    ensures
        final(db).wf(),
        old(db).agrees_outside(final(db), set![Table::Brands]),
        final(db).brands@.len() == old(db).brands@.len(),
        forall|j: int|
            0 <= j < old(db).brands@.len() && j != id - 1 ==> #[trigger] final(db).brands@[j] == old(db).brands@[j],
        !live(old(db), id) ==> r is Ok && final(db).brands@ == old(db).brands@,
        live(old(db), id) && name_taken(old(db), name@, id - 1) ==> {
            &&& r matches Err(DbError::Constraint(m))
            &&& m@ == "UNIQUE constraint failed: brands.name"@
            &&& final(db).brands@ == old(db).brands@
        },
        live(old(db), id) && !name_taken(old(db), name@, id - 1) ==> {
            let u = final(db).brands@[id - 1];
            &&& r is Ok
            &&& u.id == id
            &&& u.name@ == name@
            &&& !u.deleted
        },
{
    if id < 1 || id as u64 > db.brands.len() as u64 {
        return Ok(());
    }
    let i = (id - 1) as usize;
    if db.brands[i].deleted {
        return Ok(());
    }
    if find_name(db, name, Some(i)) {
        return Err(constraint("UNIQUE constraint failed: brands.name"));
    }
    db.brands.set(i, BrandRecord { id, name: name.to_owned(), deleted: false });
    Ok(())
}

/// Soft-deletes brand `id` (marks it deleted).
pub fn soft_delete(db: &mut Database, id: i64) -> (r: Result<(), DbError>)
    requires
        old(db).wf(),
    ensures
        final(db).wf(),
        r is Ok,
        old(db).agrees_outside(final(db), set![Table::Brands]),
        final(db).brands@.len() == old(db).brands@.len(),
        forall|j: int|
            0 <= j < old(db).brands@.len() ==> {
                let (a, b) = (old(db).brands@[j], #[trigger] final(db).brands@[j]);
                &&& b.id == a.id
                &&& b.name == a.name
                &&& b.deleted == (a.deleted || j == id - 1)
            },
{
    if id < 1 || id as u64 > db.brands.len() as u64 {
        return Ok(());
    }
    let i = (id - 1) as usize;
    let u = &db.brands[i];
    let rec = BrandRecord { id: u.id, name: u.name.clone(), deleted: true };
    db.brands.set(i, rec);
    Ok(())
}

} // verus!
