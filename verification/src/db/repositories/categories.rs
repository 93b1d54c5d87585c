use vstd::prelude::*;

use crate::db::{constraint, has_room, next_id, room, valid_opt_id, Database, DbError, Table, CategoryRecord};
use crate::order::{candidates, enumerates_sorted, lemma_enumerates, sort_positions};
use crate::text::chars_of;

verus! {

pub struct CategoryRow {
    pub id: i64,
    pub name: String,
    pub parent_id: Option<i64>,
    pub is_active: bool,
}

impl CategoryRow {
    pub open spec fn of(r: CategoryRecord) -> CategoryRow {
        CategoryRow { id: r.id, name: r.name, parent_id: r.parent_id, is_active: r.is_active }
    }
}

pub open spec fn category_visible(db: &Database) -> spec_fn(int) -> bool {
    |j: int| !db.categories@[j].deleted
}

pub open spec fn category_name(db: &Database) -> spec_fn(int) -> Seq<char> {
    |j: int| db.categories@[j].name@
}

/// `rows` are the categories not deleted, ordered by name.
pub open spec fn lists_categories(db: &Database, rows: Seq<CategoryRow>) -> bool {
    exists|pos: Seq<int>|
        {
            &&& #[trigger] enumerates_sorted(pos, db.categories@.len() as int, category_visible(db), category_name(db))
            &&& rows.len() == pos.len()
            &&& forall|k: int| 0 <= k < pos.len() ==> rows[k] == CategoryRow::of(db.categories@[pos[k]])
        }
}

fn row_of(r: &CategoryRecord) -> (row: CategoryRow)
    ensures
        row == CategoryRow::of(*r),
{
    CategoryRow { id: r.id, name: r.name.clone(), parent_id: r.parent_id, is_active: r.is_active }
}

/// The categories that are not deleted, ordered by name.
pub fn list(db: &Database) -> (rows: Vec<CategoryRow>)
    requires
        db.wf(),
    ensures
        lists_categories(db, rows@),
{
    let ghost pred = category_visible(db);
    let ghost key = category_name(db);
    let n = db.categories.len();
    let mut cand: Vec<usize> = Vec::new();
    let mut keys: Vec<Vec<char>> = Vec::new();
    let mut i: usize = 0;
    while i < n
        invariant
            n == db.categories@.len(),
            i <= n,
            pred == category_visible(db),
            key == category_name(db),
            candidates(cand@, i as int, pred),
            keys.len() == cand.len(),
            forall|t: int| 0 <= t < cand.len() ==> (#[trigger] keys@[t])@ == key(cand@[t] as int),
        decreases n - i,
    {
        let ghost old_cand = cand@;
        assert(pred(i as int) == !db.categories@[i as int].deleted);
        if !db.categories[i].deleted {
            cand.push(i);
            keys.push(chars_of(db.categories[i].name.as_str()));
            assert(cand@[cand.len() - 1] == i);
        }
        proof {
            assert forall|j: int| 0 <= j < i + 1 && #[trigger] pred(j) implies cand@.contains(j as usize) by {
                if j < i {
                    let t = choose|t: int| 0 <= t < old_cand.len() && old_cand[t] == j as usize;
                    assert(cand@[t] == j as usize);
                } else {
                    assert(cand@[cand.len() - 1] == i);
                }
            }
        }
        i = i + 1;
    }
    let idx = sort_positions(&keys);
    let mut rows: Vec<CategoryRow> = Vec::new();
    let mut k: usize = 0;
    while k < idx.len()
        invariant
            k <= idx.len(),
            idx.len() == cand.len(),
            forall|a: int| 0 <= a < idx.len() ==> #[trigger] idx@[a] < cand.len(),
            forall|t: int| 0 <= t < cand.len() ==> #[trigger] cand@[t] < n,
            n == db.categories@.len(),
            rows.len() == k,
            forall|a: int| 0 <= a < k ==> #[trigger] rows@[a] == CategoryRow::of(db.categories@[cand@[idx@[a] as int] as int]),
        decreases idx.len() - k,
    {
        let j = cand[idx[k]];
        rows.push(row_of(&db.categories[j]));
        k = k + 1;
    }
    proof {
        let ks = keys@.map_values(|v: Vec<char>| v@);
        let pos = Seq::new(rows@.len(), |a: int| cand@[idx@[a] as int] as int);
        lemma_enumerates(cand@, ks, idx@, pos, n as int, pred, key);
        assert(enumerates_sorted(pos, db.categories@.len() as int, pred, key));
    }
    rows
}

/// Category `id`, unless it does not exist or is deleted.
pub fn find_by_id(db: &Database, id: i64) -> (r: Option<CategoryRow>)
    requires
        db.wf(),
    ensures
        r == (if 1 <= id <= db.categories@.len() && !db.categories@[id - 1].deleted {
            Some(CategoryRow::of(db.categories@[id - 1]))
        } else {
            None
        }),
{
    if id < 1 || id as u64 > db.categories.len() as u64 {
        return None;
    }
    let i = (id - 1) as usize;
    if db.categories[i].deleted {
        None
    } else {
        Some(row_of(&db.categories[i]))
    }
}

/// Adds a category; `parent_id` must name a category (the new row itself
/// included).
pub fn insert(db: &mut Database, name: &str, parent_id: Option<i64>) -> (r: Result<i64, DbError>)
    requires
        old(db).wf(),
    ensures
        final(db).wf(),
        match r {
            Ok(id) => {
                &&& valid_opt_id(parent_id, old(db).categories@.len() + 1)
                &&& room(old(db).categories@.len())
                &&& id == old(db).categories@.len() + 1
                &&& final(db).categories@.len() == id
                &&& final(db).categories@.drop_last() == old(db).categories@
                &&& final(db).categories@.last().id == id
                &&& final(db).categories@.last().name@ == name@
                &&& final(db).categories@.last().parent_id == parent_id
                &&& final(db).categories@.last().is_active
                &&& !final(db).categories@.last().deleted
                &&& old(db).agrees_outside(final(db), set![Table::Categories])
            },
            Err(e) => {
                &&& old(db).same_tables(final(db))
                &&& final(db).clock() == old(db).clock()
                &&& (!room(old(db).categories@.len()) ==> e is Full)
                &&& (room(old(db).categories@.len()) ==> {
                    &&& !valid_opt_id(parent_id, old(db).categories@.len() + 1)
                    &&& e matches DbError::Constraint(m)
                    &&& m@ == "FOREIGN KEY constraint failed"@
                })
            },
        },
{
    if !has_room(db.categories.len()) {
        return Err(DbError::Full);
    }
    let id = next_id(db.categories.len());
    match parent_id {
        Some(p) => {
            if p < 1 || p > id {
                return Err(constraint("FOREIGN KEY constraint failed"));
            }
        },
        None => {},
    }
    db.categories.push(CategoryRecord { id, name: name.to_owned(), parent_id, is_active: true, deleted: false });
    assert(db.categories@.drop_last() =~= old(db).categories@);
    Ok(id)
}

/// Category `id` exists and is not deleted.
pub open spec fn live(db: &Database, id: i64) -> bool {
    1 <= id <= db.categories@.len() && !db.categories@[id - 1].deleted
}

/// Renames and re-parents category `id` if it exists and is not deleted.
pub fn update(db: &mut Database, id: i64, name: &str, parent_id: Option<i64>) -> (r: Result<(), DbError>)
    requires
        old(db).wf(),
    ensures
        final(db).wf(),
        old(db).agrees_outside(final(db), set![Table::Categories]),
        final(db).categories@.len() == old(db).categories@.len(),
        forall|j: int|
            0 <= j < old(db).categories@.len() && j != id - 1 ==> #[trigger] final(db).categories@[j]
                == old(db).categories@[j],
        !live(old(db), id) ==> r is Ok && final(db).categories@ == old(db).categories@,
        live(old(db), id) && !valid_opt_id(parent_id, old(db).categories@.len()) ==> {
            &&& r matches Err(DbError::Constraint(m))
            &&& m@ == "FOREIGN KEY constraint failed"@
            &&& final(db).categories@ == old(db).categories@
        },
        live(old(db), id) && valid_opt_id(parent_id, old(db).categories@.len()) ==> {
            let (a, c) = (old(db).categories@[id - 1], final(db).categories@[id - 1]);
            &&& r is Ok
            &&& c.id == id
            &&& c.name@ == name@
            &&& c.parent_id == parent_id
            &&& c.is_active == a.is_active
            &&& !c.deleted
        },
{
    if id < 1 || id as u64 > db.categories.len() as u64 {
        return Ok(());
    }
    let i = (id - 1) as usize;
    if db.categories[i].deleted {
        return Ok(());
    }
    match parent_id {
        Some(p) => {
            if p < 1 || p as u64 > db.categories.len() as u64 {
                return Err(constraint("FOREIGN KEY constraint failed"));
            }
        },
        None => {},
    }
    let is_active = db.categories[i].is_active;
    db.categories.set(i, CategoryRecord { id, name: name.to_owned(), parent_id, is_active, deleted: false });
    Ok(())
}

/// Soft-deletes category `id`: marks it deleted and inactive.
pub fn soft_delete(db: &mut Database, id: i64) -> (r: Result<(), DbError>)
    requires
        old(db).wf(),
    ensures
        final(db).wf(),
        r is Ok,
        old(db).agrees_outside(final(db), set![Table::Categories]),
        final(db).categories@.len() == old(db).categories@.len(),
        forall|j: int|
            0 <= j < old(db).categories@.len() ==> {
                let (a, b) = (old(db).categories@[j], #[trigger] final(db).categories@[j]);
                &&& b.id == a.id
                &&& b.name == a.name
                &&& b.parent_id == a.parent_id
                &&& b.is_active == (a.is_active && j != id - 1)
                &&& b.deleted == (a.deleted || j == id - 1)
            },
{
    if id < 1 || id as u64 > db.categories.len() as u64 {
        return Ok(());
    }
    let i = (id - 1) as usize;
    let c = &db.categories[i];
    let rec = CategoryRecord { id: c.id, name: c.name.clone(), parent_id: c.parent_id, is_active: false, deleted: true };
    db.categories.set(i, rec);
    Ok(())
}

} // verus!
