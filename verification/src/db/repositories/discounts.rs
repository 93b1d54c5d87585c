use vstd::prelude::*;

use crate::db::{has_room, next_id, room, Database, DbError, Table, DiscountRecord};
use crate::order::{candidates, enumerates_sorted, lemma_enumerates, sort_positions};
use crate::text::chars_of;

verus! {

pub struct DiscountRow {
    pub id: i64,
    pub name: String,
    pub kind: String,
    pub value: i64,
    pub is_active: bool,
}

impl DiscountRow {
    pub open spec fn of(r: DiscountRecord) -> DiscountRow {
        DiscountRow { id: r.id, name: r.name, kind: r.kind, value: r.value, is_active: r.is_active }
    }
}

pub open spec fn discount_visible(db: &Database) -> spec_fn(int) -> bool {
    |j: int| true
}

pub open spec fn discount_name(db: &Database) -> spec_fn(int) -> Seq<char> {
    |j: int| db.discounts@[j].name@
}

/// `rows` are all the discounts, ordered by name.
pub open spec fn lists_discounts(db: &Database, rows: Seq<DiscountRow>) -> bool {
    exists|pos: Seq<int>|
        {
            &&& #[trigger] enumerates_sorted(pos, db.discounts@.len() as int, discount_visible(db), discount_name(db))
            &&& rows.len() == pos.len()
            &&& forall|k: int| 0 <= k < pos.len() ==> rows[k] == DiscountRow::of(db.discounts@[pos[k]])
        }
}

fn row_of(r: &DiscountRecord) -> (row: DiscountRow)
    ensures
        row == DiscountRow::of(*r),
{
    DiscountRow { id: r.id, name: r.name.clone(), kind: r.kind.clone(), value: r.value, is_active: r.is_active }
}

/// Every discount, ordered by name.
pub fn list(db: &Database) -> (rows: Vec<DiscountRow>)
    requires
        db.wf(),
    ensures
        lists_discounts(db, rows@),
{
    let ghost pred = discount_visible(db);
    let ghost key = discount_name(db);
    let n = db.discounts.len();
    let mut cand: Vec<usize> = Vec::new();
    let mut keys: Vec<Vec<char>> = Vec::new();
    let mut i: usize = 0;
    while i < n
        invariant
            n == db.discounts@.len(),
            i <= n,
            pred == discount_visible(db),
            key == discount_name(db),
            candidates(cand@, i as int, pred),
            keys.len() == cand.len(),
            forall|t: int| 0 <= t < cand.len() ==> (#[trigger] keys@[t])@ == key(cand@[t] as int),
        decreases n - i,
    {
        let ghost old_cand = cand@;
        assert(pred(i as int));
        {
            cand.push(i);
            keys.push(chars_of(db.discounts[i].name.as_str()));
            assert(cand@[cand.len() - 1] == i);
        }
        proof {
            assert forall|j: int| 0 <= j < i + 1 && #[trigger] pred(j) implies cand@.contains(j as usize) by {
                if j < i {
                    let t = choose|t: int| 0 <= t < old_cand.len() && old_cand[t] == j as usize;
                    assert(cand@[t] == j as usize);
                } else {
                    assert(cand@[cand.len() - 1] == i);
                }
            }
        }
        i = i + 1;
    }
    let idx = sort_positions(&keys);
    let mut rows: Vec<DiscountRow> = Vec::new();
    let mut k: usize = 0;
    while k < idx.len()
        invariant
            k <= idx.len(),
            idx.len() == cand.len(),
            forall|a: int| 0 <= a < idx.len() ==> #[trigger] idx@[a] < cand.len(),
            forall|t: int| 0 <= t < cand.len() ==> #[trigger] cand@[t] < n,
            n == db.discounts@.len(),
            rows.len() == k,
            forall|a: int| 0 <= a < k ==> #[trigger] rows@[a] == DiscountRow::of(db.discounts@[cand@[idx@[a] as int] as int]),
        decreases idx.len() - k,
    {
        let j = cand[idx[k]];
        rows.push(row_of(&db.discounts[j]));
        k = k + 1;
    }
    proof {
        let ks = keys@.map_values(|v: Vec<char>| v@);
        let pos = Seq::new(rows@.len(), |a: int| cand@[idx@[a] as int] as int);
        lemma_enumerates(cand@, ks, idx@, pos, n as int, pred, key);
        assert(enumerates_sorted(pos, db.discounts@.len() as int, pred, key));
    }
    rows
}

/// Discount `id`, if it exists.
pub fn find_by_id(db: &Database, id: i64) -> (r: Option<DiscountRow>)
    requires
        db.wf(),
    ensures
        r == (if 1 <= id <= db.discounts@.len() {
            Some(DiscountRow::of(db.discounts@[id - 1]))
        } else {
            None
        }),
{
    if id < 1 || id as u64 > db.discounts.len() as u64 {
        return None;
    }
    Some(row_of(&db.discounts[(id - 1) as usize]))
}

/// Adds a discount; a new discount is active.
pub fn insert(db: &mut Database, name: &str, kind: &str, value: i64) -> (r: Result<i64, DbError>)
    requires
        old(db).wf(),
    ensures
        final(db).wf(),
        match r {
            Ok(id) => {
                &&& room(old(db).discounts@.len())
                &&& id == old(db).discounts@.len() + 1
                &&& final(db).discounts@.len() == id
                &&& final(db).discounts@.drop_last() == old(db).discounts@
                &&& final(db).discounts@.last().id == id
                &&& final(db).discounts@.last().name@ == name@
                &&& final(db).discounts@.last().kind@ == kind@
                &&& final(db).discounts@.last().value == value
                &&& final(db).discounts@.last().is_active
                &&& old(db).agrees_outside(final(db), set![Table::Discounts])
            },
            Err(e) => {
                &&& e is Full
                &&& !room(old(db).discounts@.len())
                &&& old(db).same_tables(final(db))
                &&& final(db).clock() == old(db).clock()
            },
        },
{
    if !has_room(db.discounts.len()) {
        return Err(DbError::Full);
    }
    let id = next_id(db.discounts.len());
    db.discounts.push(DiscountRecord { id, name: name.to_owned(), kind: kind.to_owned(), value, is_active: true });
    assert(db.discounts@.drop_last() =~= old(db).discounts@);
    Ok(id)
}

/// Rewrites discount `id`; nothing changes when `id` names none.
pub fn update(db: &mut Database, id: i64, name: &str, kind: &str, value: i64) -> (r: Result<(), DbError>)
    requires
        old(db).wf(),
    ensures
        final(db).wf(),
        r is Ok,
        old(db).agrees_outside(final(db), set![Table::Discounts]),
        final(db).discounts@.len() == old(db).discounts@.len(),
        forall|j: int|
            0 <= j < old(db).discounts@.len() && j != id - 1 ==> #[trigger] final(db).discounts@[j] == old(db).discounts@[j],
        1 <= id <= old(db).discounts@.len() ==> {
            let (a, t) = (old(db).discounts@[id - 1], final(db).discounts@[id - 1]);
            &&& t.id == id
            &&& t.name@ == name@
            &&& t.kind@ == kind@
            &&& t.value == value
            &&& t.is_active == a.is_active
        },
{
    if id < 1 || id as u64 > db.discounts.len() as u64 {
        return Ok(());
    }
    let i = (id - 1) as usize;
    let is_active = db.discounts[i].is_active;
    db.discounts.set(i, DiscountRecord { id, name: name.to_owned(), kind: kind.to_owned(), value, is_active });
    Ok(())
}

/// Sets whether discount `id` is active.
pub fn set_active(db: &mut Database, id: i64, is_active: bool) -> (r: Result<(), DbError>)
    requires
        old(db).wf(),
    ensures
        final(db).wf(),
        r is Ok,
        old(db).agrees_outside(final(db), set![Table::Discounts]),
        final(db).discounts@.len() == old(db).discounts@.len(),
        forall|j: int|
            0 <= j < old(db).discounts@.len() ==> {
                let (a, t) = (old(db).discounts@[j], #[trigger] final(db).discounts@[j]);
                &&& t.id == a.id
                &&& t.name == a.name
                &&& t.kind == a.kind
                &&& t.value == a.value
                &&& t.is_active == (if j == id - 1 { is_active } else { a.is_active })
            },
{
    if id < 1 || id as u64 > db.discounts.len() as u64 {
        return Ok(());
    }
    let i = (id - 1) as usize;
    let rec = copy_with_active(&db.discounts[i], is_active);
    db.discounts.set(i, rec);
    Ok(())
}

fn copy_with_active(d: &DiscountRecord, is_active: bool) -> (r: DiscountRecord)
    ensures
        r.id == d.id,
        r.name == d.name,
        r.kind == d.kind,
        r.value == d.value,
        r.is_active == is_active,
{
    DiscountRecord { id: d.id, name: d.name.clone(), kind: d.kind.clone(), value: d.value, is_active }
}

} // verus!
