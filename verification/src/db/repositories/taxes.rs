//! Taxes. A rate is carried as the bit pattern of its floating-point
//! value; arithmetic on it happens outside this crate.
use vstd::prelude::*;

use crate::db::{has_room, next_id, room, Database, DbError, Table, TaxRecord};
use crate::order::{candidates, enumerates_sorted, lemma_enumerates, sort_positions};
use crate::text::chars_of;

verus! {

pub struct TaxRow {
    pub id: i64,
    pub name: String,
    pub rate_bits: u64,
    pub is_active: bool,
}

impl TaxRow {
    pub open spec fn of(r: TaxRecord) -> TaxRow {
        TaxRow { id: r.id, name: r.name, rate_bits: r.rate_bits, is_active: r.is_active }
    }
}

pub open spec fn tax_visible(db: &Database) -> spec_fn(int) -> bool {
    |j: int| true
}

pub open spec fn tax_name(db: &Database) -> spec_fn(int) -> Seq<char> {
    |j: int| db.taxes@[j].name@
}

/// `rows` are all the taxes, ordered by name.
pub open spec fn lists_taxes(db: &Database, rows: Seq<TaxRow>) -> bool {
    exists|pos: Seq<int>|
        {
            &&& #[trigger] enumerates_sorted(pos, db.taxes@.len() as int, tax_visible(db), tax_name(db))
            &&& rows.len() == pos.len()
            &&& forall|k: int| 0 <= k < pos.len() ==> rows[k] == TaxRow::of(db.taxes@[pos[k]])
        }
}

fn row_of(r: &TaxRecord) -> (row: TaxRow)
    ensures
        row == TaxRow::of(*r),
{
    TaxRow { id: r.id, name: r.name.clone(), rate_bits: r.rate_bits, is_active: r.is_active }
}

/// Every tax, ordered by name.
pub fn list(db: &Database) -> (rows: Vec<TaxRow>)
    requires
        db.wf(),
    ensures
        lists_taxes(db, rows@),
{
    let ghost pred = tax_visible(db);
    let ghost key = tax_name(db);
    let n = db.taxes.len();
    let mut cand: Vec<usize> = Vec::new();
    let mut keys: Vec<Vec<char>> = Vec::new();
    let mut i: usize = 0;
    while i < n
        invariant
            n == db.taxes@.len(),
            i <= n,
            pred == tax_visible(db),
            key == tax_name(db),
            candidates(cand@, i as int, pred),
            keys.len() == cand.len(),
            forall|t: int| 0 <= t < cand.len() ==> (#[trigger] keys@[t])@ == key(cand@[t] as int),
        decreases n - i,
    {
        let ghost old_cand = cand@;
        assert(pred(i as int));
        {
            cand.push(i);
            keys.push(chars_of(db.taxes[i].name.as_str()));
            assert(cand@[cand.len() - 1] == i);
        }
        proof {
            assert forall|j: int| 0 <= j < i + 1 && #[trigger] pred(j) implies cand@.contains(j as usize) by {
                if j < i {
                    let t = choose|t: int| 0 <= t < old_cand.len() && old_cand[t] == j as usize;
                    assert(cand@[t] == j as usize);
                } else {
                    assert(cand@[cand.len() - 1] == i);
                }
            }
        }
        i = i + 1;
    }
    let idx = sort_positions(&keys);
    let mut rows: Vec<TaxRow> = Vec::new();
    let mut k: usize = 0;
    while k < idx.len()
        invariant
            k <= idx.len(),
            idx.len() == cand.len(),
            forall|a: int| 0 <= a < idx.len() ==> #[trigger] idx@[a] < cand.len(),
            forall|t: int| 0 <= t < cand.len() ==> #[trigger] cand@[t] < n,
            n == db.taxes@.len(),
            rows.len() == k,
            forall|a: int| 0 <= a < k ==> #[trigger] rows@[a] == TaxRow::of(db.taxes@[cand@[idx@[a] as int] as int]),
        decreases idx.len() - k,
    {
        let j = cand[idx[k]];
        rows.push(row_of(&db.taxes[j]));
        k = k + 1;
    }
    proof {
        let ks = keys@.map_values(|v: Vec<char>| v@);
        let pos = Seq::new(rows@.len(), |a: int| cand@[idx@[a] as int] as int);
        lemma_enumerates(cand@, ks, idx@, pos, n as int, pred, key);
        assert(enumerates_sorted(pos, db.taxes@.len() as int, pred, key));
    }
    rows
}

/// Tax `id`, if it exists.
pub fn find_by_id(db: &Database, id: i64) -> (r: Option<TaxRow>)
    requires
        db.wf(),
    ensures
        r == (if 1 <= id <= db.taxes@.len() {
            Some(TaxRow::of(db.taxes@[id - 1]))
        } else {
            None
        }),
{
    if id < 1 || id as u64 > db.taxes.len() as u64 {
        return None;
    }
    Some(row_of(&db.taxes[(id - 1) as usize]))
}

/// Adds a tax; a new tax is active.
pub fn insert(db: &mut Database, name: &str, rate_bits: u64) -> (r: Result<i64, DbError>)
    requires
        old(db).wf(),
    ensures
        final(db).wf(),
        match r {
            Ok(id) => {
                &&& room(old(db).taxes@.len())
                &&& id == old(db).taxes@.len() + 1
                &&& final(db).taxes@.len() == id
                &&& final(db).taxes@.drop_last() == old(db).taxes@
                &&& final(db).taxes@.last().id == id
                &&& final(db).taxes@.last().name@ == name@
                &&& final(db).taxes@.last().rate_bits == rate_bits
                &&& final(db).taxes@.last().is_active
                &&& old(db).agrees_outside(final(db), set![Table::Taxes])
            },
            Err(e) => {
                &&& e is Full
                &&& !room(old(db).taxes@.len())
                &&& old(db).same_tables(final(db))
                &&& final(db).clock() == old(db).clock()
            },
        },
{
    if !has_room(db.taxes.len()) {
        return Err(DbError::Full);
    }
    let id = next_id(db.taxes.len());
    db.taxes.push(TaxRecord { id, name: name.to_owned(), rate_bits, is_active: true });
    assert(db.taxes@.drop_last() =~= old(db).taxes@);
    Ok(id)
}

/// Rewrites tax `id`; nothing changes when `id` names none.
pub fn update(db: &mut Database, id: i64, name: &str, rate_bits: u64) -> (r: Result<(), DbError>)
    requires
        old(db).wf(),
    ensures
        final(db).wf(),
        r is Ok,
        old(db).agrees_outside(final(db), set![Table::Taxes]),
        final(db).taxes@.len() == old(db).taxes@.len(),
        forall|j: int|
            0 <= j < old(db).taxes@.len() && j != id - 1 ==> #[trigger] final(db).taxes@[j] == old(db).taxes@[j],
        1 <= id <= old(db).taxes@.len() ==> {
            let (a, t) = (old(db).taxes@[id - 1], final(db).taxes@[id - 1]);
            &&& t.id == id
            &&& t.name@ == name@
            &&& t.rate_bits == rate_bits
            &&& t.is_active == a.is_active
        },
{
    if id < 1 || id as u64 > db.taxes.len() as u64 {
        return Ok(());
    }
    let i = (id - 1) as usize;
    let is_active = db.taxes[i].is_active;
    db.taxes.set(i, TaxRecord { id, name: name.to_owned(), rate_bits, is_active });
    Ok(())
}

/// Sets whether tax `id` is active.
pub fn set_active(db: &mut Database, id: i64, is_active: bool) -> (r: Result<(), DbError>)
    requires
        old(db).wf(),
    ensures
        final(db).wf(),
        r is Ok,
        old(db).agrees_outside(final(db), set![Table::Taxes]),
        final(db).taxes@.len() == old(db).taxes@.len(),
        forall|j: int|
            0 <= j < old(db).taxes@.len() ==> {
                let (a, t) = (old(db).taxes@[j], #[trigger] final(db).taxes@[j]);
                &&& t.id == a.id
                &&& t.name == a.name
                &&& t.rate_bits == a.rate_bits
                &&& t.is_active == (if j == id - 1 { is_active } else { a.is_active })
            },
{
    if id < 1 || id as u64 > db.taxes.len() as u64 {
        return Ok(());
    }
    let i = (id - 1) as usize;
    let rec = copy_with_active(&db.taxes[i], is_active);
    db.taxes.set(i, rec);
    Ok(())
}

fn copy_with_active(t: &TaxRecord, is_active: bool) -> (r: TaxRecord)
    ensures
        r.id == t.id,
        r.name == t.name,
        r.rate_bits == t.rate_bits,
        r.is_active == is_active,
{
    TaxRecord { id: t.id, name: t.name.clone(), rate_bits: t.rate_bits, is_active }
}

} // verus!
