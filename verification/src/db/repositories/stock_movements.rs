use vstd::prelude::*;

use crate::order::{candidates, enumerates_sorted, lemma_enumerates, sort_positions};
use crate::text::chars_of;
use crate::db::{
    constraint, has_room, same_except_stock, lemma_movement_total_push, movement_total, next_id, room, valid_id,
    valid_opt_id, Database, DbError, MovementRecord, ProductRecord, Table,
};

verus! {

pub struct MovementRow {
    pub id: i64,
    pub product_id: i64,
    pub product_name: String,
    pub quantity_delta: i64,
    pub reason: String,
    pub reference_type: Option<String>,
    pub reference_id: Option<String>,
    pub user_name: Option<String>,
    pub created_at: String,
}

pub open spec fn opt_str(s: Option<&str>) -> Option<Seq<char>> {
    match s {
        Some(v) => Some(v@),
        None => None,
    }
}

pub open spec fn opt_text(s: Option<String>) -> Option<Seq<char>> {
    match s {
        Some(v) => Some(v@),
        None => None,
    }
}

/// Why a movement cannot be recorded.
pub enum MovementFailure {
    ZeroDelta,
    MissingRow,
    NoRoom,
    StockOverflow,
}

/// What makes `insert` fail, in the order the statements report it.
pub open spec fn insert_error(
    db: &Database,
    product_id: i64,
    quantity_delta: i64,
    user_id: Option<i64>,
) -> Option<MovementFailure> {
    if quantity_delta == 0 {
        Some(MovementFailure::ZeroDelta)
    } else if !valid_id(product_id, db.products@.len()) || !valid_opt_id(user_id, db.users@.len()) {
        Some(MovementFailure::MissingRow)
    } else if !room(db.movements@.len()) {
        Some(MovementFailure::NoRoom)
    } else {
        let s = db.products@[product_id - 1].current_stock + quantity_delta;
        if s < i64::MIN || s > i64::MAX {
            Some(MovementFailure::StockOverflow)
        } else {
            None
        }
    }
}

fn opt_owned(s: Option<&str>) -> (r: Option<String>)
    ensures
        opt_text(r) == opt_str(s),
{
    match s {
        Some(v) => Some(v.to_owned()),
        None => None,
    }
}

/// Appends a stock movement and applies it to the product's stock in the
/// same step: the product's `current_stock` grows by `delta`. This is the
/// only way stock changes.
pub fn insert(
    db: &mut Database,
    product_id: i64,
    quantity_delta: i64,
    reason: &str,
    reference_type: Option<&str>,
    reference_id: Option<&str>,
    user_id: Option<i64>,
) -> (r: Result<i64, DbError>)
    requires
        old(db).wf(),
    ensures
        final(db).wf(),
        match insert_error(old(db), product_id, quantity_delta, user_id) {
            Some(MovementFailure::ZeroDelta) => (r matches Err(DbError::Constraint(m)) && m@ == "CHECK constraint failed: quantity_delta != 0"@),
            Some(MovementFailure::MissingRow) => (r matches Err(DbError::Constraint(m)) && m@ == "FOREIGN KEY constraint failed"@),
            Some(MovementFailure::NoRoom) => r matches Err(DbError::Full),
            Some(MovementFailure::StockOverflow) => r matches Err(DbError::Overflow),
            None => r is Ok,
        },
        r is Err ==> old(db).same_tables(final(db)),
        r matches Ok(id) ==> {
            let m = final(db).movements@.last();
            let (a, p) = (old(db).products@[product_id - 1], final(db).products@[product_id - 1]);
            &&& id == old(db).movements@.len() + 1
            &&& final(db).movements@.len() == id
            &&& final(db).movements@.drop_last() == old(db).movements@
            &&& m.id == id
            &&& m.product_id == product_id
            &&& m.quantity_delta == quantity_delta
            &&& m.reason@ == reason@
            &&& opt_text(m.reference_type) == opt_str(reference_type)
            &&& opt_text(m.reference_id) == opt_str(reference_id)
            &&& m.user_id == user_id
            &&& m.created_at@ == old(db).clock()
            &&& old(db).agrees_outside(final(db), set![Table::Movements, Table::Products])
            &&& final(db).products@.len() == old(db).products@.len()
            &&& forall|j: int|
                0 <= j < old(db).products@.len() && j != product_id - 1 ==> #[trigger] final(db).products@[j]
                    == old(db).products@[j]
            &&& p.current_stock == a.current_stock + quantity_delta
            &&& same_except_stock(a, p)
        },
{
    if quantity_delta == 0 {
        return Err(constraint("CHECK constraint failed: quantity_delta != 0"));
    }
    let np = db.products.len();
    let valid_user = match user_id {
        Some(u) => 1 <= u && u as u64 <= db.users.len() as u64,
        None => true,
    };
    if product_id < 1 || product_id as u64 > np as u64 || !valid_user {
        return Err(constraint("FOREIGN KEY constraint failed"));
    }
    if !has_room(db.movements.len()) {
        return Err(DbError::Full);
    }
    let i = (product_id - 1) as usize;
    let new_stock = match db.products[i].current_stock.checked_add(quantity_delta) {
        Some(v) => v,
        None => {
            return Err(DbError::Overflow);
        },
    };
    let id = next_id(db.movements.len());
    let m = MovementRecord {
        id,
        product_id,
        quantity_delta,
        reason: reason.to_owned(),
        reference_type: opt_owned(reference_type),
        reference_id: opt_owned(reference_id),
        user_id,
        created_at: db.now.clone(),
    };
    let ghost old_movs = db.movements@;
    db.movements.push(m);
    let p = &db.products[i];
    let rec = ProductRecord {
        id: p.id,
        sku: p.sku.clone(),
        name: p.name.clone(),
        description: match &p.description {
            Some(d) => Some(d.clone()),
            None => None,
        },
        category_id: p.category_id,
        brand_id: p.brand_id,
        unit_id: p.unit_id,
        purchase_price: p.purchase_price,
        selling_price: p.selling_price,
        tax_id: p.tax_id,
        discount_id: p.discount_id,
        min_stock: p.min_stock,
        current_stock: new_stock,
        is_active: p.is_active,
        image_path: match &p.image_path {
            Some(d) => Some(d.clone()),
            None => None,
        },
        created_at: p.created_at.clone(),
        updated_at: p.updated_at.clone(),
        deleted: p.deleted,
    };
    db.products.set(i, rec);
    proof {
        assert(db.movements@ == old_movs.push(db.movements@.last()));
        assert(db.movements@.drop_last() =~= old_movs);
        assert forall|j: int| 0 <= j < db.products@.len() implies #[trigger] db.products@[j].current_stock
            == movement_total(db.movements@, (j + 1) as i64) by {
            lemma_movement_total_push(old_movs, db.movements@.last(), (j + 1) as i64);
            assert(old(db).products@[j].current_stock == movement_total(old_movs, (j + 1) as i64));
        }
    }
    Ok(id)
}

pub open spec fn movement_of(db: &Database, product_id: Option<i64>) -> spec_fn(int) -> bool {
    |j: int|
        match product_id {
            Some(p) => db.movements@[j].product_id == p,
            None => true,
        }
}

pub open spec fn movement_time(db: &Database) -> spec_fn(int) -> Seq<char> {
    |j: int| db.movements@[j].created_at@
}

/// `row` is movement row `j` joined with its product's name and its user's
/// full name.
pub open spec fn row_matches(db: &Database, row: MovementRow, j: int) -> bool {
    let m = db.movements@[j];
    &&& row.id == m.id
    &&& row.product_id == m.product_id
    &&& row.product_name == db.products@[m.product_id - 1].name
    &&& row.quantity_delta == m.quantity_delta
    &&& row.reason == m.reason
    &&& row.reference_type == m.reference_type
    &&& row.reference_id == m.reference_id
    &&& row.user_name == (match m.user_id {
        Some(u) => Some(db.users@[u - 1].full_name),
        None => None,
    })
    &&& row.created_at == m.created_at
}

/// How many of `n` rows a limit of `limit` keeps (a negative limit keeps
/// all).
pub open spec fn limited(limit: i64, n: int) -> int {
    if limit < 0 || limit >= n {
        n
    } else {
        limit as int
    }
}

/// `rows` are the movements (of `product_id`, if given), newest first
/// (by `created_at`, then id), at most `limit` of them.
pub open spec fn lists_movements(db: &Database, product_id: Option<i64>, limit: i64, rows: Seq<MovementRow>) -> bool {
    exists|pos: Seq<int>|
        {
            &&& #[trigger] enumerates_sorted(
                pos,
                db.movements@.len() as int,
                movement_of(db, product_id),
                movement_time(db),
            )
            &&& rows.len() == limited(limit, pos.len() as int)
            &&& forall|k: int| 0 <= k < rows.len() ==> row_matches(db, rows[k], pos[pos.len() - 1 - k])
        }
}

fn row_at(db: &Database, j: usize) -> (row: MovementRow)
    requires
        db.wf(),
        j < db.movements@.len(),
    ensures
        row_matches(db, row, j as int),
{
    let m = &db.movements[j];
    let _ = (db.products.len(), db.users.len());
    proof {
        let mm = db.movements@[j as int];
        assert(valid_id(mm.product_id, db.products@.len()));
        assert(valid_opt_id(mm.user_id, db.users@.len()));
    }
    let pi = (m.product_id - 1) as usize;
    let product_name = db.products[pi].name.clone();
    let user_name = match m.user_id {
        Some(u) => {
            let ui = (u - 1) as usize;
            let n = db.users[ui].full_name.clone();
            Some(n)
        },
        None => None,
    };
    MovementRow {
        id: m.id,
        product_id: m.product_id,
        product_name,
        quantity_delta: m.quantity_delta,
        reason: m.reason.clone(),
        reference_type: match &m.reference_type {
            Some(v) => Some(v.clone()),
            None => None,
        },
        reference_id: match &m.reference_id {
            Some(v) => Some(v.clone()),
            None => None,
        },
        user_name,
        created_at: m.created_at.clone(),
    }
}

/// The stock movements of `product_id` (of every product when it is
/// `None`), newest first and, at the same instant, latest recorded first,
/// at most `limit` of them, each with its product's and user's names.
pub fn list(db: &Database, product_id: Option<i64>, limit: i64) -> (rows: Vec<MovementRow>)
    requires
        db.wf(),
    ensures
        lists_movements(db, product_id, limit, rows@),
{
    let ghost pred = movement_of(db, product_id);
    let ghost key = movement_time(db);
    let n = db.movements.len();
    let mut cand: Vec<usize> = Vec::new();
    let mut keys: Vec<Vec<char>> = Vec::new();
    let mut i: usize = 0;
    while i < n
        invariant
            n == db.movements@.len(),
            i <= n,
            pred == movement_of(db, product_id),
            key == movement_time(db),
            candidates(cand@, i as int, pred),
            keys.len() == cand.len(),
            forall|t: int| 0 <= t < cand.len() ==> (#[trigger] keys@[t])@ == key(cand@[t] as int),
        decreases n - i,
    {
        let ghost old_cand = cand@;
        let keep = match product_id {
            Some(p) => db.movements[i].product_id == p,
            None => true,
        };
        assert(pred(i as int) == keep);
        if keep {
            cand.push(i);
            keys.push(chars_of(db.movements[i].created_at.as_str()));
            assert(cand@[cand.len() - 1] == i);
        }
        proof {
            assert forall|j: int| 0 <= j < i + 1 && #[trigger] pred(j) implies cand@.contains(j as usize) by {
                if j < i {
                    let t = choose|t: int| 0 <= t < old_cand.len() && old_cand[t] == j as usize;
                    assert(cand@[t] == j as usize);
                } else {
                    assert(cand@[cand.len() - 1] == i);
                }
            }
        }
        i = i + 1;
    }
    let idx = sort_positions(&keys);
    let total = idx.len();
    let count: usize = if limit < 0 || limit as u64 >= total as u64 {
        total
    } else {
        limit as usize
    };
    let mut rows: Vec<MovementRow> = Vec::new();
    let mut k: usize = 0;
    while k < count
        invariant
            db.wf(),
            count <= total,
            total == idx.len(),
            k <= count,
            idx.len() == cand.len(),
            forall|a: int| 0 <= a < idx.len() ==> #[trigger] idx@[a] < cand.len(),
            forall|t: int| 0 <= t < cand.len() ==> #[trigger] cand@[t] < n,
            n == db.movements@.len(),
            rows.len() == k,
            forall|a: int|
                0 <= a < k ==> row_matches(db, #[trigger] rows@[a], cand@[idx@[total - 1 - a] as int] as int),
        decreases count - k,
    {
        let j = cand[idx[total - 1 - k]];
        rows.push(row_at(db, j));
        k = k + 1;
    }
    proof {
        let ks = keys@.map_values(|v: Vec<char>| v@);
        let pos = Seq::new(total as nat, |a: int| cand@[idx@[a] as int] as int);
        lemma_enumerates(cand@, ks, idx@, pos, n as int, pred, key);
        assert(enumerates_sorted(pos, db.movements@.len() as int, pred, key));
        assert(rows@.len() == limited(limit, pos.len() as int));
        assert forall|a: int| 0 <= a < rows@.len() implies row_matches(db, rows@[a], pos[pos.len() - 1 - a]) by {
            assert(rows@[a] == rows@[a]);
        }
    }
    rows
}

} // verus!
