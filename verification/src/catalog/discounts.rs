use vstd::prelude::*;

use crate::catalog::{bounded, bounded_text, CatalogError};
use crate::db::repositories::discounts as repo;
use crate::db::repositories::discounts::{lists_discounts, DiscountRow};
use crate::db::{room, Database, DbError, Table};
use crate::text::{owned, text_is};

verus! {

pub struct DiscountDto {
    pub id: i64,
    pub name: String,
    pub kind: String,
    pub value: i64,
    pub is_active: bool,
}

pub struct DiscountInput {
    pub name: String,
    pub kind: String,
    pub value: i64,
}

impl DiscountDto {
    pub open spec fn of(row: DiscountRow) -> DiscountDto {
        DiscountDto { id: row.id, name: row.name, kind: row.kind, value: row.value, is_active: row.is_active }
    }
}

impl From<DiscountRow> for DiscountDto {
    fn from(row: DiscountRow) -> (d: DiscountDto) {
        DiscountDto { id: row.id, name: row.name, kind: row.kind, value: row.value, is_active: row.is_active }
    }
}

impl vstd::std_specs::convert::FromSpecImpl<DiscountRow> for DiscountDto {
    open spec fn obeys_from_spec() -> bool {
        true
    }

    open spec fn from_spec(row: DiscountRow) -> DiscountDto {
        DiscountDto::of(row)
    }
}

/// The trimmed name, or the message rejecting the input, checked in this
/// order: the name (1 to 100 characters), the kind (`percent` or `fixed`),
/// a negative value, a percentage over 100.
pub open spec fn discount_check(input: DiscountInput) -> Result<Seq<char>, Seq<char>> {
    match bounded_text(input.name@, 100) {
        None => Err("Name must be between 1 and 100 characters"@),
        Some(n) => if input.kind@ != "percent"@ && input.kind@ != "fixed"@ {
            Err("Type must be 'percent' or 'fixed'"@)
        } else if input.value < 0 {
            Err("Value must not be negative"@)
        } else if input.kind@ == "percent"@ && input.value > 100 {
            Err("A percent discount cannot exceed 100"@)
        } else {
            Ok(n)
        },
    }
}

fn validate(input: &DiscountInput) -> (r: Result<String, CatalogError>)
    ensures
        match discount_check(*input) {
            Ok(n) => r matches Ok(s) && s@ == n,
            Err(m) => r matches Err(CatalogError::Validation(x)) && x@ == m,
        },
{
    let name = match bounded(input.name.as_str(), 100) {
        Some(n) => n,
        None => {
            return Err(CatalogError::Validation(owned("Name must be between 1 and 100 characters")));
        },
    };
    let percent = text_is(&input.kind, "percent");
    if !percent && !text_is(&input.kind, "fixed") {
        return Err(CatalogError::Validation(owned("Type must be 'percent' or 'fixed'")));
    }
    if input.value < 0 {
        return Err(CatalogError::Validation(owned("Value must not be negative")));
    }
    if percent && input.value > 100 {
        return Err(CatalogError::Validation(owned("A percent discount cannot exceed 100")));
    }
    Ok(name)
}

fn dto(row: DiscountRow) -> (d: DiscountDto)
    ensures
        d == DiscountDto::of(row),
{
    DiscountDto { id: row.id, name: row.name, kind: row.kind, value: row.value, is_active: row.is_active }
}

/// All discounts, by name.
pub fn list(db: &Database) -> (r: Result<Vec<DiscountDto>, CatalogError>)
    requires
        db.wf(),
    ensures
        r matches Ok(v) && exists|rows: Seq<DiscountRow>|
            #[trigger] lists_discounts(db, rows) && v@ == rows.map_values(|row: DiscountRow| DiscountDto::of(row)),
{
    let found = repo::list(db);
    let mut out: Vec<DiscountDto> = Vec::new();
    let mut k: usize = 0;
    while k < found.len()
        invariant
            k <= found@.len(),
            out@ == found@.take(k as int).map_values(|row: DiscountRow| DiscountDto::of(row)),
        decreases found@.len() - k,
    {
        let row = &found[k];
        out.push(
            DiscountDto {
                id: row.id,
                name: row.name.clone(),
                kind: row.kind.clone(),
                value: row.value,
                is_active: row.is_active,
            },
        );
        k = k + 1;
        assert(out@ =~= found@.take(k as int).map_values(|row: DiscountRow| DiscountDto::of(row)));
    }
    assert(found@.take(found@.len() as int) =~= found@);
    Ok(out)
}

/// Creates an active discount (see `discount_check`).
pub fn create(db: &mut Database, input: DiscountInput) -> (r: Result<DiscountDto, CatalogError>)
    requires
        old(db).wf(),
    ensures
        final(db).wf(),
        match discount_check(input) {
            Err(m) => (r matches Err(CatalogError::Validation(x)) && x@ == m) && old(db).same_tables(final(db)),
            Ok(name) => if !room(old(db).discounts@.len()) {
                r matches Err(CatalogError::Db(DbError::Full)) && old(db).same_tables(final(db))
            } else {
                let id = old(db).discounts@.len() + 1;
                let t = final(db).discounts@.last();
                &&& r matches Ok(d) && d.id == id && d.name@ == name && d.kind@ == input.kind@ && d.value == input.value
                    && d.is_active
                &&& final(db).discounts@.drop_last() == old(db).discounts@
                &&& t.id == id && t.name@ == name && t.kind@ == input.kind@ && t.value == input.value && t.is_active
                &&& old(db).agrees_outside(final(db), set![Table::Discounts])
            },
        },
{
    let name = match validate(&input) {
        Ok(n) => n,
        Err(e) => {
            return Err(e);
        },
    };
    let id = match repo::insert(db, name.as_str(), input.kind.as_str(), input.value) {
        Ok(id) => id,
        Err(e) => {
            return Err(CatalogError::Db(e));
        },
    };
    match repo::find_by_id(db, id) {
        Some(row) => Ok(dto(row)),
        None => Err(CatalogError::NotFound("discount")),
    }
}

/// Updates discount `id` (see `discount_check`); a discount that does not
/// exist is not found.
pub fn update(db: &mut Database, id: i64, input: DiscountInput) -> (r: Result<DiscountDto, CatalogError>)
    requires
        old(db).wf(),
    ensures
        final(db).wf(),
        match discount_check(input) {
            Err(m) => (r matches Err(CatalogError::Validation(x)) && x@ == m) && old(db).same_tables(final(db)),
            Ok(name) => if !(1 <= id <= old(db).discounts@.len()) {
                (r matches Err(CatalogError::NotFound(w)) && w@ == "discount"@) && old(db).same_tables(final(db))
            } else {
                let (a, t) = (old(db).discounts@[id - 1], final(db).discounts@[id - 1]);
                &&& r matches Ok(d) && d.id == id && d.name@ == name && d.kind@ == input.kind@ && d.value == input.value
                    && d.is_active == a.is_active
                &&& final(db).discounts@.len() == old(db).discounts@.len()
                &&& forall|j: int|
                    0 <= j < old(db).discounts@.len() && j != id - 1 ==> #[trigger] final(db).discounts@[j]
                        == old(db).discounts@[j]
                &&& t.id == id && t.name@ == name && t.kind@ == input.kind@ && t.value == input.value && t.is_active
                    == a.is_active
                &&& old(db).agrees_outside(final(db), set![Table::Discounts])
            },
        },
{
    let name = match validate(&input) {
        Ok(n) => n,
        Err(e) => {
            return Err(e);
        },
    };
    match repo::update(db, id, name.as_str(), input.kind.as_str(), input.value) {
        Ok(()) => {},
        Err(e) => {
            return Err(CatalogError::Db(e));
        },
    }
    proof {
        reveal_strlit("discount");
        if !(1 <= id <= old(db).discounts@.len()) {
            assert(db.discounts@ =~= old(db).discounts@);
        }
    }
    match repo::find_by_id(db, id) {
        Some(row) => Ok(dto(row)),
        None => Err(CatalogError::NotFound("discount")),
    }
}

/// Turns discount `id` on or off.
pub fn set_active(db: &mut Database, id: i64, is_active: bool) -> (r: Result<(), CatalogError>)
    requires
        old(db).wf(),
    ensures
        final(db).wf(),
        r is Ok,
        old(db).agrees_outside(final(db), set![Table::Discounts]),
        final(db).discounts@.len() == old(db).discounts@.len(),
        forall|j: int|
            0 <= j < old(db).discounts@.len() ==> {
                let (a, t) = (old(db).discounts@[j], #[trigger] final(db).discounts@[j]);
                &&& t.id == a.id
                &&& t.name == a.name
                &&& t.kind == a.kind
                &&& t.value == a.value
                &&& t.is_active == (if j == id - 1 { is_active } else { a.is_active })
            },
{
    match repo::set_active(db, id, is_active) {
        Ok(()) => Ok(()),
        Err(e) => Err(CatalogError::Db(e)),
    }
}

} // verus!
