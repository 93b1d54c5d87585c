use vstd::prelude::*;

use crate::catalog::error::friendly_conflict;
use crate::catalog::{bounded, bounded_text, lemma_single_hit, CatalogError};
use crate::db::repositories::brands as repo;
use crate::db::repositories::brands::{lists_brands, live, name_taken, BrandRow};
use crate::db::{room, Database, DbError, Table};
use crate::text::owned;

verus! {

pub struct BrandDto {
    pub id: i64,
    pub name: String,
}

pub struct BrandInput {
    pub name: String,
}

impl BrandDto {
    pub open spec fn of(row: BrandRow) -> BrandDto {
        BrandDto { id: row.id, name: row.name }
    }
}

impl From<BrandRow> for BrandDto {
    fn from(row: BrandRow) -> (d: BrandDto) {
        BrandDto { id: row.id, name: row.name }
    }
}

impl vstd::std_specs::convert::FromSpecImpl<BrandRow> for BrandDto {
    open spec fn obeys_from_spec() -> bool {
        true
    }

    open spec fn from_spec(row: BrandRow) -> BrandDto {
        BrandDto::of(row)
    }
}

pub open spec fn name_message() -> Seq<char> {
    "Name must be between 1 and 100 characters"@
}

pub open spec fn conflict_message() -> Seq<char> {
    "A brand with this name already exists"@
}

fn validate_name(name: &str) -> (r: Result<String, CatalogError>)
    ensures
        match bounded_text(name@, 100) {
            Some(t) => r matches Ok(s) && s@ == t,
            None => r matches Err(CatalogError::Validation(m)) && m@ == name_message(),
        },
{
    match bounded(name, 100) {
        Some(s) => Ok(s),
        None => Err(CatalogError::Validation(owned("Name must be between 1 and 100 characters"))),
    }
}

/// The error a failed brand write is reported with.
fn report(e: DbError) -> (r: CatalogError)
    requires
        e matches DbError::Constraint(m) ==> m@ == "UNIQUE constraint failed: brands.name"@,
    ensures
        e matches DbError::Constraint(_) ==> (r matches CatalogError::Conflict(m) && m@ == conflict_message()),
        e is Full ==> r matches CatalogError::Db(DbError::Full),
        e is Overflow ==> r matches CatalogError::Db(DbError::Overflow),
{
    let mapping: [(&str, &str); 1] = [("brands.name", "A brand with this name already exists")];
    proof {
        reveal_strlit("UNIQUE constraint failed: brands.name");
        reveal_strlit("UNIQUE constraint failed: ");
        reveal_strlit("brands.name");
        assert("UNIQUE constraint failed: brands.name"@ =~= "UNIQUE constraint failed: "@ + "brands.name"@);
        lemma_single_hit(mapping@, "brands.name"@);
    }
    friendly_conflict(e, &mapping)
}

/// The brands not deleted, by name.
pub fn list(db: &Database) -> (r: Result<Vec<BrandDto>, CatalogError>)
    requires
        db.wf(),
    ensures
        r matches Ok(v) && exists|rows: Seq<BrandRow>|
            #[trigger] lists_brands(db, rows) && v@ == rows.map_values(|row: BrandRow| BrandDto::of(row)),
{
    let found = repo::list(db);
    let mut out: Vec<BrandDto> = Vec::new();
    let mut k: usize = 0;
    while k < found.len()
        invariant
            k <= found@.len(),
            out@ == found@.take(k as int).map_values(|row: BrandRow| BrandDto::of(row)),
        decreases found@.len() - k,
    {
        out.push(BrandDto { id: found[k].id, name: found[k].name.clone() });
        k = k + 1;
        assert(out@ =~= found@.take(k as int).map_values(|row: BrandRow| BrandDto::of(row)));
    }
    assert(found@.take(found@.len() as int) =~= found@);
    Ok(out)
}

/// The answer to creating a brand: the trimmed name must be 1 to 100
/// characters and unused; the store must have room.
pub open spec fn create_answer(old: &Database, new: &Database, input: BrandInput, r: Result<BrandDto, CatalogError>) -> bool {
    match bounded_text(input.name@, 100) {
        None => (r matches Err(CatalogError::Validation(m)) && m@ == name_message()) && old.same_tables(new),
        Some(name) => if name_taken(old, name, -1) {
            (r matches Err(CatalogError::Conflict(m)) && m@ == conflict_message()) && old.same_tables(new)
        } else if !room(old.brands@.len()) {
            r matches Err(CatalogError::Db(DbError::Full)) && old.same_tables(new)
        } else {
            &&& r matches Ok(d) && d.id == old.brands@.len() + 1 && d.name@ == name
            &&& new.brands@.len() == old.brands@.len() + 1
    &&& new.brands@.drop_last() == old.brands@
            &&& new.brands@.last().id == old.brands@.len() + 1
            &&& new.brands@.last().name@ == name
            &&& !new.brands@.last().deleted
            &&& old.agrees_outside(new, set![Table::Brands])
        },
    }
}

/// Creates a brand with the trimmed name, which must be 1 to 100
/// characters and not used by another brand.
pub fn create(db: &mut Database, input: BrandInput) -> (r: Result<BrandDto, CatalogError>)
    requires
        old(db).wf(),
    ensures
        final(db).wf(),
        create_answer(old(db), final(db), input, r),
{
    let name = match validate_name(input.name.as_str()) {
        Ok(n) => n,
        Err(e) => {
            return Err(e);
        },
    };
    let id = match repo::insert(db, name.as_str()) {
        Ok(id) => id,
        Err(e) => {
            return Err(report(e));
        },
    };
    match repo::find_by_id(db, id) {
        Some(row) => Ok(BrandDto { id: row.id, name: row.name }),
        None => Err(CatalogError::NotFound("brand")),
    }
}

/// Renames brand `id` (see `create` for the name's rules); a brand that
/// does not exist or was deleted is not found.
pub fn update(db: &mut Database, id: i64, input: BrandInput) -> (r: Result<BrandDto, CatalogError>)
    requires
        old(db).wf(),
    ensures
        final(db).wf(),
        match bounded_text(input.name@, 100) {
            None => (r matches Err(CatalogError::Validation(m)) && m@ == name_message()) && old(db).same_tables(final(db)),
            Some(name) => if !live(old(db), id) {
                (r matches Err(CatalogError::NotFound(w)) && w@ == "brand"@) && old(db).same_tables(final(db))
            } else if name_taken(old(db), name, id - 1) {
                (r matches Err(CatalogError::Conflict(m)) && m@ == conflict_message()) && old(db).same_tables(final(db))
            } else {
                &&& r matches Ok(d) && d.id == id && d.name@ == name
                &&& final(db).brands@.len() == old(db).brands@.len()
                &&& forall|j: int|
                    0 <= j < old(db).brands@.len() && j != id - 1 ==> #[trigger] final(db).brands@[j] == old(db).brands@[j]
                &&& final(db).brands@[id - 1].id == id
                &&& final(db).brands@[id - 1].name@ == name
                &&& !final(db).brands@[id - 1].deleted
                &&& old(db).agrees_outside(final(db), set![Table::Brands])
            },
        },
{
    let name = match validate_name(input.name.as_str()) {
        Ok(n) => n,
        Err(e) => {
            return Err(e);
        },
    };
    match repo::update(db, id, name.as_str()) {
        Ok(()) => {},
        Err(e) => {
            return Err(report(e));
        },
    }
    proof {
        reveal_strlit("brand");
    }
    match repo::find_by_id(db, id) {
        Some(row) => Ok(BrandDto { id: row.id, name: row.name }),
        None => Err(CatalogError::NotFound("brand")),
    }
}

/// Soft-deletes brand `id`.
pub fn delete(db: &mut Database, id: i64) -> (r: Result<(), CatalogError>)
    requires
        old(db).wf(),
    ensures
        final(db).wf(),
        r is Ok,
        old(db).agrees_outside(final(db), set![Table::Brands]),
        final(db).brands@.len() == old(db).brands@.len(),
        forall|j: int|
            0 <= j < old(db).brands@.len() ==> {
                let (a, b) = (old(db).brands@[j], #[trigger] final(db).brands@[j]);
                &&& b.id == a.id
                &&& b.name == a.name
                &&& b.deleted == (a.deleted || j == id - 1)
            },
{
    match repo::soft_delete(db, id) {
        Ok(()) => Ok(()),
        Err(e) => Err(CatalogError::Db(e)),
    }
}

} // verus!
