use vstd::prelude::*;

use crate::catalog::error::friendly_conflict;
use crate::catalog::{bounded, bounded_text, lemma_single_hit, CatalogError};
use crate::db::repositories::units as repo;
use crate::db::repositories::units::{abbreviation_taken, lists_units, live, UnitRow};
use crate::db::{room, Database, DbError, Table};
use crate::text::owned;

verus! {

pub struct UnitDto {
    pub id: i64,
    pub name: String,
    pub abbreviation: String,
}

pub struct UnitInput {
    pub name: String,
    pub abbreviation: String,
}

impl UnitDto {
    pub open spec fn of(row: UnitRow) -> UnitDto {
        UnitDto { id: row.id, name: row.name, abbreviation: row.abbreviation }
    }
}

impl From<UnitRow> for UnitDto {
    fn from(row: UnitRow) -> (d: UnitDto) {
        UnitDto { id: row.id, name: row.name, abbreviation: row.abbreviation }
    }
}

impl vstd::std_specs::convert::FromSpecImpl<UnitRow> for UnitDto {
    open spec fn obeys_from_spec() -> bool {
        true
    }

    open spec fn from_spec(row: UnitRow) -> UnitDto {
        UnitDto::of(row)
    }
}

/// The trimmed name (1 to 50 characters) and abbreviation (1 to 10), or
/// the message rejecting them.
pub open spec fn unit_check(input: UnitInput) -> Result<(Seq<char>, Seq<char>), Seq<char>> {
    match bounded_text(input.name@, 50) {
        None => Err("Name must be between 1 and 50 characters"@),
        Some(n) => match bounded_text(input.abbreviation@, 10) {
            None => Err("Abbreviation must be between 1 and 10 characters"@),
            Some(a) => Ok((n, a)),
        },
    }
}

pub open spec fn conflict_message() -> Seq<char> {
    "A unit with this abbreviation already exists"@
}

fn validate(input: &UnitInput) -> (r: Result<(String, String), CatalogError>)
    ensures
        match unit_check(*input) {
            Ok((n, a)) => r matches Ok((s, t)) && s@ == n && t@ == a,
            Err(m) => r matches Err(CatalogError::Validation(x)) && x@ == m,
        },
{
    let name = match bounded(input.name.as_str(), 50) {
        Some(n) => n,
        None => {
            return Err(CatalogError::Validation(owned("Name must be between 1 and 50 characters")));
        },
    };
    match bounded(input.abbreviation.as_str(), 10) {
        Some(a) => Ok((name, a)),
        None => Err(CatalogError::Validation(owned("Abbreviation must be between 1 and 10 characters"))),
    }
}

fn report(e: DbError) -> (r: CatalogError)
    requires
        e matches DbError::Constraint(m) ==> m@ == "UNIQUE constraint failed: units.abbreviation"@,
    ensures
        e matches DbError::Constraint(_) ==> (r matches CatalogError::Conflict(m) && m@ == conflict_message()),
        e is Full ==> r matches CatalogError::Db(DbError::Full),
        e is Overflow ==> r matches CatalogError::Db(DbError::Overflow),
{
    let mapping: [(&str, &str); 1] = [("units.abbreviation", "A unit with this abbreviation already exists")];
    proof {
        reveal_strlit("UNIQUE constraint failed: units.abbreviation");
        reveal_strlit("UNIQUE constraint failed: ");
        reveal_strlit("units.abbreviation");
        assert("UNIQUE constraint failed: units.abbreviation"@ =~= "UNIQUE constraint failed: "@ + "units.abbreviation"@);
        lemma_single_hit(mapping@, "units.abbreviation"@);
    }
    friendly_conflict(e, &mapping)
}

/// The units not deleted, by name.
pub fn list(db: &Database) -> (r: Result<Vec<UnitDto>, CatalogError>)
    requires
        db.wf(),
    ensures
        r matches Ok(v) && exists|rows: Seq<UnitRow>|
            #[trigger] lists_units(db, rows) && v@ == rows.map_values(|row: UnitRow| UnitDto::of(row)),
{
    let found = repo::list(db);
    let mut out: Vec<UnitDto> = Vec::new();
    let mut k: usize = 0;
    while k < found.len()
        invariant
            k <= found@.len(),
            out@ == found@.take(k as int).map_values(|row: UnitRow| UnitDto::of(row)),
        decreases found@.len() - k,
    {
        out.push(UnitDto { id: found[k].id, name: found[k].name.clone(), abbreviation: found[k].abbreviation.clone() });
        k = k + 1;
        assert(out@ =~= found@.take(k as int).map_values(|row: UnitRow| UnitDto::of(row)));
    }
    assert(found@.take(found@.len() as int) =~= found@);
    Ok(out)
}

/// The answer to creating a unit: valid name and abbreviation, an unused
/// abbreviation, room in the store.
pub open spec fn create_answer(old: &Database, new: &Database, input: UnitInput, r: Result<UnitDto, CatalogError>) -> bool {
    match unit_check(input) {
        Err(m) => (r matches Err(CatalogError::Validation(x)) && x@ == m) && old.same_tables(new),
        Ok((name, abbreviation)) => if abbreviation_taken(old, abbreviation, -1) {
            (r matches Err(CatalogError::Conflict(m)) && m@ == conflict_message()) && old.same_tables(new)
        } else if !room(old.units@.len()) {
            r matches Err(CatalogError::Db(DbError::Full)) && old.same_tables(new)
        } else {
            &&& r matches Ok(d) && d.id == old.units@.len() + 1 && d.name@ == name && d.abbreviation@
                == abbreviation
            &&& new.units@.len() == old.units@.len() + 1
    &&& new.units@.drop_last() == old.units@
            &&& new.units@.last().id == old.units@.len() + 1
            &&& new.units@.last().name@ == name
            &&& new.units@.last().abbreviation@ == abbreviation
            &&& !new.units@.last().deleted
            &&& old.agrees_outside(new, set![Table::Units])
        },
    }
}

/// Creates a unit (see `unit_check`); abbreviations are unique.
pub fn create(db: &mut Database, input: UnitInput) -> (r: Result<UnitDto, CatalogError>)
    requires
        old(db).wf(),
    ensures
        final(db).wf(),
        create_answer(old(db), final(db), input, r),
{
    let (name, abbreviation) = match validate(&input) {
        Ok(v) => v,
        Err(e) => {
            return Err(e);
        },
    };
    let id = match repo::insert(db, name.as_str(), abbreviation.as_str()) {
        Ok(id) => id,
        Err(e) => {
            return Err(report(e));
        },
    };
    match repo::find_by_id(db, id) {
        Some(row) => Ok(UnitDto { id: row.id, name: row.name, abbreviation: row.abbreviation }),
        None => Err(CatalogError::NotFound("unit")),
    }
}

/// Updates unit `id` (see `create`); a unit that does not exist or was
/// deleted is not found.
pub fn update(db: &mut Database, id: i64, input: UnitInput) -> (r: Result<UnitDto, CatalogError>)
    requires
        old(db).wf(),
    ensures
        final(db).wf(),
        match unit_check(input) {
            Err(m) => (r matches Err(CatalogError::Validation(x)) && x@ == m) && old(db).same_tables(final(db)),
            Ok((name, abbreviation)) => if !live(old(db), id) {
                (r matches Err(CatalogError::NotFound(w)) && w@ == "unit"@) && old(db).same_tables(final(db))
            } else if abbreviation_taken(old(db), abbreviation, id - 1) {
                (r matches Err(CatalogError::Conflict(m)) && m@ == conflict_message()) && old(db).same_tables(final(db))
            } else {
                &&& r matches Ok(d) && d.id == id && d.name@ == name && d.abbreviation@ == abbreviation
                &&& final(db).units@.len() == old(db).units@.len()
                &&& forall|j: int|
                    0 <= j < old(db).units@.len() && j != id - 1 ==> #[trigger] final(db).units@[j] == old(db).units@[j]
                &&& final(db).units@[id - 1].id == id
                &&& final(db).units@[id - 1].name@ == name
                &&& final(db).units@[id - 1].abbreviation@ == abbreviation
                &&& !final(db).units@[id - 1].deleted
                &&& old(db).agrees_outside(final(db), set![Table::Units])
            },
        },
{
    let (name, abbreviation) = match validate(&input) {
        Ok(v) => v,
        Err(e) => {
            return Err(e);
        },
    };
    match repo::update(db, id, name.as_str(), abbreviation.as_str()) {
        Ok(()) => {},
        Err(e) => {
            return Err(report(e));
        },
    }
    proof {
        reveal_strlit("unit");
    }
    match repo::find_by_id(db, id) {
        Some(row) => Ok(UnitDto { id: row.id, name: row.name, abbreviation: row.abbreviation }),
        None => Err(CatalogError::NotFound("unit")),
    }
}

/// Soft-deletes unit `id`.
pub fn delete(db: &mut Database, id: i64) -> (r: Result<(), CatalogError>)
    requires
        old(db).wf(),
    ensures
        final(db).wf(),
        r is Ok,
        old(db).agrees_outside(final(db), set![Table::Units]),
        final(db).units@.len() == old(db).units@.len(),
        forall|j: int|
            0 <= j < old(db).units@.len() ==> {
                let (a, b) = (old(db).units@[j], #[trigger] final(db).units@[j]);
                &&& b.id == a.id
                &&& b.name == a.name
                &&& b.abbreviation == a.abbreviation
                &&& b.deleted == (a.deleted || j == id - 1)
            },
{
    match repo::soft_delete(db, id) {
        Ok(()) => Ok(()),
        Err(e) => Err(CatalogError::Db(e)),
    }
}

} // verus!
