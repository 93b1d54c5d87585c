use vstd::prelude::*;

use crate::catalog::{bounded, bounded_text, CatalogError};
use crate::db::repositories::categories as repo;
use crate::db::repositories::categories::{lists_categories, live, CategoryRow};
use crate::db::{room, valid_opt_id, Database, DbError, Table};
use crate::text::owned;

verus! {

pub struct CategoryDto {
    pub id: i64,
    pub name: String,
    pub parent_id: Option<i64>,
    pub is_active: bool,
}

pub struct CategoryInput {
    pub name: String,
    pub parent_id: Option<i64>,
}

impl CategoryDto {
    pub open spec fn of(row: CategoryRow) -> CategoryDto {
        CategoryDto { id: row.id, name: row.name, parent_id: row.parent_id, is_active: row.is_active }
    }
}

impl From<CategoryRow> for CategoryDto {
    fn from(row: CategoryRow) -> (d: CategoryDto) {
        CategoryDto { id: row.id, name: row.name, parent_id: row.parent_id, is_active: row.is_active }
    }
}

impl vstd::std_specs::convert::FromSpecImpl<CategoryRow> for CategoryDto {
    open spec fn obeys_from_spec() -> bool {
        true
    }

    open spec fn from_spec(row: CategoryRow) -> CategoryDto {
        CategoryDto::of(row)
    }
}

pub open spec fn name_message() -> Seq<char> {
    "Name must be between 1 and 100 characters"@
}

fn validate_name(name: &str) -> (r: Result<String, CatalogError>)
    ensures
        match bounded_text(name@, 100) {
            Some(t) => r matches Ok(s) && s@ == t,
            None => r matches Err(CatalogError::Validation(m)) && m@ == name_message(),
        },
{
    match bounded(name, 100) {
        Some(s) => Ok(s),
        None => Err(CatalogError::Validation(owned("Name must be between 1 and 100 characters"))),
    }
}

fn dto(row: CategoryRow) -> (d: CategoryDto)
    ensures
        d == CategoryDto::of(row),
{
    CategoryDto { id: row.id, name: row.name, parent_id: row.parent_id, is_active: row.is_active }
}

/// The categories not deleted, by name.
pub fn list(db: &Database) -> (r: Result<Vec<CategoryDto>, CatalogError>)
    requires
        db.wf(),
    ensures
        r matches Ok(v) && exists|rows: Seq<CategoryRow>|
            #[trigger] lists_categories(db, rows) && v@ == rows.map_values(|row: CategoryRow| CategoryDto::of(row)),
{
    let found = repo::list(db);
    let mut out: Vec<CategoryDto> = Vec::new();
    let mut k: usize = 0;
    while k < found.len()
        invariant
            k <= found@.len(),
            out@ == found@.take(k as int).map_values(|row: CategoryRow| CategoryDto::of(row)),
        decreases found@.len() - k,
    {
        let row = &found[k];
        out.push(CategoryDto { id: row.id, name: row.name.clone(), parent_id: row.parent_id, is_active: row.is_active });
        k = k + 1;
        assert(out@ =~= found@.take(k as int).map_values(|row: CategoryRow| CategoryDto::of(row)));
    }
    assert(found@.take(found@.len() as int) =~= found@);
    Ok(out)
}

/// Creates an active category with the trimmed name (1 to 100 characters)
/// under `parent_id`, which must name a category.
pub fn create(db: &mut Database, input: CategoryInput) -> (r: Result<CategoryDto, CatalogError>)
    requires
        old(db).wf(),
    ensures
        final(db).wf(),
        match bounded_text(input.name@, 100) {
            None => (r matches Err(CatalogError::Validation(m)) && m@ == name_message()) && old(db).same_tables(final(db)),
            Some(name) => if !room(old(db).categories@.len()) {
                r matches Err(CatalogError::Db(DbError::Full)) && old(db).same_tables(final(db))
            } else if !valid_opt_id(input.parent_id, old(db).categories@.len() + 1) {
                (r matches Err(CatalogError::Db(DbError::Constraint(m))) && m@ == "FOREIGN KEY constraint failed"@)
                    && old(db).same_tables(final(db))
            } else {
                let id = old(db).categories@.len() + 1;
                &&& r matches Ok(d) && d.id == id && d.name@ == name && d.parent_id == input.parent_id && d.is_active
                &&& final(db).categories@.drop_last() == old(db).categories@
                &&& final(db).categories@.last().id == id
                &&& final(db).categories@.last().name@ == name
                &&& final(db).categories@.last().parent_id == input.parent_id
                &&& final(db).categories@.last().is_active
                &&& !final(db).categories@.last().deleted
                &&& old(db).agrees_outside(final(db), set![Table::Categories])
            },
        },
{
    let name = match validate_name(input.name.as_str()) {
        Ok(n) => n,
        Err(e) => {
            return Err(e);
        },
    };
    let id = match repo::insert(db, name.as_str(), input.parent_id) {
        Ok(id) => id,
        Err(e) => {
            return Err(CatalogError::Db(e));
        },
    };
    match repo::find_by_id(db, id) {
        Some(row) => Ok(dto(row)),
        None => Err(CatalogError::NotFound("category")),
    }
}

/// Renames and re-parents category `id`; a category cannot be its own
/// parent, the parent must exist, and a category that does not exist or
/// was deleted is not found.
pub fn update(db: &mut Database, id: i64, input: CategoryInput) -> (r: Result<CategoryDto, CatalogError>)
    requires
        old(db).wf(),
    ensures
        final(db).wf(),
        match bounded_text(input.name@, 100) {
            None => (r matches Err(CatalogError::Validation(m)) && m@ == name_message()) && old(db).same_tables(final(db)),
            Some(name) => if input.parent_id == Some(id) {
                (r matches Err(CatalogError::Validation(m)) && m@ == "A category cannot be its own parent"@)
                    && old(db).same_tables(final(db))
            } else if !live(old(db), id) {
                (r matches Err(CatalogError::NotFound(w)) && w@ == "category"@) && old(db).same_tables(final(db))
            } else if !valid_opt_id(input.parent_id, old(db).categories@.len()) {
                (r matches Err(CatalogError::Db(DbError::Constraint(m))) && m@ == "FOREIGN KEY constraint failed"@)
                    && old(db).same_tables(final(db))
            } else {
                let (a, c) = (old(db).categories@[id - 1], final(db).categories@[id - 1]);
                &&& r matches Ok(d) && d.id == id && d.name@ == name && d.parent_id == input.parent_id
                    && d.is_active == a.is_active
                &&& final(db).categories@.len() == old(db).categories@.len()
                &&& forall|j: int|
                    0 <= j < old(db).categories@.len() && j != id - 1 ==> #[trigger] final(db).categories@[j]
                        == old(db).categories@[j]
                &&& c.id == id && c.name@ == name && c.parent_id == input.parent_id && c.is_active == a.is_active
                    && !c.deleted
                &&& old(db).agrees_outside(final(db), set![Table::Categories])
            },
        },
{
    let name = match validate_name(input.name.as_str()) {
        Ok(n) => n,
        Err(e) => {
            return Err(e);
        },
    };
    if input.parent_id == Some(id) {
        return Err(CatalogError::Validation(owned("A category cannot be its own parent")));
    }
    match repo::update(db, id, name.as_str(), input.parent_id) {
        Ok(()) => {},
        Err(e) => {
            return Err(CatalogError::Db(e));
        },
    }
    proof {
        reveal_strlit("category");
    }
    match repo::find_by_id(db, id) {
        Some(row) => Ok(dto(row)),
        None => Err(CatalogError::NotFound("category")),
    }
}

/// Soft-deletes (and deactivates) category `id`.
pub fn delete(db: &mut Database, id: i64) -> (r: Result<(), CatalogError>)
    requires
        old(db).wf(),
    ensures
        final(db).wf(),
        r is Ok,
        old(db).agrees_outside(final(db), set![Table::Categories]),
        final(db).categories@.len() == old(db).categories@.len(),
        forall|j: int|
            0 <= j < old(db).categories@.len() ==> {
                let (a, b) = (old(db).categories@[j], #[trigger] final(db).categories@[j]);
                &&& b.id == a.id
                &&& b.name == a.name
                &&& b.parent_id == a.parent_id
                &&& b.is_active == (a.is_active && j != id - 1)
                &&& b.deleted == (a.deleted || j == id - 1)
            },
{
    match repo::soft_delete(db, id) {
        Ok(()) => Ok(()),
        Err(e) => Err(CatalogError::Db(e)),
    }
}

} // verus!
