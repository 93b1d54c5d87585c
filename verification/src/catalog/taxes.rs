//! Taxes. A rate is carried as the bit pattern of its `f64` value; the
//! arithmetic on rates happens outside this crate.

use vstd::prelude::*;

use crate::catalog::{bounded, bounded_text, CatalogError};
use crate::db::repositories::taxes as repo;
use crate::db::repositories::taxes::{lists_taxes, TaxRow};
use crate::db::{room, Database, DbError, Table};
use crate::text::owned;

verus! {

pub struct TaxDto {
    pub id: i64,
    pub name: String,
    /// The bit pattern of the `f64` rate.
    pub rate_bits: u64,
    pub is_active: bool,
}

pub struct TaxInput {
    pub name: String,
    /// The bit pattern of the `f64` rate.
    pub rate_bits: u64,
}

impl TaxDto {
    pub open spec fn of(row: TaxRow) -> TaxDto {
        TaxDto { id: row.id, name: row.name, rate_bits: row.rate_bits, is_active: row.is_active }
    }
}

impl From<TaxRow> for TaxDto {
    fn from(row: TaxRow) -> (d: TaxDto) {
        TaxDto { id: row.id, name: row.name, rate_bits: row.rate_bits, is_active: row.is_active }
    }
}

impl vstd::std_specs::convert::FromSpecImpl<TaxRow> for TaxDto {
    open spec fn obeys_from_spec() -> bool {
        true
    }

    open spec fn from_spec(row: TaxRow) -> TaxDto {
        TaxDto::of(row)
    }
}

/// The IEEE-754 double with bit pattern `bits` lies in `0.0..=1.0`: it is
/// `-0.0`, or a non-negative double no greater than `1.0` (whose pattern is
/// `0x3FF0_0000_0000_0000`); non-negative doubles are ordered as their bit
/// patterns, and NaNs lie outside.
pub open spec fn rate_in_range(bits: u64) -> bool {
    bits <= 0x3FF0_0000_0000_0000 || bits == 0x8000_0000_0000_0000
}

/// The trimmed name (1 to 100 characters), or the message rejecting the
/// input: a bad name first, then a rate outside `0.0..=1.0`.
pub open spec fn tax_check(input: TaxInput) -> Result<Seq<char>, Seq<char>> {
    match bounded_text(input.name@, 100) {
        None => Err("Name must be between 1 and 100 characters"@),
        Some(n) => if !rate_in_range(input.rate_bits) {
            Err("Rate must be between 0 and 1 (e.g. 0.2 for 20%)"@)
        } else {
            Ok(n)
        },
    }
}

fn validate(input: &TaxInput) -> (r: Result<String, CatalogError>)
    ensures
        match tax_check(*input) {
            Ok(n) => r matches Ok(s) && s@ == n,
            Err(m) => r matches Err(CatalogError::Validation(x)) && x@ == m,
        },
{
    let name = match bounded(input.name.as_str(), 100) {
        Some(n) => n,
        None => {
            return Err(CatalogError::Validation(owned("Name must be between 1 and 100 characters")));
        },
    };
    if !(input.rate_bits <= 0x3FF0_0000_0000_0000u64 || input.rate_bits == 0x8000_0000_0000_0000u64) {
        return Err(CatalogError::Validation(owned("Rate must be between 0 and 1 (e.g. 0.2 for 20%)")));
    }
    Ok(name)
}

fn dto(row: TaxRow) -> (d: TaxDto)
    ensures
        d == TaxDto::of(row),
{
    TaxDto { id: row.id, name: row.name, rate_bits: row.rate_bits, is_active: row.is_active }
}

/// All taxes, by name.
pub fn list(db: &Database) -> (r: Result<Vec<TaxDto>, CatalogError>)
    requires
        db.wf(),
    ensures
        r matches Ok(v) && exists|rows: Seq<TaxRow>|
            #[trigger] lists_taxes(db, rows) && v@ == rows.map_values(|row: TaxRow| TaxDto::of(row)),
{
    let found = repo::list(db);
    let mut out: Vec<TaxDto> = Vec::new();
    let mut k: usize = 0;
    while k < found.len()
        invariant
            k <= found@.len(),
            out@ == found@.take(k as int).map_values(|row: TaxRow| TaxDto::of(row)),
        decreases found@.len() - k,
    {
        let row = &found[k];
        out.push(TaxDto { id: row.id, name: row.name.clone(), rate_bits: row.rate_bits, is_active: row.is_active });
        k = k + 1;
        assert(out@ =~= found@.take(k as int).map_values(|row: TaxRow| TaxDto::of(row)));
    }
    assert(found@.take(found@.len() as int) =~= found@);
    Ok(out)
}

/// Creates an active tax (see `tax_check`).
pub fn create(db: &mut Database, input: TaxInput) -> (r: Result<TaxDto, CatalogError>)
    requires
        old(db).wf(),
    ensures
        final(db).wf(),
        match tax_check(input) {
            Err(m) => (r matches Err(CatalogError::Validation(x)) && x@ == m) && old(db).same_tables(final(db)),
            Ok(name) => if !room(old(db).taxes@.len()) {
                r matches Err(CatalogError::Db(DbError::Full)) && old(db).same_tables(final(db))
            } else {
                let id = old(db).taxes@.len() + 1;
                &&& r matches Ok(d) && d.id == id && d.name@ == name && d.rate_bits == input.rate_bits && d.is_active
                &&& final(db).taxes@.drop_last() == old(db).taxes@
                &&& final(db).taxes@.last().id == id
                &&& final(db).taxes@.last().name@ == name
                &&& final(db).taxes@.last().rate_bits == input.rate_bits
                &&& final(db).taxes@.last().is_active
                &&& old(db).agrees_outside(final(db), set![Table::Taxes])
            },
        },
{
    let name = match validate(&input) {
        Ok(n) => n,
        Err(e) => {
            return Err(e);
        },
    };
    let id = match repo::insert(db, name.as_str(), input.rate_bits) {
        Ok(id) => id,
        Err(e) => {
            return Err(CatalogError::Db(e));
        },
    };
    match repo::find_by_id(db, id) {
        Some(row) => Ok(dto(row)),
        None => Err(CatalogError::NotFound("tax")),
    }
}

/// Updates tax `id` (see `tax_check`); a tax that does not exist is not
/// found.
pub fn update(db: &mut Database, id: i64, input: TaxInput) -> (r: Result<TaxDto, CatalogError>)
    requires
        old(db).wf(),
    ensures
        final(db).wf(),
        match tax_check(input) {
            Err(m) => (r matches Err(CatalogError::Validation(x)) && x@ == m) && old(db).same_tables(final(db)),
            Ok(name) => if !(1 <= id <= old(db).taxes@.len()) {
                (r matches Err(CatalogError::NotFound(w)) && w@ == "tax"@) && old(db).same_tables(final(db))
            } else {
                let (a, t) = (old(db).taxes@[id - 1], final(db).taxes@[id - 1]);
                &&& r matches Ok(d) && d.id == id && d.name@ == name && d.rate_bits == input.rate_bits && d.is_active
                    == a.is_active
                &&& final(db).taxes@.len() == old(db).taxes@.len()
                &&& forall|j: int|
                    0 <= j < old(db).taxes@.len() && j != id - 1 ==> #[trigger] final(db).taxes@[j] == old(db).taxes@[j]
                &&& t.id == id && t.name@ == name && t.rate_bits == input.rate_bits && t.is_active == a.is_active
                &&& old(db).agrees_outside(final(db), set![Table::Taxes])
            },
        },
{
    let name = match validate(&input) {
        Ok(n) => n,
        Err(e) => {
            return Err(e);
        },
    };
    match repo::update(db, id, name.as_str(), input.rate_bits) {
        Ok(()) => {},
        Err(e) => {
            return Err(CatalogError::Db(e));
        },
    }
    proof {
        reveal_strlit("tax");
        if !(1 <= id <= old(db).taxes@.len()) {
            assert(db.taxes@ =~= old(db).taxes@);
        }
    }
    match repo::find_by_id(db, id) {
        Some(row) => Ok(dto(row)),
        None => Err(CatalogError::NotFound("tax")),
    }
}

/// Turns tax `id` on or off.
pub fn set_active(db: &mut Database, id: i64, is_active: bool) -> (r: Result<(), CatalogError>)
    requires
        old(db).wf(),
    ensures
        final(db).wf(),
        r is Ok,
        old(db).agrees_outside(final(db), set![Table::Taxes]),
        final(db).taxes@.len() == old(db).taxes@.len(),
        forall|j: int|
            0 <= j < old(db).taxes@.len() ==> {
                let (a, t) = (old(db).taxes@[j], #[trigger] final(db).taxes@[j]);
                &&& t.id == a.id
                &&& t.name == a.name
                &&& t.rate_bits == a.rate_bits
                &&& t.is_active == (if j == id - 1 { is_active } else { a.is_active })
            },
{
    match repo::set_active(db, id, is_active) {
        Ok(()) => Ok(()),
        Err(e) => Err(CatalogError::Db(e)),
    }
}

} // verus!
