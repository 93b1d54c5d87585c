use vstd::prelude::*;

use crate::db::DbError;
use crate::text::{chars_of, contains, contains_seq, owned};

verus! {

#[derive(Debug)]
pub enum CatalogError {
    /// What was not found (`"brand"`, `"product"`, ...).
    NotFound(&'static str),
    Validation(String),
    /// A uniqueness rule was broken; the text says which, for a person.
    Conflict(String),
    Db(DbError),
}

/// The first pair of `mapping` whose constraint text occurs in `message`.
pub open spec fn first_hit(message: Seq<char>, mapping: Seq<(&str, &str)>) -> Option<int>
    decreases mapping.len(),
{
    if mapping.len() == 0 {
        None
    } else {
        match first_hit(message, mapping.drop_last()) {
            Some(i) => Some(i),
            None => if contains_seq(message, mapping.last().0@) {
                Some(mapping.len() - 1)
            } else {
                None
            },
        }
    }
}

/// Turns a violated uniqueness rule into a message a person can act on:
/// `mapping` pairs the constraint text (as the store reports it, e.g.
/// `brands.name`) with that message. Other errors pass through.
pub fn friendly_conflict(err: DbError, mapping: &[(&str, &str)]) -> (r: CatalogError)
    ensures
        match err {
            DbError::Constraint(m) => match first_hit(m@, mapping@) {
                Some(i) => r matches CatalogError::Conflict(x) && x@ == mapping@[i].1@,
                None => r matches CatalogError::Db(DbError::Constraint(m2)) && m2@ == m@,
            },
            _ => r == CatalogError::Db(err),
        },
{
    let hay = match &err {
        DbError::Constraint(message) => chars_of(message.as_str()),
        _ => {
            return CatalogError::Db(err);
        },
    };
    let ghost text = err->Constraint_0@;
    let mut i: usize = 0;
    while i < mapping.len()
        invariant
            i <= mapping@.len(),
            err is Constraint,
            text == err->Constraint_0@,
            hay@ == text,
            first_hit(text, mapping@.take(i as int)) is None,
        decreases mapping@.len() - i,
    {
        let (needle, friendly) = mapping[i];
        assert(mapping@.take(i + 1).drop_last() =~= mapping@.take(i as int));
        assert(mapping@.take(i + 1).last() == mapping@[i as int]);
        if contains(&hay, &chars_of(needle)) {
            proof {
                assert(first_hit(text, mapping@.take(i + 1)) == Some(i as int));
                lemma_first_hit_prefix(text, mapping@, i + 1);
            }
            return CatalogError::Conflict(owned(friendly));
        }
        i = i + 1;
    }
    assert(mapping@.take(mapping@.len() as int) =~= mapping@);
    CatalogError::Db(err)
}

proof fn lemma_first_hit_prefix(message: Seq<char>, mapping: Seq<(&str, &str)>, k: int)
    requires
        0 < k <= mapping.len(),
        first_hit(message, mapping.take(k)) is Some,
    ensures
        first_hit(message, mapping) == first_hit(message, mapping.take(k)),
    decreases mapping.len(),
{
    if k == mapping.len() {
        assert(mapping.take(k) =~= mapping);
    } else {
        assert(mapping.drop_last().take(k) =~= mapping.take(k));
        lemma_first_hit_prefix(message, mapping.drop_last(), k);
    }
}

/// A run of `needle` inside `hay` holds each of `needle`'s characters.
pub proof fn lemma_contains_chars(hay: Seq<char>, needle: Seq<char>, j: int)
    requires
        contains_seq(hay, needle),
        0 <= j < needle.len(),
    ensures
        hay.contains(needle[j]),
{
    let i = choose|i: int| 0 <= i && i + needle.len() <= hay.len() && #[trigger] hay.subrange(i, i + needle.len()) == needle;
    assert(hay.subrange(i, i + needle.len())[j] == hay[i + j]);
}

} // verus!
