//! Product catalog rules: categories, brands, units, taxes, discounts and
//! products. Validation, the all-or-nothing writes, and turning a broken
//! uniqueness rule (a duplicate SKU, say) into a message a person can act
//! on.

pub mod error;
pub mod brands;
pub mod categories;
pub mod units;
pub mod taxes;
pub mod discounts;
pub mod products;
pub mod laws;

pub use error::CatalogError;

use vstd::prelude::*;

use crate::text::{contains_seq, owned, trim, trim_str};

verus! {

/// `raw` trimmed, when that leaves 1 to `max` characters.
pub open spec fn bounded_text(raw: Seq<char>, max: nat) -> Option<Seq<char>> {
    let t = trim(raw);
    if t.len() == 0 || t.len() > max {
        None
    } else {
        Some(t)
    }
}

/// `raw` trimmed, when that leaves 1 to `max` characters.
pub fn bounded(raw: &str, max: usize) -> (r: Option<String>)
    ensures
        match bounded_text(raw@, max as nat) {
            Some(t) => r matches Some(s) && s@ == t,
            None => r is None,
        },
{
    let t = trim_str(raw);
    let n = t.unicode_len();
    if n == 0 || n > max {
        None
    } else {
        Some(owned(t))
    }
}

/// With one pair whose constraint text is `column`, the store's message
/// `UNIQUE constraint failed: <column>` is recognised as that pair.
pub proof fn lemma_single_hit(mapping: Seq<(&str, &str)>, column: Seq<char>)
    requires
        mapping.len() == 1,
        mapping[0].0@ == column,
    ensures
        crate::catalog::error::first_hit("UNIQUE constraint failed: "@ + column, mapping) == Some(0int),
{
    lemma_contains_suffix("UNIQUE constraint failed: "@, column);
    assert(mapping.drop_last() =~= Seq::<(&str, &str)>::empty());
    assert(crate::catalog::error::first_hit("UNIQUE constraint failed: "@ + column, mapping.drop_last()) is None);
    assert(mapping.last() == mapping[0]);
}

/// With two pairs, the first whose constraint text occurs in `m` is hit.
pub proof fn lemma_pair_hit(m: Seq<char>, mapping: Seq<(&str, &str)>)
    requires
        mapping.len() == 2,
    ensures
        contains_seq(m, mapping[0].0@) ==> crate::catalog::error::first_hit(m, mapping) == Some(0int),
        !contains_seq(m, mapping[0].0@) && contains_seq(m, mapping[1].0@) ==> crate::catalog::error::first_hit(
            m,
            mapping,
        ) == Some(1int),
        !contains_seq(m, mapping[0].0@) && !contains_seq(m, mapping[1].0@) ==> crate::catalog::error::first_hit(
            m,
            mapping,
        ) is None,
{
    let one = mapping.drop_last();
    assert(one.drop_last() =~= Seq::<(&str, &str)>::empty());
    assert(crate::catalog::error::first_hit(m, one.drop_last()) is None);
    assert(one.last() == mapping[0]);
    assert(mapping.last() == mapping[1]);
    assert(crate::catalog::error::first_hit(m, one) == (if contains_seq(m, mapping[0].0@) {
        Some(0int)
    } else {
        None
    }));
}

/// A text without some character of `needle` does not contain `needle`.
pub proof fn lemma_lacks_char(hay: Seq<char>, needle: Seq<char>, j: int)
    requires
        0 <= j < needle.len(),
        !hay.contains(needle[j]),
    ensures
        !contains_seq(hay, needle),
{
    if contains_seq(hay, needle) {
        crate::catalog::error::lemma_contains_chars(hay, needle, j);
    }
}

/// A text contains what it ends with.
pub proof fn lemma_contains_suffix(a: Seq<char>, b: Seq<char>)
    ensures
        contains_seq(a + b, b),
{
    assert((a + b).subrange(a.len() as int, (a.len() + b.len()) as int) =~= b);
}

} // verus!
