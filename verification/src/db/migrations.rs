//! Forward-only schema migrations: naming (`NNNN_name.sql`), decoding,
//! ordering by version, and which are still to be applied. Reading the
//! migration files and executing their SQL happen outside this crate.

use vstd::prelude::*;

use crate::text::{chars_of, owned, string_from_chars};

verus! {

pub struct Migration {
    pub version: i64,
    pub name: String,
    pub sql: String,
}

#[derive(Debug)]
pub enum MigrationError {
    /// The file name does not match `NNNN_name.sql`; holds the name.
    InvalidFilename(String),
    /// The file is not valid UTF-8; holds its name.
    InvalidUtf8(String),
}

// ---------------------------------------------------------------------
// File names

pub open spec fn is_digit(c: char) -> bool {
    '0' <= c && c <= '9'
}

/// The value of a run of decimal digits.
pub open spec fn digits_value(d: Seq<char>) -> int
    decreases d.len(),
{
    if d.len() == 0 {
        0
    } else {
        digits_value(d.drop_last()) * 10 + (d.last() as int - '0' as int)
    }
}

/// `s` without a leading `+` or `-`.
pub open spec fn unsigned_part(s: Seq<char>) -> Seq<char> {
    if s.len() > 0 && (s[0] == '-' || s[0] == '+') {
        s.drop_first()
    } else {
        s
    }
}

pub open spec fn all_digits(d: Seq<char>) -> bool {
    forall|i: int| 0 <= i < d.len() ==> is_digit(#[trigger] d[i])
}

/// What `str::parse::<i64>` gives: an optional `+` or `-`, then one or
/// more ASCII digits, whose value must fit in an `i64`.
pub open spec fn parse_i64(s: Seq<char>) -> Option<int> {
    let digits = unsigned_part(s);
    if digits.len() == 0 || !all_digits(digits) {
        None
    } else {
        let v = if s[0] == '-' {
            -digits_value(digits)
        } else {
            digits_value(digits)
        };
        if i64::MIN <= v <= i64::MAX {
            Some(v)
        } else {
            None
        }
    }
}

proof fn lemma_digits_value_prefix(d: Seq<char>, k: int)
    requires
        0 <= k <= d.len(),
        forall|i: int| 0 <= i < d.len() ==> is_digit(#[trigger] d[i]),
    ensures
        0 <= digits_value(d.take(k)) <= digits_value(d),
    decreases d.len(),
{
    if k < d.len() {
        assert(d.drop_last().take(k) =~= d.take(k));
        lemma_digits_value_prefix(d.drop_last(), k);
        assert(is_digit(d.last()));
    } else {
        assert(d.take(k) =~= d);
        if d.len() > 0 {
            lemma_digits_value_prefix(d.drop_last(), k - 1);
            assert(d.drop_last().take(k - 1) =~= d.drop_last());
            assert(is_digit(d.last()));
        }
    }
}

/// `str::parse::<i64>` (see `parse_i64`).
pub fn parse_version(s: &str) -> (r: Option<i64>)
    ensures
        match parse_i64(s@) {
            Some(v) => r == Some(v as i64),
            None => r is None,
        },
{
    let cs = chars_of(s);
    let neg = cs.len() > 0 && cs[0] == '-';
    let start: usize = if cs.len() > 0 && (cs[0] == '-' || cs[0] == '+') {
        1
    } else {
        0
    };
    let ghost digits = cs@.subrange(start as int, cs@.len() as int);
    assert(digits =~= unsigned_part(cs@));
    if start == cs.len() {
        return None;
    }
    let mut acc: u128 = 0;
    let mut i: usize = start;
    while i < cs.len()
        invariant
            cs@ == s@,
            start <= i <= cs@.len(),
            digits == cs@.subrange(start as int, cs@.len() as int),
            digits == unsigned_part(s@),
            digits.len() > 0,
            forall|t: int| 0 <= t < i - start ==> is_digit(#[trigger] digits[t]),
            acc == digits_value(digits.take(i - start)),
            acc <= 0x1_0000_0000_0000_0000,
        decreases cs@.len() - i,
    {
        let c = cs[i];
        assert(c == digits[i - start]);
        if !('0' <= c && c <= '9') {
            assert(!is_digit(digits[i - start]));
            return None;
        }
        assert(digits.take(i - start + 1).drop_last() =~= digits.take(i - start));
        let d = (c as u32 - '0' as u32) as u128;
        acc = acc * 10 + d;
        i = i + 1;
        if acc > 0x1_0000_0000_0000_0000 {
            proof {
                assert(forall|t: int| 0 <= t < i - start ==> is_digit(#[trigger] digits[t]));
                if all_digits(digits) {
                    lemma_digits_value_prefix(digits, i - start);
                }
            }
            return None;
        }
    }
    assert(digits.take(digits.len() as int) =~= digits);
    if neg {
        if acc > 0x8000_0000_0000_0000 {
            None
        } else {
            Some((0 - (acc as i128)) as i64)
        }
    } else {
        if acc > 0x7fff_ffff_ffff_ffff {
            None
        } else {
            Some(acc as i64)
        }
    }
}

/// The first `_` in `s`, if any.
pub open spec fn first_underscore(s: Seq<char>) -> Option<int> {
    if exists|i: int| 0 <= i < s.len() && s[i] == '_' {
        Some(choose|i: int| 0 <= i < s.len() && s[i] == '_' && forall|j: int| 0 <= j < i ==> s[j] != '_')
    } else {
        None
    }
}

/// The version and name a migration file name `NNNN_name.sql` holds: the
/// text before the first `_` parsed as an `i64`, and the text after it
/// without the `.sql` ending.
pub open spec fn filename_parts(path: Seq<char>) -> Option<(int, Seq<char>)> {
    match first_underscore(path) {
        None => None,
        Some(u) => {
            let rest = path.subrange(u + 1, path.len() as int);
            let ext = seq!['.', 's', 'q', 'l'];
            if rest.len() < 4 || rest.subrange(rest.len() - 4, rest.len() as int) != ext {
                None
            } else {
                match parse_i64(path.subrange(0, u)) {
                    Some(v) => Some((v, rest.subrange(0, rest.len() - 4))),
                    None => None,
                }
            }
        },
    }
}

/// The version and name of a migration file (see `filename_parts`).
pub fn parse_filename(file_path: &str) -> (r: Result<(i64, String), MigrationError>)
    ensures
        match filename_parts(file_path@) {
            Some((v, name)) => r matches Ok((w, n)) && w == v && n@ == name,
            None => r matches Err(MigrationError::InvalidFilename(p)) && p@ == file_path@,
        },
{
    let cs = chars_of(file_path);
    let mut u: usize = 0;
    while u < cs.len() && cs[u] != '_'
        invariant
            cs@ == file_path@,
            u <= cs@.len(),
            forall|j: int| 0 <= j < u ==> cs@[j] != '_',
        decreases cs@.len() - u,
    {
        u = u + 1;
    }
    if u == cs.len() {
        return Err(MigrationError::InvalidFilename(owned(file_path)));
    }
    proof {
        let c = choose|i: int| 0 <= i < cs@.len() && cs@[i] == '_' && forall|j: int| 0 <= j < i ==> cs@[j] != '_';
        assert(c == u);
    }
    let n = cs.len();
    let rest_len = n - u - 1;
    if rest_len < 4 || cs[n - 4] != '.' || cs[n - 3] != 's' || cs[n - 2] != 'q' || cs[n - 1] != 'l' {
        proof {
            let rest = cs@.subrange(u + 1, n as int);
            if rest.len() >= 4 {
                let tail = rest.subrange(rest.len() - 4, rest.len() as int);
                if tail == seq!['.', 's', 'q', 'l'] {
                    assert(tail[0] == cs@[n - 4]);
                    assert(tail[1] == cs@[n - 3]);
                    assert(tail[2] == cs@[n - 2]);
                    assert(tail[3] == cs@[n - 1]);
                }
            }
        }
        return Err(MigrationError::InvalidFilename(owned(file_path)));
    }
    proof {
        let rest = cs@.subrange(u + 1, n as int);
        assert(rest.subrange(rest.len() - 4, rest.len() as int) =~= seq!['.', 's', 'q', 'l']);
    }
    let mut head: Vec<char> = Vec::new();
    let mut i: usize = 0;
    while i < u
        invariant
            i <= u < cs@.len(),
            head@ == cs@.subrange(0, i as int),
        decreases u - i,
    {
        head.push(cs[i]);
        i = i + 1;
        assert(head@ =~= cs@.subrange(0, i as int));
    }
    let mut name: Vec<char> = Vec::new();
    let mut j: usize = u + 1;
    while j < n - 4
        invariant
            u + 1 <= j <= n - 4,
            n == cs@.len(),
            name@ == cs@.subrange(u + 1, j as int),
        decreases n - 4 - j,
    {
        name.push(cs[j]);
        j = j + 1;
        assert(name@ =~= cs@.subrange(u + 1, j as int));
    }
    let version_text = string_from_chars(head.as_slice());
    match parse_version(version_text.as_str()) {
        Some(v) => {
            proof {
                let rest = cs@.subrange(u + 1, n as int);
                assert(rest.subrange(0, rest.len() - 4) =~= cs@.subrange(u + 1, n - 4));
            }
            Ok((v, string_from_chars(name.as_slice())))
        },
        None => Err(MigrationError::InvalidFilename(owned(file_path))),
    }
}


// ---------------------------------------------------------------------
// Loading and ordering

/// `std::str::from_utf8`, as an owned string: the text the bytes encode
/// when they are valid UTF-8, nothing otherwise.
#[verifier::external_body]
fn utf8_text(bytes: &[u8]) -> (r: Option<String>)
    ensures
        r is Some <==> vstd::utf8::valid_utf8(bytes@),
        r matches Some(s) ==> s@ == vstd::utf8::decode_utf8(bytes@),
{
    match std::str::from_utf8(bytes) {
        Ok(s) => Some(s.to_owned()),
        Err(_) => None,
    }
}

/// Migration `m` is what the file `name` with contents `bytes` holds.
pub open spec fn migration_of(m: Migration, name: Seq<char>, bytes: Seq<u8>) -> bool {
    filename_parts(name) matches Some((v, n)) && m.version == v && m.name@ == n && m.sql@
        == vstd::utf8::decode_utf8(bytes)
}

pub open spec fn file_ok(f: (String, Vec<u8>)) -> bool {
    filename_parts(f.0@) is Some && vstd::utf8::valid_utf8(f.1@)
}

/// The position of the first file that is not a migration.
pub open spec fn first_bad_file(files: Seq<(String, Vec<u8>)>) -> Option<int>
    decreases files.len(),
{
    if files.len() == 0 {
        None
    } else {
        match first_bad_file(files.drop_last()) {
            Some(i) => Some(i),
            None => if file_ok(files.last()) {
                None
            } else {
                Some(files.len() - 1)
            },
        }
    }
}

/// `e` reports why file `f` is not a migration: its name first, then its
/// encoding.
pub open spec fn file_error(f: (String, Vec<u8>), e: MigrationError) -> bool {
    if filename_parts(f.0@) is None {
        e matches MigrationError::InvalidFilename(p) && p@ == f.0@
    } else {
        e matches MigrationError::InvalidUtf8(p) && p@ == f.0@
    }
}

proof fn lemma_first_bad_file(files: Seq<(String, Vec<u8>)>, k: int)
    requires
        0 <= k < files.len(),
        first_bad_file(files.take(k)) is None,
        !file_ok(files[k]),
    ensures
        first_bad_file(files) == Some(k),
    decreases files.len(),
{
    assert(files.take(k + 1).drop_last() =~= files.take(k));
    if k + 1 < files.len() {
        assert(files.drop_last().take(k) =~= files.take(k));
        lemma_first_bad_file(files.drop_last(), k);
    } else {
        assert(files.take(k + 1) =~= files);
    }
}

/// `idx` lists every position of `keys` once, by key, ties in position
/// order: what a stable sort by key does.
pub open spec fn sorts_by_version(idx: Seq<usize>, keys: Seq<i64>) -> bool {
    &&& idx.len() == keys.len()
    &&& forall|a: int| 0 <= a < idx.len() ==> #[trigger] idx[a] < keys.len()
    &&& forall|a: int, b: int|
        0 <= a < b < idx.len() ==> keys[#[trigger] idx[a] as int] < keys[#[trigger] idx[b] as int] || (keys[idx[a] as int]
            == keys[idx[b] as int] && idx[a] < idx[b])
    &&& forall|j: usize| j < keys.len() ==> #[trigger] idx.contains(j)
}

/// Positions `0..keys.len()` ordered stably by key.
fn version_order(keys: &Vec<i64>) -> (idx: Vec<usize>)
    ensures
        sorts_by_version(idx@, keys@),
{
    let mut idx: Vec<usize> = Vec::new();
    let mut n: usize = 0;
    while n < keys.len()
        invariant
            n <= keys@.len(),
            idx@.len() == n,
            forall|a: int| 0 <= a < idx@.len() ==> #[trigger] idx@[a] < n,
            forall|j: usize| j < n ==> #[trigger] idx@.contains(j),
            forall|a: int, b: int|
                0 <= a < b < idx@.len() ==> keys@[#[trigger] idx@[a] as int] < keys@[#[trigger] idx@[b] as int] || (
                keys@[idx@[a] as int] == keys@[idx@[b] as int] && idx@[a] < idx@[b]),
        decreases keys@.len() - n,
    {
        let mut pos: usize = 0;
        while pos < idx.len() && keys[idx[pos]] <= keys[n]
            invariant
                pos <= idx@.len(),
                n < keys@.len(),
                forall|a: int| 0 <= a < idx@.len() ==> #[trigger] idx@[a] < n,
                forall|a: int| 0 <= a < pos ==> keys@[#[trigger] idx@[a] as int] <= keys@[n as int],
            decreases idx@.len() - pos,
        {
            pos = pos + 1;
        }
        let ghost old_idx = idx@;
        proof {
            assert forall|b: int| pos <= b < old_idx.len() implies keys@[n as int] < keys@[#[trigger] old_idx[b] as int] by {
                if b > pos {
                    assert(keys@[old_idx[pos as int] as int] <= keys@[old_idx[b] as int]);
                }
            }
        }
        idx.insert(pos, n);
        proof {
            assert(idx@[pos as int] == n);
            assert forall|j: usize| j < n + 1 implies #[trigger] idx@.contains(j) by {
                if j < n {
                    assert(old_idx.contains(j));
                    let a = choose|a: int| 0 <= a < old_idx.len() && old_idx[a] == j;
                    if a < pos {
                        assert(idx@[a] == j);
                    } else {
                        assert(idx@[a + 1] == j);
                    }
                } else {
                    assert(idx@[pos as int] == j);
                }
            }
            assert forall|a: int, b: int| 0 <= a < b < idx@.len() implies keys@[#[trigger] idx@[a] as int]
                < keys@[#[trigger] idx@[b] as int] || (keys@[idx@[a] as int] == keys@[idx@[b] as int] && idx@[a]
                < idx@[b]) by {
                if b < pos {
                    assert(idx@[a] == old_idx[a] && idx@[b] == old_idx[b]);
                } else if b == pos {
                    assert(idx@[a] == old_idx[a]);
                } else if a < pos {
                    assert(idx@[a] == old_idx[a] && idx@[b] == old_idx[b - 1]);
                } else if a == pos {
                    assert(idx@[b] == old_idx[b - 1]);
                } else {
                    assert(idx@[a] == old_idx[a - 1] && idx@[b] == old_idx[b - 1]);
                }
            }
        }
        n = n + 1;
    }
    idx
}

pub open spec fn versions(ms: Seq<Migration>) -> Seq<i64> {
    ms.map_values(|m: Migration| m.version)
}

/// Reads migration files (name and contents, in any order) into the
/// migrations they hold, ordered by version (files of equal version keep
/// their order). The first file that is not a migration is reported.
pub fn load_migrations(files: Vec<(String, Vec<u8>)>) -> (r: Result<Vec<Migration>, MigrationError>)
    ensures
        match first_bad_file(files@) {
            Some(i) => r matches Err(e) && file_error(files@[i], e),
            None => r matches Ok(out) && exists|parsed: Seq<Migration>, idx: Seq<usize>|
                {
                    &&& parsed.len() == files@.len()
                    &&& forall|i: int|
                        0 <= i < parsed.len() ==> migration_of(#[trigger] parsed[i], files@[i].0@, files@[i].1@)
                    &&& #[trigger] sorts_by_version(idx, versions(parsed))
                    &&& out@.len() == idx.len()
                    &&& forall|k: int| 0 <= k < out@.len() ==> out@[k] == parsed[idx[k] as int]
                },
        },
{
    let mut parsed: Vec<Migration> = Vec::new();
    let mut keys: Vec<i64> = Vec::new();
    let mut i: usize = 0;
    while i < files.len()
        invariant
            i <= files@.len(),
            first_bad_file(files@.take(i as int)) is None,
            parsed@.len() == i,
            keys@ == versions(parsed@),
            forall|t: int| 0 <= t < i ==> migration_of(#[trigger] parsed@[t], files@[t].0@, files@[t].1@),
        decreases files@.len() - i,
    {
        let (name, bytes) = (&files[i].0, &files[i].1);
        assert(files@.take(i + 1).drop_last() =~= files@.take(i as int));
        let (version, mname) = match parse_filename(name.as_str()) {
            Ok(p) => p,
            Err(e) => {
                proof {
                    lemma_first_bad_file(files@, i as int);
                }
                return Err(e);
            },
        };
        let sql = match utf8_text(bytes.as_slice()) {
            Some(s) => s,
            None => {
                proof {
                    lemma_first_bad_file(files@, i as int);
                }
                return Err(MigrationError::InvalidUtf8(name.clone()));
            },
        };
        assert(file_ok(files@[i as int]));
        assert(files@.take(i + 1).last() == files@[i as int]);
        parsed.push(Migration { version, name: mname, sql });
        keys.push(version);
        assert(keys@ =~= versions(parsed@));
        i = i + 1;
    }
    assert(files@.take(files@.len() as int) =~= files@);
    let idx = version_order(&keys);
    let mut slots: Vec<Option<Migration>> = Vec::new();
    let ghost all = parsed@;
    let mut p = parsed;
    let mut t: usize = 0;
    let n = p.len();
    while t < n
        invariant
            n == all.len(),
            t <= n,
            p@ == all.subrange(t as int, n as int),
            slots@.len() == t,
            forall|a: int| 0 <= a < t ==> #[trigger] slots@[a] == Some(all[a]),
        decreases n - t,
    {
        let m = p.remove(0);
        assert(m == all[t as int]);
        slots.push(Some(m));
        t = t + 1;
        assert(p@ =~= all.subrange(t as int, n as int));
    }
    let mut out: Vec<Migration> = Vec::new();
    let mut k: usize = 0;
    while k < idx.len()
        invariant
            k <= idx@.len(),
            sorts_by_version(idx@, versions(all)),
            slots@.len() == all.len(),
            idx@.len() == all.len(),
            out@.len() == k,
            forall|a: int| 0 <= a < k ==> out@[a] == all[idx@[a] as int],
            forall|a: int|
                0 <= a < slots@.len() ==> (#[trigger] slots@[a] == Some(all[a]) || (slots@[a] is None
                    && exists|b: int| 0 <= b < k && idx@[b] == a)),
        decreases idx@.len() - k,
    {
        let at = idx[k];
        let mut taken: Option<Migration> = None;
        let ghost before = slots@;
        std::mem::swap(&mut taken, &mut slots[at]);
        proof {
            assert(slots@ == before.update(at as int, None));
            if taken is None {
                let b = choose|b: int| 0 <= b < k && idx@[b] == at;
                assert(versions(all)[idx@[b] as int] < versions(all)[idx@[k as int] as int] || idx@[b] < idx@[k as int]);
            }
        }
        match taken {
            Some(m) => {
                out.push(m);
            },
            None => {
                proof {
                    assert(false);
                }
            },
        }
        k = k + 1;
    }
    Ok(out)
}

/// The migrations whose version is not among `applied`, in order.
pub fn pending(applied: &Vec<i64>, migrations: Vec<Migration>) -> (r: Vec<Migration>)
    ensures
        r@ == migrations@.filter(|m: Migration| !applied@.contains(m.version)),
{
    let ghost all = migrations@;
    let mut rest = migrations;
    let mut out: Vec<Migration> = Vec::new();
    let n = rest.len();
    let mut i: usize = 0;
    while i < n
        invariant
            n == all.len(),
            i <= n,
            rest@ == all.subrange(i as int, n as int),
            out@ == all.take(i as int).filter(|m: Migration| !applied@.contains(m.version)),
        decreases n - i,
    {
        let m = rest.remove(0);
        assert(m == all[i as int]);
        proof {
            reveal_with_fuel(Seq::<_>::filter, 1);
            assert(all.take(i + 1).drop_last() =~= all.take(i as int));
        }
        let mut seen = false;
        let mut j: usize = 0;
        while j < applied.len()
            invariant
                j <= applied@.len(),
                seen == exists|t: int| 0 <= t < j && applied@[t] == m.version,
            decreases applied@.len() - j,
        {
            if applied[j] == m.version {
                seen = true;
            }
            j = j + 1;
        }
        if !seen {
            out.push(m);
        }
        i = i + 1;
        assert(rest@ =~= all.subrange(i as int, n as int));
    }
    assert(all.take(n as int) =~= all);
    out
}

/// Once the version of every migration is recorded as applied, none is
/// pending: running the migrations again applies nothing.
pub proof fn law_nothing_pending_once_applied(applied: Seq<i64>, ms: Seq<Migration>)
    requires
        forall|i: int| 0 <= i < ms.len() ==> applied.contains(#[trigger] ms[i].version),
    ensures
        ms.filter(|m: Migration| !applied.contains(m.version)).len() == 0,
    decreases ms.len(),
{
    reveal_with_fuel(Seq::<_>::filter, 1);
    if ms.len() > 0 {
        let front = ms.drop_last();
        assert forall|i: int| 0 <= i < front.len() implies applied.contains(#[trigger] front[i].version) by {
            assert(front[i] == ms[i]);
        }
        law_nothing_pending_once_applied(applied, front);
        assert(applied.contains(ms[ms.len() - 1].version));
    }
}

/// With nothing recorded as applied, every migration is pending, in the
/// order given.
pub proof fn law_everything_pending_at_first(ms: Seq<Migration>)
    ensures
        ms.filter(|m: Migration| !Seq::<i64>::empty().contains(m.version)) == ms,
    decreases ms.len(),
{
    reveal_with_fuel(Seq::<_>::filter, 1);
    if ms.len() > 0 {
        law_everything_pending_at_first(ms.drop_last());
        assert(!Seq::<i64>::empty().contains(ms.last().version));
        assert(ms.drop_last().push(ms.last()) =~= ms);
    }
}

} // verus!
