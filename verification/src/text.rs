//! Text primitives the catalog, auth and sales rules are written with:
//! whitespace trimming, decimal formatting, the byte-wise ordering of
//! text keys, substring search and `%`/`_` pattern matching.

use vstd::prelude::*;

verus! {

/// Unicode `White_Space`, the property `char::is_whitespace` documents.
pub open spec fn is_white_space(c: char) -> bool {
    let u = c as u32;
    ||| 0x9 <= u <= 0xD
    ||| u == 0x20
    ||| u == 0x85
    ||| u == 0xA0
    ||| u == 0x1680
    ||| 0x2000 <= u <= 0x200A
    ||| u == 0x2028
    ||| u == 0x2029
    ||| u == 0x202F
    ||| u == 0x205F
    ||| u == 0x3000
}

pub open spec fn trim_start(s: Seq<char>) -> Seq<char>
    decreases s.len(),
{
    if s.len() > 0 && is_white_space(s[0]) {
        trim_start(s.drop_first())
    } else {
        s
    }
}

pub open spec fn trim_end(s: Seq<char>) -> Seq<char>
    decreases s.len(),
{
    if s.len() > 0 && is_white_space(s.last()) {
        trim_end(s.drop_last())
    } else {
        s
    }
}

/// `s` without leading and trailing white space.
pub open spec fn trim(s: Seq<char>) -> Seq<char> {
    trim_end(trim_start(s))
}

/// What `str::to_lowercase` returns for a string: the Unicode lowercase
/// mapping of each character.
pub uninterp spec fn lowercase(s: Seq<char>) -> Seq<char>;

/// `str::trim`: the slice without leading and trailing characters for which
/// `char::is_whitespace` holds (Unicode `White_Space`), as its documentation
/// states.
#[verifier::external_body]
pub(crate) fn trim_str(s: &str) -> (r: &str)
    ensures
        r@ == trim(s@),
{
    s.trim()
}

/// Every character is ASCII.
pub open spec fn is_ascii_text(s: Seq<char>) -> bool {
    forall|i: int| 0 <= i < s.len() ==> (#[trigger] s[i] as u32) < 128
}

/// `s` with each ASCII capital letter `A`-`Z` replaced by its small letter.
pub open spec fn ascii_lower(s: Seq<char>) -> Seq<char> {
    Seq::new(
        s.len(),
        |i: int|
            if 'A' <= s[i] && s[i] <= 'Z' {
                ((s[i] as u32) + 32) as char
            } else {
                s[i]
            },
    )
}

/// What `str::to_lowercase` gives: the ASCII mapping on ASCII text, the
/// Unicode mapping (`lowercase`) otherwise.
pub open spec fn folded(s: Seq<char>) -> Seq<char> {
    if is_ascii_text(s) {
        ascii_lower(s)
    } else {
        lowercase(s)
    }
}

/// `str::to_lowercase`. Its result is named by `lowercase`. On ASCII text
/// the Unicode lowercase mapping is the ASCII one: `A`-`Z` become `a`-`z`
/// and every other character stays.
#[verifier::external_body]
pub(crate) fn to_lowercase(s: &str) -> (r: String)
    ensures
        r@ == lowercase(s@),
        is_ascii_text(s@) ==> r@ == ascii_lower(s@),
{
    s.to_lowercase()
}

/// The characters of `s`, in order.
pub(crate) fn chars_of(s: &str) -> (v: Vec<char>)
    ensures
        v@ == s@,
{
    broadcast use vstd::string::axiom_spec_iter;

    let mut v: Vec<char> = Vec::new();
    for c in it: s.chars()
        invariant
            v@ == it.seq().take(it.index() as int),
    {
        v.push(c);
    }
    v
}

/// The string made of the characters of `v`, in order (`FromIterator<char>`).
#[verifier::external_body]
pub(crate) fn string_from_chars(v: &[char]) -> (s: String)
    ensures
        s@ == v@,
{
    v.iter().collect()
}

/// The texts of `values`.
pub open spec fn texts(values: Seq<String>) -> Seq<Seq<char>> {
    values.map_values(|s: String| s@)
}

/// An owned copy of a string slice.
pub fn owned(s: &str) -> (r: String)
    ensures
        r@ == s@,
{
    s.to_owned()
}

/// Whether `a` holds exactly the text `b`.
pub fn text_is(a: &String, b: &str) -> (r: bool)
    ensures
        r == (a@ == b@),
{
    *a == owned(b)
}

/// The concatenation of `a` and `b`.
pub fn join(a: &str, b: &str) -> (r: String)
    ensures
        r@ == a@ + b@,
{
    let mut r = a.to_owned();
    r.append(b);
    r
}

// ---------------------------------------------------------------------
// Decimal formatting

pub open spec fn digit_char(d: nat) -> char {
    (48 + d) as char
}

/// The decimal digits of `n`, most significant first, no leading zeros.
pub open spec fn nat_digits(n: nat) -> Seq<char>
    decreases n,
{
    if n < 10 {
        seq![digit_char(n)]
    } else {
        nat_digits(n / 10).push(digit_char(n % 10))
    }
}

/// The decimal rendering of an integer, as `Display` writes it.
pub open spec fn decimal(n: int) -> Seq<char> {
    if n < 0 {
        seq!['-'] + nat_digits((-n) as nat)
    } else {
        nat_digits(n as nat)
    }
}

/// The decimal rendering of `n` padded with leading zeros to at least four
/// characters (`{:04}` on a non-negative number).
pub open spec fn zero_padded4(n: nat) -> Seq<char> {
    let d = nat_digits(n);
    if d.len() < 4 {
        Seq::new((4 - d.len()) as nat, |i: int| '0') + d
    } else {
        d
    }
}

fn push_digits(v: &mut Vec<char>, n: u64)
    ensures
        final(v)@ == old(v)@ + nat_digits(n as nat),
    decreases n,
{
    if n >= 10 {
        push_digits(v, n / 10);
    }
    let d: u8 = (n % 10) as u8;
    let c = (48u8 + d) as char;
    assert(c == digit_char((n % 10) as nat));
    v.push(c);
    proof {
        if n >= 10 {
            assert(nat_digits(n as nat) == nat_digits((n / 10) as nat).push(digit_char((n % 10) as nat)));
        }
    }
    assert(final(v)@ =~= old(v)@ + nat_digits(n as nat)) by {
        if n < 10 {
            assert(nat_digits(n as nat) == seq![digit_char(n as nat)]);
        }
    }
}

/// `n.to_string()` for an `i64`.
pub fn i64_to_string(n: i64) -> (s: String)
    ensures
        s@ == decimal(n as int),
{
    let mut v: Vec<char> = Vec::new();
    if n < 0 {
        v.push('-');
        let m: u64 = (-(n as i128)) as u64;
        push_digits(&mut v, m);
        assert(v@ =~= seq!['-'] + nat_digits((-n) as nat));
    } else {
        push_digits(&mut v, n as u64);
        assert(v@ =~= nat_digits(n as nat));
    }
    string_from_chars(v.as_slice())
}

/// `format!("{:04}", n)` for a non-negative `n`.
pub fn zero_pad4(n: u64) -> (s: String)
    ensures
        s@ == zero_padded4(n as nat),
{
    let mut d: Vec<char> = Vec::new();
    push_digits(&mut d, n);
    assert(d@ =~= nat_digits(n as nat));
    let mut v: Vec<char> = Vec::new();
    let mut k: usize = d.len();
    while k < 4
        invariant
            d@ == nat_digits(n as nat),
            d.len() <= k <= 4 || (k == d.len() && k >= 4),
            v@ == Seq::new((k - d.len()) as nat, |i: int| '0'),
        decreases 4 - k,
    {
        v.push('0');
        k = k + 1;
        assert(v@ =~= Seq::new((k - d.len()) as nat, |i: int| '0'));
    }
    let mut i: usize = 0;
    let ghost prefix = v@;
    while i < d.len()
        invariant
            i <= d.len(),
            v@ == prefix + d@.take(i as int),
        decreases d.len() - i,
    {
        v.push(d[i]);
        i = i + 1;
        assert(v@ =~= prefix + d@.take(i as int));
    }
    assert(d@.take(d.len() as int) =~= d@);
    proof {
        if d.len() < 4 {
            assert(prefix =~= Seq::new((4 - d@.len()) as nat, |i: int| '0'));
        } else {
            assert(prefix =~= Seq::<char>::empty());
            assert(v@ =~= d@);
        }
    }
    string_from_chars(v.as_slice())
}


// ---------------------------------------------------------------------
// Substring search

/// `needle` occurs in `hay` as a contiguous run of characters.
pub open spec fn contains_seq(hay: Seq<char>, needle: Seq<char>) -> bool {
    exists|i: int| 0 <= i && i + needle.len() <= hay.len() && #[trigger] hay.subrange(i, i + needle.len()) == needle
}

fn matches_at(hay: &Vec<char>, needle: &Vec<char>, i: usize) -> (r: bool)
    requires
        i + needle.len() <= hay.len(),
    ensures
        r == (hay@.subrange(i as int, i + needle.len()) == needle@),
{
    let mut k: usize = 0;
    while k < needle.len()
        invariant
            i + needle.len() <= hay.len(),
            k <= needle.len(),
            forall|j: int| 0 <= j < k ==> hay@[i + j] == needle@[j],
        decreases needle.len() - k,
    {
        if hay[i + k] != needle[k] {
            assert(hay@.subrange(i as int, i + needle.len())[k as int] != needle@[k as int]);
            return false;
        }
        k = k + 1;
    }
    assert(hay@.subrange(i as int, i + needle.len()) =~= needle@);
    true
}

/// `str::contains` with a string pattern, on character sequences.
pub fn contains(hay: &Vec<char>, needle: &Vec<char>) -> (r: bool)
    ensures
        r == contains_seq(hay@, needle@),
{
    if needle.len() > hay.len() {
        return false;
    }
    let last = hay.len() - needle.len();
    let mut i: usize = 0;
    loop
        invariant
            needle.len() <= hay.len(),
            last == hay.len() - needle.len(),
            i <= last,
            forall|j: int| 0 <= j < i ==> #[trigger] hay@.subrange(j, j + needle.len()) != needle@,
        decreases last - i,
    {
        if matches_at(hay, needle, i) {
            return true;
        }
        if i == last {
            return false;
        }
        i = i + 1;
    }
}

// ---------------------------------------------------------------------
// Search patterns

/// The case folding of pattern matching: ASCII letters only.
pub open spec fn ascii_fold(c: char) -> char {
    if 'A' <= c && c <= 'Z' {
        ((c as u32) + 32) as char
    } else {
        c
    }
}

/// Pattern matching for searches: `%` matches any run of characters,
/// `_` any one character, and other characters match themselves with ASCII
/// letters compared without regard to case.
pub open spec fn like(p: Seq<char>, t: Seq<char>) -> bool
    decreases p.len(), t.len(),
{
    if p.len() == 0 {
        t.len() == 0
    } else if p[0] == '%' {
        like(p.drop_first(), t) || (t.len() > 0 && like(p, t.drop_first()))
    } else if t.len() == 0 {
        false
    } else if p[0] == '_' || ascii_fold(p[0]) == ascii_fold(t[0]) {
        like(p.drop_first(), t.drop_first())
    } else {
        false
    }
}

/// `%` matches any text.
pub proof fn lemma_like_any(u: Seq<char>)
    ensures
        like(seq!['%'], u),
    decreases u.len(),
{
    let p = seq!['%'];
    assert(p[0] == '%');
    assert(p.drop_first() =~= Seq::<char>::empty());
    if u.len() > 0 {
        lemma_like_any(u.drop_first());
    } else {
        assert(like(p.drop_first(), u));
    }
}

/// `t` followed by `%` matches any text that starts with the letters of
/// `t` (ASCII case aside).
pub proof fn lemma_like_prefix(t: Seq<char>, u: Seq<char>)
    requires
        t.len() <= u.len(),
        forall|k: int| 0 <= k < t.len() ==> ascii_fold(#[trigger] t[k]) == ascii_fold(u[k]),
    ensures
        like(t + seq!['%'], u),
    decreases t.len(),
{
    let p = t + seq!['%'];
    if t.len() == 0 {
        assert(p =~= seq!['%']);
        lemma_like_any(u);
    } else {
        let t2 = t.drop_first();
        let u2 = u.drop_first();
        assert forall|k: int| 0 <= k < t2.len() implies ascii_fold(#[trigger] t2[k]) == ascii_fold(u2[k]) by {
            assert(t2[k] == t[k + 1]);
            assert(ascii_fold(t[k + 1]) == ascii_fold(u[k + 1]));
        }
        lemma_like_prefix(t2, u2);
        assert(p.drop_first() =~= t2 + seq!['%']);
        assert(p[0] == t[0]);
        assert(ascii_fold(t[0]) == ascii_fold(u[0]));
        if p[0] == '%' {
            // `%` may also take exactly one character
            assert(like(p.drop_first(), u2));
            assert(like(p, u2));
        }
    }
}

/// `%`, then `t`, then `%` matches any text in which the letters of `t`
/// (ASCII case aside) occur from position `i` on.
pub proof fn lemma_like_contains(t: Seq<char>, s: Seq<char>, i: int)
    requires
        0 <= i,
        i + t.len() <= s.len(),
        forall|k: int| 0 <= k < t.len() ==> ascii_fold(#[trigger] t[k]) == ascii_fold(s[i + k]),
    ensures
        like(seq!['%'] + t + seq!['%'], s),
    decreases i,
{
    let p = seq!['%'] + t + seq!['%'];
    assert(p[0] == '%');
    assert(p.drop_first() =~= t + seq!['%']);
    if i == 0 {
        lemma_like_prefix(t, s);
    } else {
        let s2 = s.drop_first();
        assert forall|k: int| 0 <= k < t.len() implies ascii_fold(#[trigger] t[k]) == ascii_fold(s2[i - 1 + k]) by {
            assert(s2[i - 1 + k] == s[i + k]);
        }
        lemma_like_contains(t, s2, i - 1);
    }
}

fn fold(c: char) -> (r: char)
    ensures
        r == ascii_fold(c),
{
    if 'A' <= c && c <= 'Z' {
        let u: u32 = c as u32;
        let v: u8 = (u + 32) as u8;
        v as char
    } else {
        c
    }
}

fn like_from(p: &Vec<char>, pi: usize, t: &Vec<char>, ti: usize) -> (r: bool)
    requires
        pi <= p.len(),
        ti <= t.len(),
    ensures
        r == like(p@.skip(pi as int), t@.skip(ti as int)),
    decreases p.len() - pi, t.len() - ti,
{
    let ghost ps = p@.skip(pi as int);
    let ghost ts = t@.skip(ti as int);
    if pi == p.len() {
        return ti == t.len();
    }
    assert(ps[0] == p@[pi as int]);
    assert(ps.drop_first() =~= p@.skip(pi + 1));
    if ti < t.len() {
        assert(ts[0] == t@[ti as int]);
        assert(ts.drop_first() =~= t@.skip(ti + 1));
    }
    if p[pi] == '%' {
        if like_from(p, pi + 1, t, ti) {
            return true;
        }
        if ti < t.len() {
            return like_from(p, pi, t, ti + 1);
        }
        return false;
    }
    if ti == t.len() {
        return false;
    }
    if p[pi] == '_' || fold(p[pi]) == fold(t[ti]) {
        like_from(p, pi + 1, t, ti + 1)
    } else {
        false
    }
}

/// `text` matches `pattern`.
pub fn like_match(pattern: &Vec<char>, text: &Vec<char>) -> (r: bool)
    ensures
        r == like(pattern@, text@),
{
    assert(pattern@.skip(0) =~= pattern@);
    assert(text@.skip(0) =~= text@);
    like_from(pattern, 0, text, 0)
}

} // verus!
