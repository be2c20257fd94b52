//! Character-level text operations shared by the parsers and renderers.
//!
//! Text is handled as sequences of `char`; the spec functions below say what
//! the standard-library string operations used by the rule system compute.
use vstd::prelude::*;

verus! {

/// Characters of a string slice, in order.
pub fn chars_of(s: &str) -> (v: Vec<char>)
    ensures
        v@ == s@,
{
    let mut v: Vec<char> = Vec::new();
    for c in it: s.chars()
        invariant
            v@ == it.seq().take(it.index() as int),
            it.seq() == s@,
    {
        v.push(c);
    }
    v
}

/// Builds a `String` from its characters (`FromIterator<char>` for `String`).
#[verifier::external_body]
pub(crate) fn string_from_chars(v: Vec<char>) -> (s: String)
    ensures
        s@ == v@,
{
    v.into_iter().collect()
}

/// Owned copy of a string slice.
pub fn owned(s: &str) -> (r: String)
    ensures
        r@ == s@,
{
    s.to_owned()
}

/// Exact copy of the characters of `v` in `[lo, hi)`.
pub fn copy_range(v: &Vec<char>, lo: usize, hi: usize) -> (r: Vec<char>)
    requires
        lo <= hi <= v@.len(),
    ensures
        r@ == v@.subrange(lo as int, hi as int),
{
    let mut r: Vec<char> = Vec::new();
    let mut i = lo;
    while i < hi
        invariant
            lo <= i <= hi <= v@.len(),
            r@ == v@.subrange(lo as int, i as int),
        decreases hi - i,
    {
        r.push(v[i]);
        i += 1;
    }
    r
}

/// Appends all characters of `b` to `a`.
pub fn append_chars(a: &mut Vec<char>, b: &Vec<char>)
    ensures
        final(a)@ == old(a)@ + b@,
{
    let mut i: usize = 0;
    while i < b.len()
        invariant
            0 <= i <= b@.len(),
            a@ == old(a)@ + b@.take(i as int),
        decreases b@.len() - i,
    {
        a.push(b[i]);
        i += 1;
        assert(b@.take(i as int) =~= b@.take(i - 1).push(b@[i - 1]));
    }
    assert(b@.take(b@.len() as int) =~= b@);
}

/// Appends the characters of a string slice.
pub fn append_str(a: &mut Vec<char>, s: &str)
    ensures
        final(a)@ == old(a)@ + s@,
{
    let b = chars_of(s);
    append_chars(a, &b);
}

/// Characters are equal sequences.
pub fn chars_eq(a: &Vec<char>, b: &Vec<char>) -> (r: bool)
    ensures
        r == (a@ == b@),
{
    if a.len() != b.len() {
        return false;
    }
    let mut i: usize = 0;
    while i < a.len()
        invariant
            a@.len() == b@.len(),
            0 <= i <= a@.len(),
            forall|j: int| 0 <= j < i ==> a@[j] == b@[j],
        decreases a@.len() - i,
    {
        if a[i] != b[i] {
            return false;
        }
        i += 1;
    }
    assert(a@ =~= b@);
    true
}

/// Two strings hold the same characters.
pub fn str_eq(a: &str, b: &str) -> (r: bool)
    ensures
        r == (a@ == b@),
{
    let x = chars_of(a);
    let y = chars_of(b);
    chars_eq(&x, &y)
}

/// Index of the first occurrence of `c`.
pub open spec fn first_index_of(s: Seq<char>, c: char) -> Option<int>
    decreases s.len(),
{
    if s.len() == 0 {
        None
    } else {
        match first_index_of(s.drop_last(), c) {
            Some(k) => Some(k),
            None => if s.last() == c {
                Some(s.len() - 1)
            } else {
                None
            },
        }
    }
}

pub proof fn lemma_first_index_of(s: Seq<char>, c: char)
    ensures
        match first_index_of(s, c) {
            Some(k) => 0 <= k < s.len() && s[k] == c && forall|j: int| 0 <= j < k ==> s[j] != c,
            None => forall|j: int| 0 <= j < s.len() ==> s[j] != c,
        },
    decreases s.len(),
{
    if s.len() > 0 {
        let init = s.drop_last();
        lemma_first_index_of(init, c);
        assert forall|j: int| 0 <= j < init.len() implies init[j] == s[j] by {}
    }
}

/// Position of the first `c` in `v`.
pub fn first_index_exec(v: &Vec<char>, c: char) -> (r: Option<usize>)
    ensures
        match r {
            Some(k) => first_index_of(v@, c) == Some(k as int),
            None => first_index_of(v@, c) is None,
        },
{
    let mut i: usize = 0;
    while i < v.len()
        invariant
            0 <= i <= v@.len(),
            first_index_of(v@.take(i as int), c) is None,
        decreases v@.len() - i,
    {
        assert(v@.take(i + 1).drop_last() =~= v@.take(i as int));
        if v[i] == c {
            proof {
                lemma_first_index_of(v@, c);
                lemma_first_index_of(v@.take(i as int), c);
                assert(first_index_of(v@.take(i + 1), c) == Some(i as int));
                assert forall|j: int| 0 <= j < i implies v@[j] != c by {
                    assert(v@.take(i as int)[j] == v@[j]);
                }
                match first_index_of(v@, c) {
                    Some(k) => {
                        if k < i {
                            assert(v@.take(i as int)[k] == v@[k]);
                        }
                    },
                    None => {},
                }
            }
            return Some(i);
        }
        i += 1;
    }
    assert(v@.take(v@.len() as int) =~= v@);
    None
}

// ---------------------------------------------------------------------------
// Character classes

/// `char::is_whitespace`: the Unicode `White_Space` property.
pub open spec fn is_white(c: char) -> bool {
    let u = c as u32;
    ||| 0x09 <= u <= 0x0D
    ||| u == 0x20
    ||| u == 0x85
    ||| u == 0xA0
    ||| u == 0x1680
    ||| 0x2000 <= u <= 0x200A
    ||| u == 0x2028
    ||| u == 0x2029
    ||| u == 0x202F
    ||| u == 0x205F
    ||| u == 0x3000
}

pub fn char_is_white(c: char) -> (r: bool)
    ensures
        r == is_white(c),
{
    let u = c as u32;
    (0x09 <= u && u <= 0x0D) || u == 0x20 || u == 0x85 || u == 0xA0 || u == 0x1680 || (0x2000
        <= u && u <= 0x200A) || u == 0x2028 || u == 0x2029 || u == 0x202F || u == 0x205F || u
        == 0x3000
}

pub open spec fn is_ascii_lower(c: char) -> bool {
    'a' <= c <= 'z'
}

pub open spec fn is_ascii_upper(c: char) -> bool {
    'A' <= c <= 'Z'
}

pub open spec fn is_ascii_digit(c: char) -> bool {
    '0' <= c <= '9'
}

pub open spec fn is_ascii_alnum(c: char) -> bool {
    is_ascii_lower(c) || is_ascii_upper(c) || is_ascii_digit(c)
}

pub fn char_is_ascii_alnum(c: char) -> (r: bool)
    ensures
        r == is_ascii_alnum(c),
{
    ('a' <= c && c <= 'z') || ('A' <= c && c <= 'Z') || ('0' <= c && c <= '9')
}

/// `char::to_ascii_lowercase`.
pub open spec fn ascii_lower(c: char) -> char {
    if is_ascii_upper(c) {
        ((c as u32) + 32) as char
    } else {
        c
    }
}

pub fn char_ascii_lower(c: char) -> (r: char)
    ensures
        r == ascii_lower(c),
{
    if 'A' <= c && c <= 'Z' {
        let u = (c as u32) + 32;
        assert(0x61 <= u <= 0x7A);
        char_from_ascii(u)
    } else {
        c
    }
}

/// The ASCII character with the given code.
fn char_from_ascii(u: u32) -> (c: char)
    requires
        u < 0x80,
    ensures
        c == u as char,
{
    let b: u8 = u as u8;
    b as char
}

/// What `char::to_lowercase` yields for `c` (Unicode lowercase mapping).
pub uninterp spec fn lowercase_of_char(c: char) -> Seq<char>;

/// The lowercase mapping of one character.  For an ASCII character it is the
/// character itself, a capital `A`..`Z` replaced by its small letter; beyond
/// ASCII it is the Unicode mapping, named by `lowercase_of_char`.
pub open spec fn char_lowered(c: char) -> Seq<char> {
    if c <= '\u{7f}' {
        seq![ascii_lower(c)]
    } else {
        lowercase_of_char(c)
    }
}

/// `char::to_lowercase`, collected.  The result is the Unicode lowercase
/// mapping of `c`, which depends on `c` alone; on ASCII it changes only the
/// capitals `A`..`Z`.  Of the non-ASCII mapping nothing is stated but that it
/// is a function of `c`.
#[verifier::external_body]
pub(crate) fn char_to_lowercase(c: char) -> (r: Vec<char>)
    ensures
        c <= '\u{7f}' ==> r@ == seq![ascii_lower(c)],
        c > '\u{7f}' ==> r@ == lowercase_of_char(c),
{
    c.to_lowercase().collect()
}

/// What `str::to_lowercase` returns for a string with characters `s`.
pub uninterp spec fn lowercase_of_str(s: Seq<char>) -> Seq<char>;

/// Whether every character is ASCII.
pub open spec fn is_ascii_chars(s: Seq<char>) -> bool {
    forall|i: int| 0 <= i < s.len() ==> s[i] <= '\u{7f}'
}

/// The lowercase form of a string: on ASCII text each capital `A`..`Z`
/// replaced by its small letter and the rest kept; otherwise the Unicode
/// form, named by `lowercase_of_str`.
pub open spec fn str_lowered(s: Seq<char>) -> Seq<char> {
    if is_ascii_chars(s) {
        Seq::new(s.len(), |i: int| ascii_lower(s[i]))
    } else {
        lowercase_of_str(s)
    }
}

/// `str::to_lowercase`.  The result is the Unicode lowercase form of the
/// whole string (context-sensitive for final sigma), a function of `s` alone;
/// ASCII text is lowered character by character.  Of text with non-ASCII
/// characters nothing is stated but that the result is a function of `s`.
#[verifier::external_body]
pub(crate) fn str_to_lowercase(s: &str) -> (r: String)
    ensures
        is_ascii_chars(s@) ==> r@ == Seq::new(s@.len(), |i: int| ascii_lower(s@[i])),
        !is_ascii_chars(s@) ==> r@ == lowercase_of_str(s@),
{
    s.to_lowercase()
}

/// What `char::is_alphanumeric` returns (Unicode `Alphabetic` or `Numeric`).
pub uninterp spec fn unicode_alphanumeric(c: char) -> bool;

/// `char::is_alphanumeric`.  The answer depends on `c` alone; on ASCII it
/// holds of exactly the letters and digits.
#[verifier::external_body]
pub(crate) fn char_is_alphanumeric(c: char) -> (r: bool)
    ensures
        r == unicode_alphanumeric(c),
        c <= '\u{7f}' ==> r == is_ascii_alnum(c),
{
    c.is_alphanumeric()
}

/// Sets of characters that the trimming operations remove.
pub enum CharClass {
    /// `char::is_whitespace`.
    White,
    /// One given character.
    Only(char),
    /// Markdown list markers `-`, `*`, `+`.
    ListMarker,
    /// Leading markers stripped from a summary line: `-`, `*`, `>` and space.
    SummaryMarker,
    /// Characters that are not `char::is_alphanumeric`.
    NotAlphanumeric,
    /// Separators of the words of a slug: `-`, `_` and `/`.
    SlugSeparator,
}

pub open spec fn in_class(k: CharClass, c: char) -> bool {
    match k {
        CharClass::White => is_white(c),
        CharClass::Only(x) => c == x,
        CharClass::ListMarker => c == '-' || c == '*' || c == '+',
        CharClass::SummaryMarker => c == '-' || c == '*' || c == '>' || c == ' ',
        CharClass::NotAlphanumeric => !unicode_alphanumeric(c),
        CharClass::SlugSeparator => c == '-' || c == '_' || c == '/',
    }
}

pub fn class_has(k: &CharClass, c: char) -> (r: bool)
    ensures
        r == in_class(*k, c),
{
    match k {
        CharClass::White => char_is_white(c),
        CharClass::Only(x) => c == *x,
        CharClass::ListMarker => c == '-' || c == '*' || c == '+',
        CharClass::SummaryMarker => c == '-' || c == '*' || c == '>' || c == ' ',
        CharClass::NotAlphanumeric => !char_is_alphanumeric(c),
        CharClass::SlugSeparator => c == '-' || c == '_' || c == '/',
    }
}

// ---------------------------------------------------------------------------
// Trimming

/// `trim_start_matches` with a character class.
pub open spec fn trim_start_by(s: Seq<char>, k: CharClass) -> Seq<char>
    decreases s.len(),
{
    if s.len() > 0 && in_class(k, s[0]) {
        trim_start_by(s.drop_first(), k)
    } else {
        s
    }
}

/// `trim_end_matches` with a character class.
pub open spec fn trim_end_by(s: Seq<char>, k: CharClass) -> Seq<char>
    decreases s.len(),
{
    if s.len() > 0 && in_class(k, s.last()) {
        trim_end_by(s.drop_last(), k)
    } else {
        s
    }
}

/// `trim_matches` with a character class.
pub open spec fn trim_by(s: Seq<char>, k: CharClass) -> Seq<char> {
    trim_end_by(trim_start_by(s, k), k)
}

/// `str::trim_start`.
pub open spec fn trim_start(s: Seq<char>) -> Seq<char> {
    trim_start_by(s, CharClass::White)
}

/// `str::trim_end`.
pub open spec fn trim_end(s: Seq<char>) -> Seq<char> {
    trim_end_by(s, CharClass::White)
}

/// `str::trim`.
pub open spec fn trim(s: Seq<char>) -> Seq<char> {
    trim_by(s, CharClass::White)
}

pub proof fn lemma_trim_start_at(s: Seq<char>, k: CharClass, i: int)
    requires
        0 <= i <= s.len(),
        forall|j: int| 0 <= j < i ==> in_class(k, #[trigger] s[j]),
        i == s.len() || !in_class(k, s[i]),
    ensures
        trim_start_by(s, k) == s.skip(i),
    decreases i,
{
    if i == 0 {
        assert(s.skip(0) =~= s);
    } else {
        let t = s.drop_first();
        assert forall|j: int| 0 <= j < i - 1 implies in_class(k, #[trigger] t[j]) by {
            assert(t[j] == s[j + 1]);
        }
        lemma_trim_start_at(t, k, i - 1);
        assert(t.skip(i - 1) =~= s.skip(i));
    }
}

pub proof fn lemma_trim_end_at(s: Seq<char>, k: CharClass, e: int)
    requires
        0 <= e <= s.len(),
        forall|j: int| e <= j < s.len() ==> in_class(k, #[trigger] s[j]),
        e == 0 || !in_class(k, s[e - 1]),
    ensures
        trim_end_by(s, k) == s.take(e),
    decreases s.len() - e,
{
    if e == s.len() {
        assert(s.take(e) =~= s);
    } else {
        let t = s.drop_last();
        assert forall|j: int| e <= j < t.len() implies in_class(k, #[trigger] t[j]) by {
            assert(t[j] == s[j]);
        }
        lemma_trim_end_at(t, k, e);
        assert(t.take(e) =~= s.take(e));
    }
}

/// Index of the first character of `v[lo..hi)` not in the class (or `hi`).
pub fn skip_class(v: &Vec<char>, lo: usize, hi: usize, k: &CharClass) -> (i: usize)
    requires
        lo <= hi <= v@.len(),
    ensures
        lo <= i <= hi,
        forall|j: int| lo <= j < i ==> in_class(*k, #[trigger] v@[j]),
        i == hi || !in_class(*k, v@[i as int]),
{
    let mut i = lo;
    while i < hi && class_has(k, v[i])
        invariant
            lo <= i <= hi <= v@.len(),
            forall|j: int| lo <= j < i ==> in_class(*k, #[trigger] v@[j]),
        decreases hi - i,
    {
        i += 1;
    }
    i
}

/// Index one past the last character of `v[lo..hi)` not in the class (or `lo`).
pub fn skip_class_back(v: &Vec<char>, lo: usize, hi: usize, k: &CharClass) -> (e: usize)
    requires
        lo <= hi <= v@.len(),
    ensures
        lo <= e <= hi,
        forall|j: int| e <= j < hi ==> in_class(*k, #[trigger] v@[j]),
        e == lo || !in_class(*k, v@[e - 1]),
{
    let mut e = hi;
    while e > lo && class_has(k, v[e - 1])
        invariant
            lo <= e <= hi <= v@.len(),
            forall|j: int| e <= j < hi ==> in_class(*k, #[trigger] v@[j]),
        decreases e - lo,
    {
        e -= 1;
    }
    e
}

pub fn trim_start_chars(v: &Vec<char>, k: &CharClass) -> (r: Vec<char>)
    ensures
        r@ == trim_start_by(v@, *k),
{
    let i = skip_class(v, 0, v.len(), k);
    proof {
        lemma_trim_start_at(v@, *k, i as int);
    }
    let r = copy_range(v, i, v.len());
    assert(r@ =~= v@.skip(i as int));
    r
}

pub fn trim_end_chars(v: &Vec<char>, k: &CharClass) -> (r: Vec<char>)
    ensures
        r@ == trim_end_by(v@, *k),
{
    let e = skip_class_back(v, 0, v.len(), k);
    proof {
        lemma_trim_end_at(v@, *k, e as int);
    }
    let r = copy_range(v, 0, e);
    assert(r@ =~= v@.take(e as int));
    r
}

pub fn trim_chars(v: &Vec<char>, k: &CharClass) -> (r: Vec<char>)
    ensures
        r@ == trim_by(v@, *k),
{
    let a = trim_start_chars(v, k);
    trim_end_chars(&a, k)
}

// ---------------------------------------------------------------------------
// Prefixes, suffixes, searching

pub open spec fn starts_with(s: Seq<char>, p: Seq<char>) -> bool {
    p.len() <= s.len() && s.take(p.len() as int) == p
}

pub open spec fn ends_with(s: Seq<char>, p: Seq<char>) -> bool {
    p.len() <= s.len() && s.skip(s.len() - p.len()) == p
}

pub fn chars_start_with(s: &Vec<char>, p: &Vec<char>) -> (r: bool)
    ensures
        r == starts_with(s@, p@),
{
    if p.len() > s.len() {
        return false;
    }
    let mut i: usize = 0;
    while i < p.len()
        invariant
            p@.len() <= s@.len(),
            0 <= i <= p@.len(),
            forall|j: int| 0 <= j < i ==> s@[j] == p@[j],
        decreases p@.len() - i,
    {
        if s[i] != p[i] {
            assert(s@.take(p@.len() as int)[i as int] != p@[i as int]);
            return false;
        }
        i += 1;
    }
    assert(s@.take(p@.len() as int) =~= p@);
    true
}

pub fn chars_end_with(s: &Vec<char>, p: &Vec<char>) -> (r: bool)
    ensures
        r == ends_with(s@, p@),
{
    if p.len() > s.len() {
        return false;
    }
    let off = s.len() - p.len();
    let mut i: usize = 0;
    while i < p.len()
        invariant
            p@.len() <= s@.len(),
            off == s@.len() - p@.len(),
            off + p@.len() == s@.len(),
            s@.len() <= usize::MAX,
            0 <= i <= p@.len(),
            forall|j: int| 0 <= j < i ==> s@[off + j] == p@[j],
        decreases p@.len() - i,
    {
        let j: usize = off + i;
        if s[j] != p[i] {
            assert(s@.skip(off as int)[i as int] != p@[i as int]);
            return false;
        }
        i += 1;
    }
    assert(s@.skip(off as int) =~= p@);
    true
}

pub fn str_starts_with(s: &str, p: &str) -> (r: bool)
    ensures
        r == starts_with(s@, p@),
{
    let a = chars_of(s);
    let b = chars_of(p);
    chars_start_with(&a, &b)
}

/// Number of leading copies of `c`.
pub open spec fn leading_count(s: Seq<char>, c: char) -> nat
    decreases s.len(),
{
    if s.len() > 0 && s[0] == c {
        1 + leading_count(s.drop_first(), c)
    } else {
        0
    }
}

pub proof fn lemma_leading_count_at(s: Seq<char>, c: char, i: int)
    requires
        0 <= i <= s.len(),
        forall|j: int| 0 <= j < i ==> #[trigger] s[j] == c,
        i == s.len() || s[i] != c,
    ensures
        leading_count(s, c) == i,
    decreases i,
{
    if i > 0 {
        let t = s.drop_first();
        assert forall|j: int| 0 <= j < i - 1 implies #[trigger] t[j] == c by {
            assert(t[j] == s[j + 1]);
        }
        lemma_leading_count_at(t, c, i - 1);
    }
}

pub fn count_leading(v: &Vec<char>, c: char) -> (n: usize)
    ensures
        n == leading_count(v@, c),
        n <= v@.len(),
{
    let mut i: usize = 0;
    while i < v.len() && v[i] == c
        invariant
            0 <= i <= v@.len(),
            forall|j: int| 0 <= j < i ==> #[trigger] v@[j] == c,
        decreases v@.len() - i,
    {
        i += 1;
    }
    proof {
        lemma_leading_count_at(v@, c, i as int);
    }
    i
}

// ---------------------------------------------------------------------------
// Splitting and joining

/// The character sequences held by a vector of character vectors.
pub open spec fn seq_views(v: Seq<Vec<char>>) -> Seq<Seq<char>> {
    Seq::new(v.len(), |i: int| v[i]@)
}

/// `str::split(sep)`: the pieces between occurrences of `sep` (at least one).
pub open spec fn split_on(s: Seq<char>, sep: char) -> Seq<Seq<char>>
    decreases s.len(),
{
    if s.len() == 0 {
        seq![Seq::<char>::empty()]
    } else {
        let init = split_on(s.drop_last(), sep);
        if s.last() == sep {
            init.push(Seq::<char>::empty())
        } else {
            init.update(init.len() - 1, init.last().push(s.last()))
        }
    }
}

pub proof fn lemma_split_on_nonempty(s: Seq<char>, sep: char)
    ensures
        split_on(s, sep).len() >= 1,
    decreases s.len(),
{
    if s.len() > 0 {
        lemma_split_on_nonempty(s.drop_last(), sep);
    }
}

pub fn split_chars(v: &Vec<char>, sep: char) -> (parts: Vec<Vec<char>>)
    ensures
        seq_views(parts@) == split_on(v@, sep),
{
    let mut parts: Vec<Vec<char>> = Vec::new();
    parts.push(Vec::new());
    let mut i: usize = 0;
    assert(seq_views(parts@) =~= split_on(v@.take(0), sep));
    while i < v.len()
        invariant
            0 <= i <= v@.len(),
            seq_views(parts@) == split_on(v@.take(i as int), sep),
            parts@.len() >= 1,
        decreases v@.len() - i,
    {
        let c = v[i];
        let ghost before = seq_views(parts@);
        assert(v@.take(i + 1).drop_last() =~= v@.take(i as int));
        if c == sep {
            parts.push(Vec::new());
            assert(seq_views(parts@) =~= before.push(Seq::<char>::empty()));
        } else {
            let last = parts.len() - 1;
            let mut piece = parts.remove(last);
            piece.push(c);
            parts.push(piece);
            assert(seq_views(parts@) =~= before.update(before.len() - 1, before.last().push(c)));
        }
        i += 1;
    }
    assert(v@.take(v@.len() as int) =~= v@);
    parts
}

/// `str::split` at every character of a class: the pieces between them (at
/// least one).
pub open spec fn split_class(s: Seq<char>, k: CharClass) -> Seq<Seq<char>>
    decreases s.len(),
{
    if s.len() == 0 {
        seq![Seq::<char>::empty()]
    } else {
        let init = split_class(s.drop_last(), k);
        if in_class(k, s.last()) {
            init.push(Seq::<char>::empty())
        } else {
            init.update(init.len() - 1, init.last().push(s.last()))
        }
    }
}

proof fn lemma_split_class_nonempty(s: Seq<char>, k: CharClass)
    ensures
        split_class(s, k).len() >= 1,
    decreases s.len(),
{
    if s.len() > 0 {
        lemma_split_class_nonempty(s.drop_last(), k);
    }
}

pub fn split_class_chars(v: &Vec<char>, k: &CharClass) -> (parts: Vec<Vec<char>>)
    ensures
        seq_views(parts@) == split_class(v@, *k),
{
    let mut parts: Vec<Vec<char>> = Vec::new();
    parts.push(Vec::new());
    let mut i: usize = 0;
    assert(seq_views(parts@) =~= split_class(v@.take(0), *k));
    while i < v.len()
        invariant
            0 <= i <= v@.len(),
            seq_views(parts@) == split_class(v@.take(i as int), *k),
            parts@.len() >= 1,
        decreases v@.len() - i,
    {
        let c = v[i];
        let ghost before = seq_views(parts@);
        assert(v@.take(i + 1).drop_last() =~= v@.take(i as int));
        if class_has(k, c) {
            parts.push(Vec::new());
            assert(seq_views(parts@) =~= before.push(Seq::<char>::empty()));
        } else {
            let last = parts.len() - 1;
            let mut piece = parts.remove(last);
            piece.push(c);
            parts.push(piece);
            assert(seq_views(parts@) =~= before.update(before.len() - 1, before.last().push(c)));
        }
        i += 1;
    }
    assert(v@.take(v@.len() as int) =~= v@);
    parts
}

/// `join(sep)` of the pieces.
pub open spec fn join_with(parts: Seq<Seq<char>>, sep: Seq<char>) -> Seq<char>
    decreases parts.len(),
{
    if parts.len() == 0 {
        Seq::<char>::empty()
    } else if parts.len() == 1 {
        parts[0]
    } else {
        join_with(parts.drop_last(), sep) + sep + parts.last()
    }
}

pub fn join_chars(parts: &Vec<Vec<char>>, sep: &Vec<char>) -> (r: Vec<char>)
    ensures
        r@ == join_with(seq_views(parts@), sep@),
{
    let mut r: Vec<char> = Vec::new();
    let mut i: usize = 0;
    let ghost dv = seq_views(parts@);
    while i < parts.len()
        invariant
            0 <= i <= parts@.len(),
            dv == seq_views(parts@),
            dv.len() == parts@.len(),
            r@ == join_with(dv.take(i as int), sep@),
        decreases parts@.len() - i,
    {
        assert(dv.take(i + 1).drop_last() =~= dv.take(i as int));
        if i > 0 {
            append_chars(&mut r, sep);
        }
        append_chars(&mut r, &parts[i]);
        assert(dv[i as int] == parts@[i as int]@);
        i += 1;
        assert(i == 1 ==> dv.take(1)[0] == dv[0]);
    }
    assert(dv.take(dv.len() as int) =~= dv);
    r
}

/// `str::lines`: split at `\n`, drop one `\r` before each `\n` (and at the
/// end), and do not report an empty line after a final line ending.
pub open spec fn lines_of(s: Seq<char>) -> Seq<Seq<char>> {
    let pieces = split_on(s, '\n');
    let kept = if s.len() > 0 && s.last() == '\n' {
        pieces.drop_last()
    } else if s.len() == 0 {
        Seq::<Seq<char>>::empty()
    } else {
        pieces
    };
    kept.map_values(|p: Seq<char>| strip_cr(p))
}

pub open spec fn strip_cr(p: Seq<char>) -> Seq<char> {
    if p.len() > 0 && p.last() == '\r' {
        p.drop_last()
    } else {
        p
    }
}

pub fn lines_chars(v: &Vec<char>) -> (r: Vec<Vec<char>>)
    ensures
        seq_views(r@) == lines_of(v@),
{
    let pieces = split_chars(v, '\n');
    proof {
        lemma_split_on_nonempty(v@, '\n');
    }
    let mut kept_len = pieces.len();
    if v.len() == 0 {
        kept_len = 0;
    } else if v[v.len() - 1] == '\n' {
        kept_len = kept_len - 1;
    }
    let ghost pv = seq_views(pieces@);
    let ghost kept = if v@.len() > 0 && v@.last() == '\n' {
        pv.drop_last()
    } else if v@.len() == 0 {
        Seq::<Seq<char>>::empty()
    } else {
        pv
    };
    assert(kept.len() == kept_len);
    assert(forall|j: int| 0 <= j < kept_len ==> kept[j] == pv[j]);
    let mut r: Vec<Vec<char>> = Vec::new();
    let mut i: usize = 0;
    while i < kept_len
        invariant
            0 <= i <= kept_len <= pieces@.len(),
            pv == seq_views(pieces@),
            kept.len() == kept_len,
            forall|j: int| 0 <= j < kept_len ==> kept[j] == pv[j],
            r@.len() == i,
            forall|j: int| 0 <= j < i ==> (#[trigger] r@[j])@ == strip_cr(kept[j]),
        decreases kept_len - i,
    {
        let p = &pieces[i];
        let mut line = copy_range(p, 0, p.len());
        if line.len() > 0 && line[line.len() - 1] == '\r' {
            line.pop();
        }
        assert(line@ == strip_cr(pv[i as int]));
        r.push(line);
        i += 1;
    }
    assert(seq_views(r@) =~= lines_of(v@));
    r
}

// ---------------------------------------------------------------------------
// Decimal numerals

/// Decimal digits of a natural number (`Display` for integers).
pub open spec fn decimal(n: nat) -> Seq<char>
    decreases n,
{
    if n < 10 {
        seq![digit_char(n)]
    } else {
        decimal(n / 10).push(digit_char(n % 10))
    }
}

pub open spec fn digit_char(d: nat) -> char {
    ((d + 48) as u32) as char
}

pub fn decimal_chars(n: u64) -> (r: Vec<char>)
    ensures
        r@ == decimal(n as nat),
    decreases n,
{
    if n < 10 {
        let c = char_from_ascii((n as u32) + 48);
        let mut r: Vec<char> = Vec::new();
        r.push(c);
        assert(r@ =~= seq![digit_char(n as nat)]);
        r
    } else {
        let mut r = decimal_chars(n / 10);
        let c = char_from_ascii(((n % 10) as u32) + 48);
        r.push(c);
        r
    }
}

/// Signed decimal numeral (`Display` for `i64`).
pub open spec fn signed_decimal(n: int) -> Seq<char> {
    if n < 0 {
        seq!['-'] + decimal((-n) as nat)
    } else {
        decimal(n as nat)
    }
}

pub fn i64_decimal(n: i64) -> (r: Vec<char>)
    ensures
        r@ == signed_decimal(n as int),
{
    if n < 0 {
        let m: u64 = if n == i64::MIN {
            9223372036854775808u64
        } else {
            (-n) as u64
        };
        let d = decimal_chars(m);
        let mut r: Vec<char> = Vec::new();
        r.push('-');
        append_chars(&mut r, &d);
        assert(r@ =~= seq!['-'] + decimal((-n) as nat));
        r
    } else {
        decimal_chars(n as u64)
    }
}

} // verus!

verus! {

// ---------------------------------------------------------------------------
// Owned strings

/// The character sequences of a list of strings.
pub open spec fn string_views(v: Seq<String>) -> Seq<Seq<char>> {
    Seq::new(v.len(), |i: int| v[i]@)
}

/// The characters of an optional string.
pub open spec fn opt_string_view(o: Option<String>) -> Option<Seq<char>> {
    match o {
        Some(s) => Some(s@),
        None => None,
    }
}

pub fn clone_opt_string(o: &Option<String>) -> (r: Option<String>)
    ensures
        opt_string_view(r) == opt_string_view(*o),
{
    match o {
        Some(s) => Some(s.clone()),
        None => None,
    }
}

pub fn clone_strings(v: &Vec<String>) -> (r: Vec<String>)
    ensures
        string_views(r@) == string_views(v@),
{
    let mut r: Vec<String> = Vec::new();
    let mut i: usize = 0;
    while i < v.len()
        invariant
            0 <= i <= v@.len(),
            r@.len() == i,
            forall|j: int| 0 <= j < i ==> (#[trigger] r@[j])@ == v@[j]@,
        decreases v@.len() - i,
    {
        r.push(v[i].clone());
        i += 1;
    }
    assert(string_views(r@) =~= string_views(v@));
    r
}

/// Two lists of strings hold the same texts in the same order.
pub fn strings_eq(a: &Vec<String>, b: &Vec<String>) -> (r: bool)
    ensures
        r == (string_views(a@) == string_views(b@)),
{
    if a.len() != b.len() {
        assert(string_views(a@).len() != string_views(b@).len());
        return false;
    }
    let mut i: usize = 0;
    while i < a.len()
        invariant
            a@.len() == b@.len(),
            0 <= i <= a@.len(),
            forall|j: int| 0 <= j < i ==> (#[trigger] a@[j])@ == b@[j]@,
        decreases a@.len() - i,
    {
        if !str_eq(a[i].as_str(), b[i].as_str()) {
            assert(string_views(a@)[i as int] != string_views(b@)[i as int]);
            return false;
        }
        i += 1;
    }
    assert(string_views(a@) =~= string_views(b@));
    true
}

/// Two optional strings hold the same characters.
pub fn opt_string_eq(a: &Option<String>, b: &Option<String>) -> (r: bool)
    ensures
        r == (opt_string_view(*a) == opt_string_view(*b)),
{
    match (a, b) {
        (Some(x), Some(y)) => str_eq(x.as_str(), y.as_str()),
        (None, None) => true,
        _ => false,
    }
}

// ---------------------------------------------------------------------------
// Ordering texts

/// Strict lexicographic order of character sequences, by code point.
pub open spec fn chars_lt(a: Seq<char>, b: Seq<char>) -> bool
    decreases a.len(),
{
    if b.len() == 0 {
        false
    } else if a.len() == 0 {
        true
    } else if a[0] != b[0] {
        (a[0] as u32) < (b[0] as u32)
    } else {
        chars_lt(a.skip(1), b.skip(1))
    }
}

/// No text precedes itself.
pub proof fn lemma_chars_lt_irreflexive(a: Seq<char>)
    ensures
        !chars_lt(a, a),
    decreases a.len(),
{
    if a.len() > 0 {
        lemma_chars_lt_irreflexive(a.skip(1));
    }
}

/// Of two different texts, one precedes the other.
pub proof fn lemma_chars_lt_total(a: Seq<char>, b: Seq<char>)
    ensures
        a != b ==> chars_lt(a, b) || chars_lt(b, a),
    decreases a.len(),
{
    if a.len() > 0 && b.len() > 0 && a[0] == b[0] {
        lemma_chars_lt_total(a.skip(1), b.skip(1));
        if a.skip(1) == b.skip(1) {
            assert(a =~= b) by {
                assert forall|i: int| 0 <= i < a.len() implies a[i] == b[i] by {
                    if i > 0 {
                        assert(a.skip(1)[i - 1] == b.skip(1)[i - 1]);
                    }
                }
            }
        }
    } else if a.len() > 0 && b.len() > 0 {
        let x = a[0];
        let y = b[0];
        vstd::utf8::char_u32_cast(x, x as u32);
        vstd::utf8::char_u32_cast(y, y as u32);
        assert((x as u32) != (y as u32));
    } else if a.len() == 0 && b.len() == 0 {
        assert(a =~= b);
    }
}

/// Precedence of texts is transitive.
pub proof fn lemma_chars_lt_transitive(a: Seq<char>, b: Seq<char>, c: Seq<char>)
    requires
        chars_lt(a, b),
        chars_lt(b, c),
    ensures
        chars_lt(a, c),
    decreases a.len(),
{
    if a.len() > 0 && a[0] == b[0] && b[0] == c[0] {
        lemma_chars_lt_transitive(a.skip(1), b.skip(1), c.skip(1));
    }
}

/// `x` placed into `s` behind every element that it does not precede.
pub open spec fn insert_sorted(s: Seq<Seq<char>>, x: Seq<char>) -> Seq<Seq<char>>
    decreases s.len(),
{
    if s.len() == 0 {
        seq![x]
    } else if chars_lt(x, s.last()) {
        insert_sorted(s.drop_last(), x).push(s.last())
    } else {
        s.push(x)
    }
}

/// `s` in ascending code-point order.
pub open spec fn sorted_texts(s: Seq<Seq<char>>) -> Seq<Seq<char>>
    decreases s.len(),
{
    if s.len() == 0 {
        Seq::empty()
    } else {
        insert_sorted(sorted_texts(s.drop_last()), s.last())
    }
}

/// `a` precedes `b` in code-point order.
pub fn chars_less(a: &Vec<char>, b: &Vec<char>) -> (r: bool)
    ensures
        r == chars_lt(a@, b@),
{
    let mut i: usize = 0;
    assert(a@.skip(0) =~= a@);
    assert(b@.skip(0) =~= b@);
    while i < a.len() && i < b.len()
        invariant
            0 <= i <= a@.len(),
            i <= b@.len(),
            chars_lt(a@, b@) == chars_lt(a@.skip(i as int), b@.skip(i as int)),
        decreases a@.len() - i,
    {
        if a[i] != b[i] {
            assert(a@.skip(i as int)[0] == a@[i as int]);
            assert(b@.skip(i as int)[0] == b@[i as int]);
            return (a[i] as u32) < (b[i] as u32);
        }
        assert(a@.skip(i as int).skip(1) =~= a@.skip(i + 1));
        assert(b@.skip(i as int).skip(1) =~= b@.skip(i + 1));
        i += 1;
    }
    i < b.len()
}

pub fn insert_text(v: &mut Vec<String>, x: String)
    ensures
        string_views(final(v)@) == insert_sorted(string_views(old(v)@), x@),
    decreases old(v)@.len(),
{
    let ghost s0 = string_views(v@);
    if v.len() == 0 {
        v.push(x);
        assert(string_views(v@) =~= seq![x@]);
        return;
    }
    let last = v.pop().unwrap();
    assert(string_views(v@) =~= s0.drop_last());
    assert(last@ == s0.last());
    if chars_less(&chars_of(x.as_str()), &chars_of(last.as_str())) {
        let ghost mid = string_views(v@);
        insert_text(v, x);
        let ghost ins = string_views(v@);
        v.push(last);
        assert(string_views(v@) =~= ins.push(last@));
    } else {
        v.push(last);
        v.push(x);
        assert(string_views(v@) =~= s0.push(x@));
    }
}

/// Texts in ascending code-point order.
pub fn sort_texts(paths: Vec<String>) -> (r: Vec<String>)
    ensures
        string_views(r@) == sorted_texts(string_views(paths@)),
{
    let ghost pv = string_views(paths@);
    let mut out: Vec<String> = Vec::new();
    let mut i: usize = 0;
    while i < paths.len()
        invariant
            0 <= i <= paths@.len(),
            pv == string_views(paths@),
            string_views(out@) == sorted_texts(pv.take(i as int)),
        decreases paths@.len() - i,
    {
        assert(pv.take(i + 1).drop_last() =~= pv.take(i as int));
        assert(pv.take(i + 1).last() == paths@[i as int]@);
        insert_text(&mut out, paths[i].clone());
        i += 1;
    }
    assert(pv.take(paths@.len() as int) =~= pv);
    out
}

/// Consecutive repeats removed (`Vec::dedup`).
pub open spec fn dedup_texts(s: Seq<Seq<char>>) -> Seq<Seq<char>>
    decreases s.len(),
{
    if s.len() == 0 {
        Seq::empty()
    } else {
        let init = dedup_texts(s.drop_last());
        if init.len() > 0 && init.last() == s.last() {
            init
        } else {
            init.push(s.last())
        }
    }
}

pub fn dedup_strings(v: &Vec<String>) -> (r: Vec<String>)
    ensures
        string_views(r@) == dedup_texts(string_views(v@)),
{
    let ghost sv = string_views(v@);
    let mut out: Vec<String> = Vec::new();
    let mut i: usize = 0;
    while i < v.len()
        invariant
            0 <= i <= v@.len(),
            sv == string_views(v@),
            string_views(out@) == dedup_texts(sv.take(i as int)),
        decreases v@.len() - i,
    {
        assert(sv.take(i + 1).drop_last() =~= sv.take(i as int));
        assert(sv.take(i + 1).last() == v@[i as int]@);
        let ghost before = string_views(out@);
        let dup = out.len() > 0 && str_eq(out[out.len() - 1].as_str(), v[i].as_str());
        if !dup {
            out.push(v[i].clone());
            assert(string_views(out@) =~= before.push(v@[i as int]@));
        } else {
            assert(before.last() == out@[out@.len() - 1]@);
        }
        i += 1;
    }
    assert(sv.take(v@.len() as int) =~= sv);
    out
}

} // verus!

verus! {

/// No text of the sequence precedes an earlier one.
pub open spec fn texts_ordered(s: Seq<Seq<char>>) -> bool {
    forall|i: int, j: int| 0 <= i < j < s.len() ==> !chars_lt(#[trigger] s[j], #[trigger] s[i])
}

proof fn lemma_insert_sorted(s: Seq<Seq<char>>, x: Seq<char>)
    requires
        texts_ordered(s),
    ensures
        texts_ordered(insert_sorted(s, x)),
        insert_sorted(s, x).to_multiset() == s.to_multiset().insert(x),
        forall|e: Seq<char>| #[trigger] insert_sorted(s, x).contains(e) ==> e == x || s.contains(e),
    decreases s.len(),
{
    broadcast use vstd::seq_lib::group_to_multiset_ensures;

    let r = insert_sorted(s, x);
    if s.len() == 0 {
        assert(r =~= Seq::<Seq<char>>::empty().push(x));
        assert(s =~= Seq::<Seq<char>>::empty());
    } else {
        let init = s.drop_last();
        let last = s.last();
        assert(s =~= init.push(last));
        if chars_lt(x, last) {
            assert(texts_ordered(init)) by {
                assert forall|i: int, j: int| 0 <= i < j < init.len() implies !chars_lt(
                    #[trigger] init[j],
                    #[trigger] init[i],
                ) by {
                    assert(init[j] == s[j] && init[i] == s[i]);
                }
            }
            lemma_insert_sorted(init, x);
            let ins = insert_sorted(init, x);
            assert forall|i: int, j: int| 0 <= i < j < r.len() implies !chars_lt(
                #[trigger] r[j],
                #[trigger] r[i],
            ) by {
                if j == r.len() - 1 {
                    assert(r[i] == ins[i]);
                    assert(ins.contains(ins[i]));
                    if ins[i] == x {
                        if chars_lt(last, x) {
                            lemma_chars_lt_transitive(x, last, x);
                            lemma_chars_lt_irreflexive(x);
                        }
                    } else {
                        let k = choose|k: int| 0 <= k < init.len() && init[k] == ins[i];
                        assert(s[k] == init[k]);
                        assert(s[s.len() - 1] == last);
                    }
                } else {
                    assert(r[j] == ins[j] && r[i] == ins[i]);
                }
            }
            assert forall|e: Seq<char>| #[trigger] r.contains(e) implies e == x || s.contains(e) by {
                let k = choose|k: int| 0 <= k < r.len() && r[k] == e;
                if k == r.len() - 1 {
                    assert(s[s.len() - 1] == e);
                } else {
                    assert(ins[k] == e);
                    assert(ins.contains(e));
                    if e != x {
                        let w = choose|w: int| 0 <= w < init.len() && init[w] == e;
                        assert(s[w] == e);
                    }
                }
            }
        } else {
            assert forall|i: int, j: int| 0 <= i < j < r.len() implies !chars_lt(
                #[trigger] r[j],
                #[trigger] r[i],
            ) by {
                if j == r.len() - 1 {
                    assert(r[i] == s[i]);
                    if i < s.len() - 1 {
                        assert(!chars_lt(s[s.len() - 1], s[i]));
                    }
                    if chars_lt(x, s[i]) {
                        lemma_chars_lt_total(s[i], last);
                        if chars_lt(s[i], last) {
                            lemma_chars_lt_transitive(x, s[i], last);
                        }
                    }
                } else {
                    assert(r[j] == s[j] && r[i] == s[i]);
                }
            }
            assert forall|e: Seq<char>| #[trigger] r.contains(e) implies e == x || s.contains(e) by {
                let k = choose|k: int| 0 <= k < r.len() && r[k] == e;
                if k < s.len() {
                    assert(s[k] == e);
                }
            }
        }
    }
}

/// Sorting texts yields them all, each once as often as before, in
/// ascending code-point order.
pub proof fn lemma_sorted_texts(s: Seq<Seq<char>>)
    ensures
        texts_ordered(sorted_texts(s)),
        sorted_texts(s).to_multiset() == s.to_multiset(),
    decreases s.len(),
{
    broadcast use vstd::seq_lib::group_to_multiset_ensures;

    if s.len() > 0 {
        lemma_sorted_texts(s.drop_last());
        lemma_insert_sorted(sorted_texts(s.drop_last()), s.last());
        assert(s =~= s.drop_last().push(s.last()));
    }
}

} // verus!
