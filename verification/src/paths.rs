//! Paths as `/`-separated text: joining, parents, file names, extensions.
//!
//! The rule system writes and compares paths with forward slashes; these
//! functions give the path operations it uses on that form.
use vstd::prelude::*;

use crate::text::{append_chars, chars_of, copy_range, string_from_chars};

verus! {

/// A path is absolute when it starts at the root.
pub open spec fn is_absolute(p: Seq<char>) -> bool {
    p.len() > 0 && p[0] == '/'
}

/// `PathBuf::push`: an absolute `rel` replaces `base`; otherwise `rel` is
/// appended, with a separator unless `base` is empty or already ends with one.
pub open spec fn path_join(base: Seq<char>, rel: Seq<char>) -> Seq<char> {
    if is_absolute(rel) {
        rel
    } else if base.len() == 0 {
        rel
    } else if base.last() == '/' {
        base + rel
    } else {
        base + seq!['/'] + rel
    }
}

/// Index of the last occurrence of `c`.
pub open spec fn last_index_of(s: Seq<char>, c: char) -> Option<int>
    decreases s.len(),
{
    if s.len() == 0 {
        None
    } else if s.last() == c {
        Some(s.len() - 1)
    } else {
        last_index_of(s.drop_last(), c)
    }
}

/// The path without trailing separators and trailing `.` components: the
/// components that std's component walk skips at the end of a path.
pub open spec fn strip_tail(p: Seq<char>) -> Seq<char>
    decreases p.len(),
{
    if p.len() > 0 && p.last() == '/' {
        strip_tail(p.drop_last())
    } else if p.len() >= 2 && p.last() == '.' && p[p.len() - 2] == '/' {
        strip_tail(p.drop_last())
    } else {
        p
    }
}

/// `Path::parent`: the path without its last component; `None` for the empty
/// path and the root. Trailing separators and `.` components are not
/// components.
pub open spec fn path_parent(p: Seq<char>) -> Option<Seq<char>> {
    let q = strip_tail(p);
    if q.len() == 0 {
        None
    } else {
        match last_index_of(q, '/') {
            None => Some(Seq::empty()),
            Some(k) => {
                let h = strip_tail(q.take(k));
                if h.len() == 0 {
                    Some(seq!['/'])
                } else {
                    Some(h)
                }
            },
        }
    }
}

/// The parent directory, `.` when there is none.
pub open spec fn parent_or_dot(p: Seq<char>) -> Seq<char> {
    match path_parent(p) {
        Some(d) => d,
        None => seq!['.'],
    }
}

/// `Path::file_name`: the last component; `None` for the root, the empty
/// path, and a final `.` or `..`.
pub open spec fn path_file_name(p: Seq<char>) -> Option<Seq<char>> {
    let q = strip_tail(p);
    if q.len() == 0 {
        None
    } else {
        let name = match last_index_of(q, '/') {
            None => q,
            Some(k) => q.skip(k + 1),
        };
        if name == seq!['.', '.'] || name == seq!['.'] {
            None
        } else {
            Some(name)
        }
    }
}

/// `Path::extension`: the text after the last `.` of the file name, unless the
/// name has no dot or only a leading one.
pub open spec fn path_extension(p: Seq<char>) -> Option<Seq<char>> {
    match path_file_name(p) {
        None => None,
        Some(name) => match last_index_of(name, '.') {
            None => None,
            Some(k) => if k == 0 {
                None
            } else {
                Some(name.skip(k + 1))
            },
        },
    }
}

/// Backslashes turned into forward slashes.
pub open spec fn forward_slashes(s: Seq<char>) -> Seq<char> {
    Seq::new(s.len(), |i: int| if s[i] == '\\' { '/' } else { s[i] })
}

pub proof fn lemma_last_index_of(s: Seq<char>, c: char)
    ensures
        match last_index_of(s, c) {
            Some(k) => 0 <= k < s.len() && s[k] == c && forall|j: int| k < j < s.len() ==> s[j] != c,
            None => forall|j: int| 0 <= j < s.len() ==> s[j] != c,
        },
    decreases s.len(),
{
    if s.len() > 0 {
        lemma_last_index_of(s.drop_last(), c);
        if s.last() != c {
            match last_index_of(s.drop_last(), c) {
                Some(k) => {
                    assert forall|j: int| k < j < s.len() implies s[j] != c by {
                        if j < s.len() - 1 {
                            assert(s.drop_last()[j] == s[j]);
                        }
                    }
                },
                None => {
                    assert forall|j: int| 0 <= j < s.len() implies s[j] != c by {
                        if j < s.len() - 1 {
                            assert(s.drop_last()[j] == s[j]);
                        }
                    }
                },
            }
        }
    }
}

pub proof fn lemma_last_index_at(s: Seq<char>, c: char, k: int)
    requires
        -1 <= k < s.len(),
        k >= 0 ==> s[k] == c,
        forall|j: int| k < j < s.len() ==> s[j] != c,
    ensures
        last_index_of(s, c) == if k >= 0 { Some(k) } else { None::<int> },
    decreases s.len(),
{
    if s.len() > 0 && s.last() != c {
        assert forall|j: int| k < j < s.len() - 1 implies s.drop_last()[j] != c by {
            assert(s.drop_last()[j] == s[j]);
        }
        lemma_last_index_at(s.drop_last(), c, k);
    }
}

/// Index of the last `c` in `v[0..hi)`, if any.
pub fn last_index_exec(v: &Vec<char>, hi: usize, c: char) -> (r: Option<usize>)
    requires
        hi <= v@.len(),
    ensures
        match r {
            Some(k) => k < hi && v@[k as int] == c && last_index_of(v@.take(hi as int), c) == Some(
                k as int,
            ),
            None => last_index_of(v@.take(hi as int), c) is None,
        },
{
    let mut k = hi;
    while k > 0
        invariant
            0 <= k <= hi <= v@.len(),
            forall|j: int| k <= j < hi ==> v@[j] != c,
        decreases k,
    {
        if v[k - 1] == c {
            proof {
                lemma_last_index_at(v@.take(hi as int), c, k - 1);
            }
            return Some(k - 1);
        }
        k -= 1;
    }
    proof {
        lemma_last_index_at(v@.take(hi as int), c, -1);
    }
    None
}

pub fn is_absolute_exec(p: &Vec<char>) -> (r: bool)
    ensures
        r == is_absolute(p@),
{
    p.len() > 0 && p[0] == '/'
}

pub fn path_join_exec(base: &Vec<char>, rel: &Vec<char>) -> (r: Vec<char>)
    ensures
        r@ == path_join(base@, rel@),
{
    if is_absolute_exec(rel) || base.len() == 0 {
        copy_range(rel, 0, rel.len())
    } else {
        let mut r = copy_range(base, 0, base.len());
        if base[base.len() - 1] != '/' {
            r.push('/');
        }
        append_chars(&mut r, rel);
        assert(r@ =~= path_join(base@, rel@));
        r
    }
}

/// Length of `v[0..hi)` without its trailing separators and `.` components.
fn strip_tail_end(v: &Vec<char>, hi: usize) -> (e: usize)
    requires
        hi <= v@.len(),
    ensures
        e <= hi,
        v@.take(e as int) == strip_tail(v@.take(hi as int)),
{
    let mut e = hi;
    while e > 0 && (v[e - 1] == '/' || (e >= 2 && v[e - 1] == '.' && v[e - 2] == '/'))
        invariant
            e <= hi <= v@.len(),
            strip_tail(v@.take(hi as int)) == strip_tail(v@.take(e as int)),
        decreases e,
    {
        assert(v@.take(e as int).drop_last() =~= v@.take(e - 1));
        e -= 1;
    }
    e
}

pub fn path_parent_exec(p: &Vec<char>) -> (r: Option<Vec<char>>)
    ensures
        match r {
            Some(d) => path_parent(p@) == Some(d@),
            None => path_parent(p@) is None,
        },
{
    let e = strip_tail_end(p, p.len());
    assert(p@.take(p@.len() as int) =~= p@);
    if e == 0 {
        return None;
    }
    let ghost q = p@.take(e as int);
    match last_index_exec(p, e, '/') {
        None => Some(Vec::new()),
        Some(k) => {
            let h = strip_tail_end(p, k);
            assert(q.take(k as int) =~= p@.take(k as int));
            if h == 0 {
                let mut r: Vec<char> = Vec::new();
                r.push('/');
                assert(r@ =~= seq!['/']);
                Some(r)
            } else {
                Some(copy_range(p, 0, h))
            }
        },
    }
}

pub fn parent_or_dot_exec(p: &Vec<char>) -> (r: Vec<char>)
    ensures
        r@ == parent_or_dot(p@),
{
    match path_parent_exec(p) {
        Some(d) => d,
        None => {
            let mut r: Vec<char> = Vec::new();
            r.push('.');
            assert(r@ =~= seq!['.']);
            r
        },
    }
}

pub fn path_file_name_exec(p: &Vec<char>) -> (r: Option<Vec<char>>)
    ensures
        match r {
            Some(d) => path_file_name(p@) == Some(d@),
            None => path_file_name(p@) is None,
        },
{
    let e = strip_tail_end(p, p.len());
    assert(p@.take(p@.len() as int) =~= p@);
    if e == 0 {
        return None;
    }
    let ghost q = p@.take(e as int);
    let name = match last_index_exec(p, e, '/') {
        None => copy_range(p, 0, e),
        Some(k) => {
            let n = copy_range(p, k + 1, e);
            assert(n@ =~= q.skip(k + 1));
            n
        },
    };
    if name.len() == 2 && name[0] == '.' && name[1] == '.' {
        assert(name@ =~= seq!['.', '.']);
        None
    } else if name.len() == 1 && name[0] == '.' {
        assert(name@ =~= seq!['.']);
        None
    } else {
        assert(name@ != seq!['.', '.']);
        assert(name@ != seq!['.']);
        Some(name)
    }
}

pub fn path_extension_exec(p: &Vec<char>) -> (r: Option<Vec<char>>)
    ensures
        match r {
            Some(d) => path_extension(p@) == Some(d@),
            None => path_extension(p@) is None,
        },
{
    match path_file_name_exec(p) {
        None => None,
        Some(name) => {
            assert(name@.take(name@.len() as int) =~= name@);
            match last_index_exec(&name, name.len(), '.') {
                None => None,
                Some(k) => if k == 0 {
                    None
                } else {
                    Some(copy_range(&name, k + 1, name.len()))
                },
            }
        },
    }
}

pub fn forward_slashes_exec(s: &Vec<char>) -> (r: Vec<char>)
    ensures
        r@ == forward_slashes(s@),
{
    let mut r: Vec<char> = Vec::new();
    let mut i: usize = 0;
    while i < s.len()
        invariant
            0 <= i <= s@.len(),
            r@ == forward_slashes(s@).take(i as int),
        decreases s@.len() - i,
    {
        let c = if s[i] == '\\' {
            '/'
        } else {
            s[i]
        };
        r.push(c);
        i += 1;
        assert(r@ =~= forward_slashes(s@).take(i as int));
    }
    assert(forward_slashes(s@).take(s@.len() as int) =~= forward_slashes(s@));
    r
}

/// A path string with backslashes turned into forward slashes.
pub fn display_path(p: &str) -> (r: String)
    ensures
        r@ == forward_slashes(p@),
{
    string_from_chars(forward_slashes_exec(&chars_of(p)))
}

} // verus!
