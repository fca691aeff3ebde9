//! File-name extensions of Unix-style paths, with the component rules of
//! `std::path::Path`: empty components and `.` components are ignored, a
//! trailing `..` component has no file name, and a leading dot does not start
//! an extension.
use vstd::prelude::*;
use crate::text::{ascii_lowercase_char, chars_of, push_char, spec_ascii_lowercase};

verus! {

/// Index of the last occurrence of `c` in `s`, or `-1` when `c` does not occur.
pub open spec fn last_index_of(s: Seq<char>, c: char) -> int
    decreases s.len(),
{
    if s.len() == 0 {
        -1
    } else if s.last() == c {
        s.len() - 1
    } else {
        last_index_of(s.drop_last(), c)
    }
}

/// The file name of a path: its last component, when that component is an
/// ordinary name (not `..`, not the root, not the current directory).
pub open spec fn file_name(p: Seq<char>) -> Option<Seq<char>>
    decreases p.len(),
{
    if p.len() == 0 {
        None
    } else {
        let k = last_index_of(p, '/');
        let seg = p.subrange(k + 1, p.len() as int);
        if seg.len() == 0 || seg == seq!['.'] {
            if k < 0 {
                None
            } else {
                proof {
                    lemma_last_index_of_is_last(p, '/');
                }
                file_name(p.subrange(0, k))
            }
        } else if seg == seq!['.', '.'] {
            None
        } else {
            Some(seg)
        }
    }
}

/// The extension of a path as `Path::extension` finds it (the text after the
/// last dot of the file name, unless that dot starts the name), empty when
/// there is none.
pub open spec fn raw_extension(p: Seq<char>) -> Seq<char> {
    match file_name(p) {
        None => Seq::empty(),
        Some(name) => {
            let d = last_index_of(name, '.');
            if d <= 0 {
                Seq::empty()
            } else {
                name.subrange(d + 1, name.len() as int)
            }
        },
    }
}

/// The extension of a path in ASCII lower case, empty when there is none.
pub open spec fn spec_extension(p: Seq<char>) -> Seq<char> {
    spec_ascii_lowercase(raw_extension(p))
}

/// `k` is the last position of `c` in `s` (or `-1` when there is none).
pub open spec fn is_last_index(s: Seq<char>, c: char, k: int) -> bool {
    &&& -1 <= k < s.len()
    &&& k >= 0 ==> s[k] == c
    &&& forall|j: int| k < j < s.len() ==> s[j] != c
}

pub proof fn lemma_last_index_of_is_last(s: Seq<char>, c: char)
    ensures
        is_last_index(s, c, last_index_of(s, c)),
    decreases s.len(),
{
    if s.len() > 0 && s.last() != c {
        let t = s.drop_last();
        lemma_last_index_of_is_last(t, c);
        let k = last_index_of(t, c);
        assert forall|j: int| k < j < s.len() implies s[j] != c by {
            if j < s.len() - 1 {
                assert(s[j] == t[j]);
            }
        }
    }
}

pub proof fn lemma_last_index_of(s: Seq<char>, c: char, k: int)
    requires
        is_last_index(s, c, k),
    ensures
        last_index_of(s, c) == k,
    decreases s.len(),
{
    if s.len() > 0 && s.last() != c {
        assert(k < s.len() - 1);
        lemma_last_index_of(s.drop_last(), c, k);
    }
}

/// Scans `cs[0..end)` backwards for `c`.
fn find_last(cs: &Vec<char>, end: usize, c: char) -> (k: Option<usize>)
    requires
        end <= cs.len(),
    ensures
        k matches Some(x) ==> x < end,
        last_index_of(cs@.subrange(0, end as int), c) == match k {
            None => -1,
            Some(x) => x as int,
        },
{
    let mut j: usize = end;
    while j > 0
        invariant
            j <= end <= cs.len(),
            forall|t: int| j <= t < end ==> cs@[t] != c,
        decreases j,
    {
        if cs[j - 1] == c {
            proof {
                lemma_last_index_of(cs@.subrange(0, end as int), c, j - 1);
            }
            return Some(j - 1);
        }
        j = j - 1;
    }
    proof {
        lemma_last_index_of(cs@.subrange(0, end as int), c, -1);
    }
    None
}

/// Locates the file name of the path held in `cs`, as a range of positions.
fn file_name_range(cs: &Vec<char>) -> (r: Option<(usize, usize)>)
    ensures
        match r {
            None => file_name(cs@) is None,
            Some((a, b)) => a <= b <= cs.len() && file_name(cs@) == Some(cs@.subrange(a as int, b as int)),
        },
{
    let mut end: usize = cs.len();
    assert(cs@.subrange(0, end as int) == cs@);
    while end > 0
        invariant
            end <= cs.len(),
            file_name(cs@) == file_name(cs@.subrange(0, end as int)),
        decreases end,
    {
        let ghost p = cs@.subrange(0, end as int);
        let found = find_last(cs, end, '/');
        let ghost k: int = last_index_of(p, '/');
        let start: usize = match found {
            None => 0,
            Some(x) => x + 1,
        };
        let seg_len: usize = end - start;
        assert(p.subrange(k + 1, p.len() as int) == cs@.subrange(start as int, end as int));
        if seg_len == 0 || (seg_len == 1 && cs[start] == '.') {
            if seg_len == 1 {
                assert(cs@.subrange(start as int, end as int) == seq!['.']);
            }
            match found {
                None => {
                    return None;
                },
                Some(x) => {
                    assert(p.subrange(0, k) == cs@.subrange(0, k));
                    end = x;
                },
            }
        } else if seg_len == 2 && cs[start] == '.' && cs[start + 1] == '.' {
            assert(cs@.subrange(start as int, end as int) == seq!['.', '.']);
            return None;
        } else {
            proof {
                let seg = cs@.subrange(start as int, end as int);
                if seg_len == 1 {
                    assert(seg[0] != '.');
                    assert(seg != seq!['.']);
                }
                if seg_len == 2 {
                    assert(seg[0] != '.' || seg[1] != '.');
                    assert(seg != seq!['.', '.']);
                }
            }
            return Some((start, end));
        }
    }
    None
}

/// The lower-cased extension of the final component of `path`, or the empty
/// string where the path has none.
pub fn extension(path: &str) -> (res: String)
    ensures
        res@ == spec_extension(path@),
{
    let cs = chars_of(path);
    let mut res = String::new();
    match file_name_range(&cs) {
        None => {
            assert(raw_extension(path@) == Seq::<char>::empty());
        },
        Some((a, b)) => {
            let ghost name = cs@.subrange(a as int, b as int);
            let mut d: usize = b;
            while d > a && cs[d - 1] != '.'
                invariant
                    a <= d <= b <= cs.len(),
                    forall|t: int| d <= t < b ==> cs@[t] != '.',
                decreases d,
            {
                d = d - 1;
            }
            proof {
                if d > a && cs@[d - 1] == '.' {
                    lemma_last_index_of(name, '.', d - 1 - a);
                } else {
                    lemma_last_index_of(name, '.', -1);
                }
            }
            if d - a > 1 && cs[d - 1] == '.' {
                let mut i: usize = d;
                while i < b
                    invariant
                        d <= i <= b <= cs.len(),
                        res@ == spec_ascii_lowercase(cs@.subrange(d as int, i as int)),
                    decreases b - i,
                {
                    push_char(&mut res, ascii_lowercase_char(cs[i]));
                    assert(cs@.subrange(d as int, i + 1) == cs@.subrange(d as int, i as int).push(cs@[i as int]));
                    i = i + 1;
                }
                assert(name.subrange(d - a, name.len() as int) == cs@.subrange(d as int, b as int));
            }
        },
    }
    res
}

} // verus!
