//! The crate's model of a file path.
//!
//! A path is a plain string. Its file name is what follows the last `/`
//! (the whole string when there is no `/`), and its extension is what
//! follows the last `.` of the file name, provided that dot exists and is
//! not the file name's leading character. A path whose file name is empty
//! has no file name to show and no extension.

use vstd::prelude::*;
use vstd::string::*;

verus! {

/// Index of the first character of the file name: 0 when the path holds no
/// `/`, one past the last `/` otherwise.
pub open spec fn file_name_start(p: Seq<char>) -> int
    decreases p.len(),
{
    if p.len() == 0 {
        0
    } else if p[p.len() - 1] == '/' {
        p.len() as int
    } else {
        file_name_start(p.drop_last())
    }
}

/// Index of the last `.` of a sequence, or -1 when it holds none.
pub open spec fn last_dot(f: Seq<char>) -> int
    decreases f.len(),
{
    if f.len() == 0 {
        -1
    } else if f[f.len() - 1] == '.' {
        f.len() - 1
    } else {
        last_dot(f.drop_last())
    }
}

/// The file name of a path: what follows the last `/`.
pub open spec fn spec_file_name(p: Seq<char>) -> Seq<char> {
    p.subrange(file_name_start(p), p.len() as int)
}

/// The extension of a path: what follows the last `.` of the file name,
/// unless that dot is absent or leads the file name.
pub open spec fn spec_extension(p: Seq<char>) -> Option<Seq<char>> {
    let f = spec_file_name(p);
    if last_dot(f) <= 0 {
        None
    } else {
        Some(f.subrange(last_dot(f) + 1, f.len() as int))
    }
}

pub proof fn lemma_file_name_start_bounds(p: Seq<char>)
    ensures
        0 <= file_name_start(p) <= p.len(),
        forall|k: int| file_name_start(p) <= k < p.len() ==> p[k] != '/',
        file_name_start(p) > 0 ==> p[file_name_start(p) - 1] == '/',
    decreases p.len(),
{
    if p.len() == 0 {
    } else if p[p.len() - 1] == '/' {
    } else {
        lemma_file_name_start_bounds(p.drop_last());
        assert forall|k: int| file_name_start(p) <= k < p.len() implies p[k] != '/' by {
            if k < p.len() - 1 {
                assert(p.drop_last()[k] == p[k]);
            }
        }
    }
}

/// The index before which a `/` stands (unless it is 0) and after which no
/// `/` stands is the start of the file name: there is only one such index.
pub proof fn lemma_file_name_start_unique(p: Seq<char>, i: int)
    requires
        0 <= i <= p.len(),
        forall|k: int| i <= k < p.len() ==> p[k] != '/',
        i > 0 ==> p[i - 1] == '/',
    ensures
        i == file_name_start(p),
    decreases p.len(),
{
    if p.len() == 0 {
    } else if p[p.len() - 1] == '/' {
        assert(i == p.len());
    } else {
        assert(i < p.len());
        lemma_file_name_start_unique(p.drop_last(), i);
    }
}

pub proof fn lemma_last_dot_bounds(f: Seq<char>)
    ensures
        -1 <= last_dot(f) < f.len(),
        forall|k: int| last_dot(f) < k < f.len() ==> f[k] != '.',
        last_dot(f) >= 0 ==> f[last_dot(f)] == '.',
    decreases f.len(),
{
    if f.len() == 0 {
    } else if f[f.len() - 1] == '.' {
    } else {
        lemma_last_dot_bounds(f.drop_last());
        assert forall|k: int| last_dot(f) < k < f.len() implies f[k] != '.' by {
            if k < f.len() - 1 {
                assert(f.drop_last()[k] == f[k]);
            }
        }
    }
}

/// An index holding a `.` with no later `.` is the last dot; a sequence with
/// no `.` at all has none.
pub proof fn lemma_last_dot_unique(f: Seq<char>, d: int)
    requires
        -1 <= d < f.len(),
        forall|k: int| d < k < f.len() ==> f[k] != '.',
        d >= 0 ==> f[d] == '.',
    ensures
        d == last_dot(f),
    decreases f.len(),
{
    if f.len() == 0 {
    } else if f[f.len() - 1] == '.' {
        assert(d == f.len() - 1);
    } else {
        assert(d < f.len() - 1);
        lemma_last_dot_unique(f.drop_last(), d);
    }
}

/// The characters of a string, in order.
pub fn chars_of(s: &str) -> (v: Vec<char>)
    ensures
        v@ == s@,
{
    let n = s.unicode_len();
    let mut v: Vec<char> = Vec::new();
    let mut i: usize = 0;
    while i < n
        invariant
            n == s@.len(),
            i <= n,
            v@ == s@.subrange(0, i as int),
        decreases n - i,
    {
        let c = s.get_char(i);
        v.push(c);
        i = i + 1;
        proof {
            assert(v@ =~= s@.subrange(0, i as int));
        }
    }
    proof {
        assert(v@ =~= s@);
    }
    v
}

/// Where the file name of the given characters starts.
pub fn find_file_name_start(v: &Vec<char>) -> (i: usize)
    ensures
        i == file_name_start(v@),
{
    let mut i: usize = v.len();
    while i > 0
        invariant_except_break
            i <= v@.len(),
            forall|k: int| i <= k < v@.len() ==> v@[k] != '/',
        ensures
            i <= v@.len(),
            forall|k: int| i <= k < v@.len() ==> v@[k] != '/',
            i > 0 ==> v@[i - 1] == '/',
        decreases i,
    {
        if v[i - 1] == '/' {
            break;
        }
        i = i - 1;
    }
    proof {
        lemma_file_name_start_unique(v@, i as int);
    }
    i
}

/// The last `.` at or after `start` in the given characters, as an absolute
/// index, related to `last_dot` of the suffix that starts at `start`.
pub fn find_last_dot(v: &Vec<char>, start: usize) -> (d: Option<usize>)
    requires
        start <= v@.len(),
    ensures
        match d {
            Some(j) => start <= j < v@.len() && last_dot(v@.subrange(start as int, v@.len() as int))
                == j - start,
            None => last_dot(v@.subrange(start as int, v@.len() as int)) == -1,
        },
{
    let ghost f = v@.subrange(start as int, v@.len() as int);
    let mut i: usize = v.len();
    let mut found: Option<usize> = None;
    while i > start
        invariant_except_break
            start <= i <= v@.len(),
            found is None,
            forall|k: int| i <= k < v@.len() ==> v@[k] != '.',
        ensures
            start <= i <= v@.len(),
            forall|k: int| i <= k < v@.len() ==> v@[k] != '.',
            found matches Some(j) ==> i > start && j == i - 1 && v@[i - 1] == '.',
            found is None ==> i == start,
        decreases i,
    {
        if v[i - 1] == '.' {
            found = Some(i - 1);
            break;
        }
        i = i - 1;
    }
    proof {
        assert(f.len() == v@.len() - start);
        match found {
            Some(j) => {
                assert(f[j - start] == v@[j as int]);
                assert forall|k: int| j - start < k < f.len() implies f[k] != '.' by {
                    assert(f[k] == v@[start + k]);
                }
                lemma_last_dot_unique(f, j - start);
            },
            None => {
                assert forall|k: int| -1 < k < f.len() implies f[k] != '.' by {
                    assert(f[k] == v@[start + k]);
                }
                lemma_last_dot_unique(f, -1);
            },
        }
    }
    found
}

} // verus!
