//! Path-string helpers: the base name and parent of a launcher file path,
//! and the lookup of a parent directory in the ordered source-directory
//! list.  Paths are plain strings; `/` separates components.

use vstd::prelude::*;
use vstd::string::StrSliceExecFns;
use crate::strings::str_eq;

verus! {

/// Finds the last occurrence of `c`.
pub fn rfind_char(s: &str, c: char) -> (r: Option<usize>)
    ensures
        match r {
            Some(k) => k < s@.len() && s@[k as int] == c && (forall|j: int|
                k < j < s@.len() ==> s@[j] != c),
            None => forall|j: int| 0 <= j < s@.len() ==> s@[j] != c,
        },
{
    let len = s.unicode_len();
    let mut i: usize = len;
    while i > 0
        invariant
            len == s@.len(),
            i <= len,
            forall|j: int| i <= j < len ==> s@[j] != c,
        decreases i,
    {
        i = i - 1;
        if s.get_char(i) == c {
            return Some(i);
        }
    }
    None
}

/// The base name of a path: everything after the last `/`, or the whole
/// path when it has no `/`.
pub open spec fn spec_base_name(p: Seq<char>) -> Seq<char>
    decreases p.len(),
{
    if p.len() == 0 {
        p
    } else if p.last() == '/' {
        Seq::<char>::empty()
    } else {
        spec_base_name(p.drop_last()).push(p.last())
    }
}

proof fn lemma_base_name_no_slash(p: Seq<char>)
    requires
        forall|j: int| 0 <= j < p.len() ==> p[j] != '/',
    ensures
        spec_base_name(p) == p,
    decreases p.len(),
{
    if p.len() > 0 {
        lemma_base_name_no_slash(p.drop_last());
        assert(spec_base_name(p.drop_last()).push(p.last()) =~= p);
    }
}

proof fn lemma_base_name_after_slash(p: Seq<char>, k: int)
    requires
        0 <= k < p.len(),
        p[k] == '/',
        forall|j: int| k < j < p.len() ==> p[j] != '/',
    ensures
        spec_base_name(p) == p.skip(k + 1),
    decreases p.len(),
{
    if k == p.len() - 1 {
        assert(p.last() == '/');
        assert(p.skip(k + 1) =~= Seq::<char>::empty());
    } else {
        lemma_base_name_after_slash(p.drop_last(), k);
        assert(p.drop_last().skip(k + 1) =~= p.skip(k + 1).drop_last());
        assert(spec_base_name(p) =~= p.skip(k + 1));
    }
}

pub fn path_base_name(p: &str) -> (r: String)
    ensures
        r@ == spec_base_name(p@),
{
    let len = p.unicode_len();
    match rfind_char(p, '/') {
        None => {
            proof {
                lemma_base_name_no_slash(p@);
            }
            p.to_owned()
        },
        Some(k) => {
            proof {
                lemma_base_name_after_slash(p@, k as int);
                assert(p@.subrange(k + 1, len as int) =~= p@.skip(k + 1));
            }
            p.substring_char(k + 1, len).to_owned()
        },
    }
}

/// The stem of a base name: everything before the last `.`, unless that
/// `.` is the first character or there is none, in which case the whole
/// base name.
pub open spec fn spec_stem_of(b: Seq<char>) -> Seq<char>
    decreases b.len(),
{
    if b.len() <= 1 {
        b
    } else if b.last() == '.' {
        b.drop_last()
    } else {
        let s = spec_stem_of(b.drop_last());
        if s == b.drop_last() {
            b
        } else {
            s
        }
    }
}

proof fn lemma_stem_no_dot(b: Seq<char>)
    requires
        forall|j: int| 0 < j < b.len() ==> b[j] != '.',
    ensures
        spec_stem_of(b) == b,
    decreases b.len(),
{
    if b.len() > 1 {
        lemma_stem_no_dot(b.drop_last());
    }
}

proof fn lemma_stem_at_dot(b: Seq<char>, k: int)
    requires
        0 < k < b.len(),
        b[k] == '.',
        forall|j: int| k < j < b.len() ==> b[j] != '.',
    ensures
        spec_stem_of(b) == b.take(k),
    decreases b.len(),
{
    if k == b.len() - 1 {
        assert(b.drop_last() =~= b.take(k));
    } else {
        lemma_stem_at_dot(b.drop_last(), k);
        assert(b.drop_last().take(k) =~= b.take(k));
        assert(b.take(k).len() != b.drop_last().len());
    }
}

/// The logical launcher name of a path: the base name with its extension
/// (the part after the last `.`, when one follows the first character)
/// removed.
pub open spec fn spec_file_stem(p: Seq<char>) -> Seq<char> {
    spec_stem_of(spec_base_name(p))
}

pub fn path_file_stem(p: &str) -> (r: String)
    ensures
        r@ == spec_file_stem(p@),
{
    let base = path_base_name(p);
    match rfind_char(base.as_str(), '.') {
        Some(k) if k > 0 => {
            proof {
                lemma_stem_at_dot(base@, k as int);
                assert(base@.subrange(0, k as int) =~= base@.take(k as int));
            }
            base.as_str().substring_char(0, k).to_owned()
        },
        _ => {
            proof {
                lemma_stem_no_dot(base@);
            }
            base
        },
    }
}

/// The parent of a path: everything before the last `/` (the root `/`
/// when the last `/` is the first character), or nothing when the path
/// has no `/`.
pub open spec fn spec_parent(p: Seq<char>) -> Option<Seq<char>>
    decreases p.len(),
{
    if p.len() == 0 {
        None
    } else if p.last() == '/' {
        if p.len() == 1 {
            Some(seq!['/'])
        } else {
            Some(p.drop_last())
        }
    } else {
        spec_parent(p.drop_last())
    }
}

proof fn lemma_parent_no_slash(p: Seq<char>)
    requires
        forall|j: int| 0 <= j < p.len() ==> p[j] != '/',
    ensures
        spec_parent(p) is None,
    decreases p.len(),
{
    if p.len() > 0 {
        lemma_parent_no_slash(p.drop_last());
    }
}

proof fn lemma_parent_at_slash(p: Seq<char>, k: int)
    requires
        0 <= k < p.len(),
        p[k] == '/',
        forall|j: int| k < j < p.len() ==> p[j] != '/',
    ensures
        spec_parent(p) == if k == 0 {
            Some(seq!['/'])
        } else {
            Some(p.take(k))
        },
    decreases p.len(),
{
    if k == p.len() - 1 {
        if k != 0 {
            assert(p.drop_last() =~= p.take(k));
        } else {
            assert(p.len() == 1);
        }
    } else {
        lemma_parent_at_slash(p.drop_last(), k);
        if k != 0 {
            assert(p.drop_last().take(k) =~= p.take(k));
        }
    }
}

pub fn path_parent(p: &str) -> (r: Option<String>)
    ensures
        match r {
            Some(q) => spec_parent(p@) == Some(q@),
            None => spec_parent(p@) is None,
        },
{
    match rfind_char(p, '/') {
        None => {
            proof {
                lemma_parent_no_slash(p@);
            }
            None
        },
        Some(k) => {
            proof {
                lemma_parent_at_slash(p@, k as int);
            }
            if k == 0 {
                let root = "/".to_owned();
                proof {
                    reveal_strlit("/");
                    assert(root@ =~= seq!['/']);
                }
                Some(root)
            } else {
                proof {
                    assert(p@.subrange(0, k as int) =~= p@.take(k as int));
                }
                Some(p.substring_char(0, k).to_owned())
            }
        },
    }
}

/// The position of the first occurrence of `x` in `dirs`, if any.
pub open spec fn spec_dir_index(dirs: Seq<Seq<char>>, x: Seq<char>) -> Option<int>
    decreases dirs.len(),
{
    if dirs.len() == 0 {
        None
    } else if dirs[0] == x {
        Some(0int)
    } else {
        match spec_dir_index(dirs.drop_first(), x) {
            Some(i) => Some(i + 1),
            None => None,
        }
    }
}

pub proof fn lemma_dir_index(dirs: Seq<Seq<char>>, x: Seq<char>)
    ensures
        match spec_dir_index(dirs, x) {
            Some(i) => 0 <= i < dirs.len() && dirs[i] == x && (forall|j: int|
                0 <= j < i ==> dirs[j] != x),
            None => forall|j: int| 0 <= j < dirs.len() ==> dirs[j] != x,
        },
    decreases dirs.len(),
{
    if dirs.len() > 0 && dirs[0] != x {
        lemma_dir_index(dirs.drop_first(), x);
        assert(forall|j: int| 1 <= j < dirs.len() ==> dirs[j] == dirs.drop_first()[j - 1]);
    }
}

/// The priority index of a directory in the ordered source-directory
/// list: the first exact match, highest priority first.
pub fn find_dir(dirs: &Vec<String>, parent: &str) -> (r: Option<usize>)
    ensures
        match r {
            Some(i) => spec_dir_index(dirs@.map_values(|s: String| s@), parent@) == Some(i as int),
            None => spec_dir_index(dirs@.map_values(|s: String| s@), parent@) is None,
        },
        match r {
            Some(i) => i < dirs@.len() && dirs@[i as int]@ == parent@ && (forall|j: int|
                0 <= j < i ==> dirs@[j]@ != parent@),
            None => forall|j: int| 0 <= j < dirs@.len() ==> dirs@[j]@ != parent@,
        },
{
    let ghost dv = dirs@.map_values(|s: String| s@);
    proof {
        lemma_dir_index(dv, parent@);
    }
    let mut i: usize = 0;
    while i < dirs.len()
        invariant
            i <= dirs@.len(),
            dv == dirs@.map_values(|s: String| s@),
            forall|j: int| 0 <= j < i ==> dirs@[j]@ != parent@,
        decreases dirs@.len() - i,
    {
        if str_eq(dirs[i].as_str(), parent) {
            proof {
                lemma_dir_index(dv, parent@);
                match spec_dir_index(dv, parent@) {
                    Some(k) => {
                        if k < i as int {
                            assert(dirs@[k]@ != parent@);
                            assert(dv[k] == parent@);
                        }
                        if k > i as int {
                            assert(dv[i as int] != parent@);
                            assert(dirs@[i as int]@ == parent@);
                        }
                    },
                    None => {
                        assert(dv[i as int] == parent@);
                    },
                }
            }
            return Some(i);
        }
        i = i + 1;
    }
    proof {
        lemma_dir_index(dv, parent@);
        match spec_dir_index(dv, parent@) {
            Some(k) => {
                assert(dirs@[k]@ != parent@);
                assert(dv[k] == parent@);
            },
            None => {},
        }
    }
    None
}

} // verus!
