//! Path-string logic: joining a base directory with a relative path, and
//! extracting the final path component (the base name) of a path.

use vstd::prelude::*;
use crate::chars::copy_range;
use crate::chars::copy_chars;
use crate::chars::append_chars;

verus! {

/// The result of appending relative path `rel` under directory `base` with a
/// single `'/'` separator.
pub open spec fn join_spec(base: Seq<char>, rel: Seq<char>) -> Seq<char> {
    if base.len() == 0 {
        rel
    } else if base[base.len() - 1] == '/' {
        base + rel
    } else {
        base + seq!['/'] + rel
    }
}

/// Joins `rel` under `base`, inserting a separator unless `base` is empty or
/// already ends in one.
pub fn join_path(base: &Vec<char>, rel: &Vec<char>) -> (r: Vec<char>)
    ensures
        r@ == join_spec(base@, rel@),
{
    if base.len() == 0 {
        return copy_chars(rel);
    }
    let mut r = copy_chars(base);
    if base[base.len() - 1] != '/' {
        r.push('/');
    }
    append_chars(&mut r, rel);
    proof {
        if base@[base@.len() - 1] != '/' {
            assert(r@ =~= base@ + seq!['/'] + rel@);
        }
    }
    r
}

/// `p` with every trailing `'/'` removed.
pub open spec fn strip_trailing_slashes(p: Seq<char>) -> Seq<char>
    decreases p.len(),
{
    if p.len() > 0 && p[p.len() - 1] == '/' {
        strip_trailing_slashes(p.drop_last())
    } else {
        p
    }
}

/// The index of the last `'/'` in `p`, or `-1` if there is none.
pub open spec fn last_slash(p: Seq<char>) -> int
    decreases p.len(),
{
    if p.len() == 0 {
        -1
    } else if p[p.len() - 1] == '/' {
        p.len() - 1
    } else {
        last_slash(p.drop_last())
    }
}

/// The final path component of `p`: what stands after the last separator once
/// trailing separators are dropped.  `None` when nothing is left (the root
/// path or the empty path) or when the component is the parent marker `..`.
pub open spec fn base_name_spec(p: Seq<char>) -> Option<Seq<char>> {
    let q = strip_trailing_slashes(p);
    let b = q.skip(last_slash(q) + 1);
    if b.len() == 0 || b == seq!['.', '.'] {
        None
    } else {
        Some(b)
    }
}

/// A name that the hidden-entry policy treats as hidden.
pub open spec fn hidden_name(name: Seq<char>) -> bool {
    name.len() > 0 && name[0] == '.'
}

/// Does this base name start with a dot?
pub fn is_hidden_name(name: &Vec<char>) -> (r: bool)
    ensures
        r == hidden_name(name@),
{
    name.len() > 0 && name[0] == '.'
}

/// Extracts the final path component of `p`, if it has one.
pub fn base_name(p: &Vec<char>) -> (r: Option<Vec<char>>)
    ensures
        match r {
            Some(b) => base_name_spec(p@) == Some(b@),
            None => base_name_spec(p@) is None,
        },
{
    let mut e: usize = p.len();
    proof {
        assert(p@.take(p@.len() as int) =~= p@);
    }
    while e > 0 && p[e - 1] == '/'
        invariant
            e <= p@.len(),
            strip_trailing_slashes(p@) == strip_trailing_slashes(p@.take(e as int)),
        decreases e,
    {
        proof {
            assert(p@.take(e as int).drop_last() =~= p@.take(e - 1));
        }
        e = e - 1;
    }
    proof {
        assert(strip_trailing_slashes(p@) == p@.take(e as int));
    }
    let mut j: usize = e;
    while j > 0 && p[j - 1] != '/'
        invariant
            j <= e <= p@.len(),
            last_slash(p@.take(e as int)) == last_slash(p@.take(j as int)),
        decreases j,
    {
        proof {
            assert(p@.take(j as int).drop_last() =~= p@.take(j - 1));
        }
        j = j - 1;
    }
    proof {
        assert(last_slash(p@.take(e as int)) == j - 1);
        assert(p@.take(e as int).skip(j as int) =~= p@.subrange(j as int, e as int));
    }
    let b = copy_range(p, j, e);
    if b.len() == 0 {
        None
    } else if b.len() == 2 && b[0] == '.' && b[1] == '.' {
        proof {
            assert(b@ =~= seq!['.', '.']);
        }
        None
    } else {
        proof {
            assert(b@ != seq!['.', '.']);
        }
        Some(b)
    }
}

} // verus!
