//! Character-level helpers shared by the path, favourites and history logic:
//! ASCII case folding, whitespace classification, and small `Vec<char>`
//! building blocks with exact contracts.

use vstd::prelude::*;

verus! {

/// Blank-line characters tolerated (and filtered) when reading a store file.
pub open spec fn is_space(c: char) -> bool {
    c == ' ' || c == '\t' || c == '\r'
}

/// ASCII upper-case folding, expressed on the scalar value: lower-case ASCII
/// letters are shifted onto their upper-case counterparts, everything else is
/// left as it is.
pub open spec fn upper_u(c: char) -> u32 {
    if 97 <= c as u32 && c as u32 <= 122 {
        (c as u32 - 32) as u32
    } else {
        c as u32
    }
}

/// Case-insensitive (ASCII) equality of two character sequences.
pub open spec fn eq_ci(a: Seq<char>, b: Seq<char>) -> bool {
    a.len() == b.len() && forall|i: int| 0 <= i < a.len() ==> upper_u(a[i]) == upper_u(b[i])
}

/// Case-insensitive (ASCII) prefix test: `p` is a prefix of `s` up to case.
pub open spec fn prefix_ci(p: Seq<char>, s: Seq<char>) -> bool {
    p.len() <= s.len() && forall|i: int| 0 <= i < p.len() ==> upper_u(p[i]) == upper_u(s[i])
}

/// Exact equality of two characters up to ASCII case.
pub fn char_eq_ci(x: char, y: char) -> (r: bool)
    ensures
        r == (upper_u(x) == upper_u(y)),
{
    let ux: u32 = x as u32;
    let uy: u32 = y as u32;
    let fx: u32 = if 97 <= ux && ux <= 122 { ux - 32 } else { ux };
    let fy: u32 = if 97 <= uy && uy <= 122 { uy - 32 } else { uy };
    fx == fy
}

/// Case-insensitive (ASCII) equality of two character vectors.
pub fn vec_eq_ci(a: &Vec<char>, b: &Vec<char>) -> (r: bool)
    ensures
        r == eq_ci(a@, b@),
{
    if a.len() != b.len() {
        return false;
    }
    for i in 0..a.len()
        invariant
            a@.len() == b@.len(),
            forall|j: int| 0 <= j < i ==> upper_u(a@[j]) == upper_u(b@[j]),
    {
        if !char_eq_ci(a[i], b[i]) {
            return false;
        }
    }
    true
}

/// Case-insensitive (ASCII) prefix test on character vectors.
pub fn vec_prefix_ci(p: &Vec<char>, s: &Vec<char>) -> (r: bool)
    ensures
        r == prefix_ci(p@, s@),
{
    if p.len() > s.len() {
        return false;
    }
    for i in 0..p.len()
        invariant
            p@.len() <= s@.len(),
            forall|j: int| 0 <= j < i ==> upper_u(p@[j]) == upper_u(s@[j]),
    {
        if !char_eq_ci(p[i], s[i]) {
            return false;
        }
    }
    true
}

/// Copies `v[a..b]` into a fresh vector.
pub fn copy_range(v: &Vec<char>, a: usize, b: usize) -> (r: Vec<char>)
    requires
        a <= b <= v@.len(),
    ensures
        r@ == v@.subrange(a as int, b as int),
{
    let mut r: Vec<char> = Vec::new();
    let mut i: usize = a;
    while i < b
        invariant
            a <= i <= b <= v@.len(),
            r@ == v@.subrange(a as int, i as int),
        decreases b - i,
    {
        r.push(v[i]);
        proof {
            assert(r@ =~= v@.subrange(a as int, i + 1 as int));
        }
        i = i + 1;
    }
    r
}

/// Copies a whole character vector.
pub fn copy_chars(v: &Vec<char>) -> (r: Vec<char>)
    ensures
        r@ == v@,
{
    let r = copy_range(v, 0, v.len());
    proof {
        assert(v@.subrange(0, v@.len() as int) =~= v@);
    }
    r
}

/// Appends all of `src` onto `dst`.
pub fn append_chars(dst: &mut Vec<char>, src: &Vec<char>)
    ensures
        final(dst)@ == old(dst)@ + src@,
{
    let mut i: usize = 0;
    while i < src.len()
        invariant
            i <= src@.len(),
            dst@ == old(dst)@ + src@.subrange(0, i as int),
        decreases src@.len() - i,
    {
        dst.push(src[i]);
        proof {
            assert(old(dst)@ + src@.subrange(0, i + 1 as int) =~= (old(dst)@ + src@.subrange(
                0,
                i as int,
            )).push(src@[i as int]));
        }
        i = i + 1;
    }
    proof {
        assert(src@.subrange(0, src@.len() as int) =~= src@);
    }
}

} // verus!
