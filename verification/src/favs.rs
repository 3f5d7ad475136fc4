//! Favourite resolution: a favourites list is an ordered sequence of paths,
//! and a query name matches an entry when it equals the entry's final path
//! component up to ASCII case.  The first match in list order wins.

use vstd::prelude::*;
use crate::chars::eq_ci;
use crate::chars::prefix_ci;
use crate::chars::upper_u;
use crate::chars::vec_eq_ci;
use crate::chars::vec_prefix_ci;
use crate::chars::copy_chars;
use crate::lines::view_lines;
use crate::paths::base_name_spec;
use crate::paths::base_name;

verus! {

/// Does query `q` match favourite entry `fav`?  The comparison is against the
/// entry's base name only, case-insensitively; an entry without a base name
/// never matches.
pub open spec fn fav_matches(q: Seq<char>, fav: Seq<char>) -> bool {
    match base_name_spec(fav) {
        Some(b) => eq_ci(q, b),
        None => false,
    }
}

/// The first entry of `favs` that `q` matches, in list order, if any.
pub open spec fn check_fav_spec(q: Seq<char>, favs: Seq<Seq<char>>) -> Option<Seq<char>>
    decreases favs.len(),
{
    if favs.len() == 0 {
        None
    } else if fav_matches(q, favs[0]) {
        Some(favs[0])
    } else {
        check_fav_spec(q, favs.drop_first())
    }
}

/// The base names of the favourites, in list order, entries without a base
/// name left out.
pub open spec fn fav_names_upto(favs: Seq<Seq<char>>, n: int) -> Seq<Seq<char>>
    decreases n,
{
    if n <= 0 {
        Seq::empty()
    } else {
        fav_names_upto(favs, n - 1) + match base_name_spec(favs[n - 1]) {
            Some(b) => seq![b],
            None => Seq::<Seq<char>>::empty(),
        }
    }
}

pub open spec fn fav_names_spec(favs: Seq<Seq<char>>) -> Seq<Seq<char>> {
    fav_names_upto(favs, favs.len() as int)
}

/// The names with `partial` as a case-insensitive prefix, in list order.
pub open spec fn completions_upto(partial: Seq<char>, names: Seq<Seq<char>>, n: int) -> Seq<
    Seq<char>,
>
    decreases n,
{
    if n <= 0 {
        Seq::empty()
    } else {
        completions_upto(partial, names, n - 1) + if prefix_ci(partial, names[n - 1]) {
            seq![names[n - 1]]
        } else {
            Seq::<Seq<char>>::empty()
        }
    }
}

pub open spec fn completions_spec(partial: Seq<char>, names: Seq<Seq<char>>) -> Seq<Seq<char>> {
    completions_upto(partial, names, names.len() as int)
}

/// Resolves a favourite name: returns the first entry of `favs` whose base
/// name equals `target` up to ASCII case, or `None` when no entry matches.
pub fn check_fav(target: &Vec<char>, favs: &Vec<Vec<char>>) -> (r: Option<Vec<char>>)
    ensures
        match r {
            Some(p) => check_fav_spec(target@, view_lines(favs@)) == Some(p@),
            None => check_fav_spec(target@, view_lines(favs@)) is None,
        },
{
    let ghost vl = view_lines(favs@);
    proof {
        assert(vl.skip(0) =~= vl);
    }
    for i in 0..favs.len()
        invariant
            vl == view_lines(favs@),
            check_fav_spec(target@, vl) == check_fav_spec(target@, vl.skip(i as int)),
    {
        let matched = match base_name(&favs[i]) {
            Some(b) => vec_eq_ci(target, &b),
            None => false,
        };
        proof {
            assert(vl.skip(i as int)[0] == vl[i as int]);
            assert(vl.skip(i as int).drop_first() =~= vl.skip(i + 1 as int));
        }
        if matched {
            return Some(copy_chars(&favs[i]));
        }
    }
    proof {
        assert(vl.skip(vl.len() as int) =~= Seq::<Seq<char>>::empty());
    }
    None
}

/// The list of favourite base names, for display and completion.
pub fn get_fav_names(favs: &Vec<Vec<char>>) -> (r: Vec<Vec<char>>)
    ensures
        view_lines(r@) == fav_names_spec(view_lines(favs@)),
{
    let ghost vl = view_lines(favs@);
    let mut r: Vec<Vec<char>> = Vec::new();
    for i in 0..favs.len()
        invariant
            vl == view_lines(favs@),
            view_lines(r@) == fav_names_upto(vl, i as int),
    {
        let ghost prev = view_lines(r@);
        match base_name(&favs[i]) {
            Some(b) => {
                r.push(b);
                proof {
                    assert(view_lines(r@) =~= prev + seq![r@[r@.len() - 1]@]);
                }
            },
            None => {
                proof {
                    assert(prev + Seq::<Seq<char>>::empty() =~= prev);
                }
            },
        }
    }
    r
}

/// The favourite names that `partial` is a case-insensitive prefix of, in
/// list order; what shell completion offers for a partial name.
pub fn completions(partial: &Vec<char>, names: &Vec<Vec<char>>) -> (r: Vec<Vec<char>>)
    ensures
        view_lines(r@) == completions_spec(partial@, view_lines(names@)),
{
    let ghost vl = view_lines(names@);
    let mut r: Vec<Vec<char>> = Vec::new();
    for i in 0..names.len()
        invariant
            vl == view_lines(names@),
            view_lines(r@) == completions_upto(partial@, vl, i as int),
    {
        let ghost prev = view_lines(r@);
        if vec_prefix_ci(partial, &names[i]) {
            let line = copy_chars(&names[i]);
            r.push(line);
            proof {
                assert(view_lines(r@) =~= prev + seq![vl[i as int]]);
            }
        } else {
            proof {
                assert(prev + Seq::<Seq<char>>::empty() =~= prev);
            }
        }
    }
    r
}

/// Favourite resolution is case-insensitive in the query: two queries that
/// agree up to ASCII case resolve to the same entry of any favourites list.
pub proof fn lemma_check_fav_case_insensitive(q1: Seq<char>, q2: Seq<char>, favs: Seq<Seq<char>>)
    requires
        eq_ci(q1, q2),
    ensures
        check_fav_spec(q1, favs) == check_fav_spec(q2, favs),
    decreases favs.len(),
{
    if favs.len() > 0 {
        assert(fav_matches(q1, favs[0]) == fav_matches(q2, favs[0])) by {
            match base_name_spec(favs[0]) {
                Some(b) => {
                    assert forall|i: int| 0 <= i < q1.len() implies upper_u(q1[i]) == upper_u(
                        q2[i],
                    ) by {}
                },
                None => {},
            }
        }
        lemma_check_fav_case_insensitive(q1, q2, favs.drop_first());
    }
}

} // verus!
