//! The directory-tree renderer.  A subtree is handed in as an `FsNode` value
//! (built by the caller from the live filesystem, unreadable directories
//! appearing childless); the renderer walks it depth-first in pre-order,
//! bounded by a depth budget.  Visual mode decorates each line with
//! connector glyphs and caps the children shown per directory; pipe mode
//! collects every path within the depth bound, ignoring the cap.

use vstd::prelude::*;
use crate::chars::copy_chars;
use crate::chars::append_chars;
use crate::lines::view_lines;
use crate::lines::lemma_view_lines_props;
use crate::paths::join_spec;
use crate::paths::join_path;
use crate::paths::hidden_name;
use crate::paths::is_hidden_name;

verus! {

/// One filesystem entry with the children read beneath it: its base name,
/// whether it is a directory, and its subtree.  Files and unreadable
/// directories carry no children.
pub struct FsNode {
    pub name: Vec<char>,
    pub is_dir: bool,
    pub children: Vec<FsNode>,
}

/// Is this child kept by the hidden-entry policy?
pub open spec fn visible(node: FsNode, show_hidden: bool) -> bool {
    show_hidden || !hidden_name(node.name@)
}

/// The indices, in order, of the visible children among the first `n`.
pub open spec fn vis_upto(children: Seq<FsNode>, n: int, show_hidden: bool) -> Seq<int>
    decreases n,
{
    if n <= 0 {
        Seq::empty()
    } else {
        vis_upto(children, n - 1, show_hidden) + if visible(children[n - 1], show_hidden) {
            seq![n - 1]
        } else {
            Seq::<int>::empty()
        }
    }
}

/// The indices, in order, of all visible children.
pub open spec fn vis_indices(children: Seq<FsNode>, show_hidden: bool) -> Seq<int> {
    vis_upto(children, children.len() as int, show_hidden)
}

/// The paths that pipe mode collects for one node reached at `path` with
/// `depth` budget left: nothing when the budget is spent, else the node's
/// own path followed by the collections of its visible children, each with
/// one unit less budget.
pub open spec fn collect_spec(node: FsNode, path: Seq<char>, depth: nat, show_hidden: bool) -> Seq<
    Seq<char>,
>
    decreases depth, 0int,
{
    if depth == 0 {
        Seq::empty()
    } else {
        seq![path] + if node.is_dir {
            collect_kids(
                node.children@,
                path,
                vis_indices(node.children@, show_hidden),
                vis_indices(node.children@, show_hidden).len() as int,
                (depth - 1) as nat,
                show_hidden,
            )
        } else {
            Seq::<Seq<char>>::empty()
        }
    }
}

/// The concatenated collections of the children picked out by the first `n`
/// entries of `idx`, in order.
pub open spec fn collect_kids(
    children: Seq<FsNode>,
    base: Seq<char>,
    idx: Seq<int>,
    n: int,
    depth: nat,
    show_hidden: bool,
) -> Seq<Seq<char>>
    decreases depth, n,
{
    if n <= 0 {
        Seq::empty()
    } else {
        collect_kids(children, base, idx, n - 1, depth, show_hidden) + if 0 <= idx[n - 1]
            < children.len() {
            collect_spec(
                children[idx[n - 1]],
                join_spec(base, children[idx[n - 1]].name@),
                depth,
                show_hidden,
            )
        } else {
            Seq::<Seq<char>>::empty()
        }
    }
}

/// The visible children of `children`, as a vector of their indices in order.
pub fn visible_indices(children: &Vec<FsNode>, show_hidden: bool) -> (r: Vec<usize>)
    ensures
        r@.len() == vis_indices(children@, show_hidden).len(),
        forall|j: int|
            0 <= j < r@.len() ==> #[trigger] r@[j] as int == vis_indices(children@, show_hidden)[j],
        forall|j: int| 0 <= j < r@.len() ==> #[trigger] r@[j] < children@.len(),
{
    let mut r: Vec<usize> = Vec::new();
    for i in 0..children.len()
        invariant
            r@.len() == vis_upto(children@, i as int, show_hidden).len(),
            forall|j: int|
                0 <= j < r@.len() ==> #[trigger] r@[j] as int == vis_upto(
                    children@,
                    i as int,
                    show_hidden,
                )[j],
            forall|j: int| 0 <= j < r@.len() ==> #[trigger] r@[j] < i,
    {
        let keep = show_hidden || !is_hidden_name(&children[i].name);
        proof {
            let prev = vis_upto(children@, i as int, show_hidden);
            if visible(children@[i as int], show_hidden) {
                assert(vis_upto(children@, i + 1 as int, show_hidden) =~= prev.push(i as int));
            } else {
                assert(vis_upto(children@, i + 1 as int, show_hidden) =~= prev);
            }
        }
        if keep {
            r.push(i);
        }
    }
    r
}

/// Collects, in pre-order, the full path of every visible entry reachable
/// from `node` (itself included) within `max_depth`, appending them to
/// `out`.  The per-directory entry cap plays no part here.
pub fn collect_tree_paths(
    node: &FsNode,
    path: &Vec<char>,
    max_depth: usize,
    out: &mut Vec<Vec<char>>,
    show_hidden: bool,
)
    ensures
        view_lines(final(out)@) == view_lines(old(out)@) + collect_spec(
            *node,
            path@,
            max_depth as nat,
            show_hidden,
        ),
    decreases max_depth,
{
    if max_depth == 0 {
        proof {
            assert(view_lines(out@) =~= view_lines(out@) + collect_spec(
                *node,
                path@,
                0,
                show_hidden,
            ));
        }
        return ;
    }
    let ghost base_lines = view_lines(out@);
    let p = copy_chars(path);
    out.push(p);
    proof {
        assert(view_lines(out@) =~= base_lines + seq![path@]);
    }
    if node.is_dir {
        let ghost d = (max_depth - 1) as nat;
        let ghost sidx = vis_indices(node.children@, show_hidden);
        let idx = visible_indices(&node.children, show_hidden);
        let ghost base1 = view_lines(out@);
        proof {
            assert(base1 + collect_kids(node.children@, path@, sidx, 0, d, show_hidden) =~= base1);
        }
        let mut j: usize = 0;
        while j < idx.len()
            invariant
                idx@.len() == sidx.len(),
                forall|t: int| 0 <= t < idx@.len() ==> #[trigger] idx@[t] as int == sidx[t],
                forall|t: int| 0 <= t < idx@.len() ==> #[trigger] idx@[t] < node.children@.len(),
                j <= idx@.len(),
                sidx == vis_indices(node.children@, show_hidden),
                1 <= max_depth,
                d == (max_depth - 1) as nat,
                view_lines(out@) == base1 + collect_kids(
                    node.children@,
                    path@,
                    sidx,
                    j as int,
                    d,
                    show_hidden,
                ),
            decreases idx@.len() - j,
        {
            let ci = idx[j];
            let child = &node.children[ci];
            let cpath = join_path(path, &child.name);
            collect_tree_paths(child, &cpath, max_depth - 1, out, show_hidden);
            proof {
                assert(collect_kids(node.children@, path@, sidx, j + 1 as int, d, show_hidden)
                    == collect_kids(node.children@, path@, sidx, j as int, d, show_hidden)
                    + collect_spec(
                    node.children@[ci as int],
                    join_spec(path@, node.children@[ci as int].name@),
                    d,
                    show_hidden,
                ));
            }
            j = j + 1;
        }
        proof {
            assert(view_lines(out@) =~= view_lines(old(out)@) + collect_spec(
                *node,
                path@,
                max_depth as nat,
                show_hidden,
            ));
        }
    } else {
        proof {
            assert(view_lines(out@) =~= view_lines(old(out)@) + collect_spec(
                *node,
                path@,
                max_depth as nat,
                show_hidden,
            ));
        }
    }
}

/// Is `p` the path of a visible entry reachable from `node` (standing at
/// `path`) within `depth` child-hops, the node itself included?
pub open spec fn reaches(
    node: FsNode,
    path: Seq<char>,
    p: Seq<char>,
    depth: nat,
    show_hidden: bool,
) -> bool
    decreases depth,
{
    depth > 0 && (p == path || (node.is_dir && exists|i: int|
        0 <= i < node.children@.len() && visible(#[trigger] node.children@[i], show_hidden)
            && reaches(
            node.children@[i],
            join_spec(path, node.children@[i].name@),
            p,
            (depth - 1) as nat,
            show_hidden,
        )))
}

pub proof fn lemma_add_contains(a: Seq<Seq<char>>, b: Seq<Seq<char>>, p: Seq<char>)
    ensures
        (a + b).contains(p) <==> a.contains(p) || b.contains(p),
{
    if (a + b).contains(p) {
        let k = choose|k: int| 0 <= k < (a + b).len() && (a + b)[k] == p;
        if k < a.len() {
            assert(a[k] == p);
        } else {
            assert(b[k - a.len()] == p);
        }
    }
    if a.contains(p) {
        let k = choose|k: int| 0 <= k < a.len() && a[k] == p;
        assert((a + b)[k] == p);
    }
    if b.contains(p) {
        let k = choose|k: int| 0 <= k < b.len() && b[k] == p;
        assert((a + b)[a.len() + k] == p);
    }
}

/// The indices that the hidden-entry policy keeps are exactly the indices of
/// the children it shows: each kept index is in range and visible, and every
/// visible index is kept.  With the policy off nothing hidden is ever kept,
/// so a hidden entry neither consumes an entry-cap slot nor enters the
/// elision decision, both of which read only this index sequence.
pub proof fn lemma_vis_upto_complete(children: Seq<FsNode>, n: int, show_hidden: bool)
    ensures
        forall|j: int|
            0 <= j < vis_upto(children, n, show_hidden).len() ==> (0 <= #[trigger] vis_upto(
                children,
                n,
                show_hidden,
            )[j] < n && visible(children[vis_upto(children, n, show_hidden)[j]], show_hidden)),
        forall|i: int|
            0 <= i < n && visible(#[trigger] children[i], show_hidden) ==> vis_upto(
                children,
                n,
                show_hidden,
            ).contains(i),
    decreases n,
{
    if n > 0 {
        lemma_vis_upto_complete(children, n - 1, show_hidden);
        let prev = vis_upto(children, n - 1, show_hidden);
        let cur = vis_upto(children, n, show_hidden);
        assert forall|j: int| 0 <= j < cur.len() implies (0 <= #[trigger] cur[j] < n && visible(
            children[cur[j]],
            show_hidden,
        )) by {
            if j < prev.len() {
                assert(cur[j] == prev[j]);
            } else {
                assert(cur[j] == n - 1);
            }
        }
        assert forall|i: int|
            0 <= i < n && visible(#[trigger] children[i], show_hidden) implies cur.contains(i) by {
            if i < n - 1 {
                let k = choose|k: int| 0 <= k < prev.len() && prev[k] == i;
                assert(cur[k] == i);
            } else {
                assert(cur[cur.len() - 1] == n - 1);
            }
        }
    }
}

pub proof fn lemma_collect_kids_membership(
    children: Seq<FsNode>,
    base: Seq<char>,
    idx: Seq<int>,
    n: int,
    depth: nat,
    show_hidden: bool,
    p: Seq<char>,
)
    requires
        n <= idx.len(),
        forall|j: int| 0 <= j < n ==> 0 <= #[trigger] idx[j] < children.len(),
    ensures
        collect_kids(children, base, idx, n, depth, show_hidden).contains(p) <==> exists|j: int|
            0 <= j < n && collect_spec(
                #[trigger] children[idx[j]],
                join_spec(base, children[idx[j]].name@),
                depth,
                show_hidden,
            ).contains(p),
    decreases n,
{
    if n <= 0 {
        assert(!collect_kids(children, base, idx, n, depth, show_hidden).contains(p));
    } else {
        lemma_collect_kids_membership(children, base, idx, n - 1, depth, show_hidden, p);
        lemma_add_contains(
            collect_kids(children, base, idx, n - 1, depth, show_hidden),
            collect_spec(
                children[idx[n - 1]],
                join_spec(base, children[idx[n - 1]].name@),
                depth,
                show_hidden,
            ),
            p,
        );
    }
}

/// Pipe-mode output is exactly the depth-bounded reachable set: a path is
/// collected if and only if it is the root's own path or the path of a
/// visible descendant within the depth budget.  The entry cap is no
/// parameter of either side.
pub proof fn lemma_collect_membership(
    node: FsNode,
    path: Seq<char>,
    depth: nat,
    show_hidden: bool,
    p: Seq<char>,
)
    ensures
        collect_spec(node, path, depth, show_hidden).contains(p) <==> reaches(
            node,
            path,
            p,
            depth,
            show_hidden,
        ),
    decreases depth,
{
    if depth == 0 {
        assert(!collect_spec(node, path, depth, show_hidden).contains(p));
    } else {
        let sidx = vis_indices(node.children@, show_hidden);
        let d = (depth - 1) as nat;
        lemma_vis_upto_complete(node.children@, node.children@.len() as int, show_hidden);
        assert(seq![path].contains(p) <==> p == path) by {
            if seq![path].contains(p) {
                let k = choose|k: int| 0 <= k < 1 && seq![path][k] == p;
                assert(seq![path][0] == path);
            }
            assert(seq![path][0] == path);
        }
        assert forall|i: int| 0 <= i < node.children@.len() implies (collect_spec(
            #[trigger] node.children@[i],
            join_spec(path, node.children@[i].name@),
            d,
            show_hidden,
        ).contains(p) <==> reaches(
            node.children@[i],
            join_spec(path, node.children@[i].name@),
            p,
            d,
            show_hidden,
        )) by {
            lemma_collect_membership(
                node.children@[i],
                join_spec(path, node.children@[i].name@),
                d,
                show_hidden,
                p,
            );
        }
        if node.is_dir {
            lemma_collect_kids_membership(
                node.children@,
                path,
                sidx,
                sidx.len() as int,
                d,
                show_hidden,
                p,
            );
            lemma_add_contains(
                seq![path],
                collect_kids(node.children@, path, sidx, sidx.len() as int, d, show_hidden),
                p,
            );
            if collect_spec(node, path, depth, show_hidden).contains(p) && p != path {
                let j = choose|j: int|
                    0 <= j < sidx.len() && collect_spec(
                        #[trigger] node.children@[sidx[j]],
                        join_spec(path, node.children@[sidx[j]].name@),
                        d,
                        show_hidden,
                    ).contains(p);
                assert(visible(node.children@[sidx[j]], show_hidden));
                assert(reaches(node, path, p, depth, show_hidden));
            }
            if reaches(node, path, p, depth, show_hidden) && p != path {
                let i = choose|i: int|
                    0 <= i < node.children@.len() && visible(
                        #[trigger] node.children@[i],
                        show_hidden,
                    ) && reaches(
                        node.children@[i],
                        join_spec(path, node.children@[i].name@),
                        p,
                        d,
                        show_hidden,
                    );
                assert(sidx.contains(i));
                let j = choose|j: int| 0 <= j < sidx.len() && sidx[j] == i;
                assert(collect_spec(
                    node.children@[sidx[j]],
                    join_spec(path, node.children@[sidx[j]].name@),
                    d,
                    show_hidden,
                ).contains(p));
                assert(collect_spec(node, path, depth, show_hidden).contains(p));
            }
        } else {
            lemma_add_contains(seq![path], Seq::<Seq<char>>::empty(), p);
        }
    }
}

/// With the hidden-entries flag off, every path that pipe mode emits below
/// the root ends in a component that is not hidden: it is the join of some
/// parent path with the non-hidden base name of the entry it stands for.
pub proof fn lemma_collect_no_hidden(
    node: FsNode,
    path: Seq<char>,
    depth: nat,
    p: Seq<char>,
)
    requires
        collect_spec(node, path, depth, false).contains(p),
        p != path,
    ensures
        exists|q: Seq<char>, nm: Seq<char>|
            p == join_spec(q, nm) && !hidden_name(nm),
    decreases depth,
{
    lemma_collect_membership(node, path, depth, false, p);
    let d = (depth - 1) as nat;
    let i = choose|i: int|
        0 <= i < node.children@.len() && visible(#[trigger] node.children@[i], false) && reaches(
            node.children@[i],
            join_spec(path, node.children@[i].name@),
            p,
            d,
            false,
        );
    let child = node.children@[i];
    let cpath = join_spec(path, child.name@);
    if p == cpath {
        assert(p == join_spec(path, child.name@) && !hidden_name(child.name@));
    } else {
        lemma_collect_membership(child, cpath, d, false, p);
        lemma_collect_no_hidden(child, cpath, d, p);
    }
}

/// Connector before the last entry of a group.
pub open spec fn conn_last() -> Seq<char> {
    seq!['└', '─', ' ']
}

/// Connector before an entry with further siblings after it.
pub open spec fn conn_mid() -> Seq<char> {
    seq!['├', '─', ' ']
}

/// Prefix continuation under a last entry.
pub open spec fn pad_last() -> Seq<char> {
    seq![' ', ' ', ' ']
}

/// Prefix continuation under an entry with further siblings.
pub open spec fn pad_mid() -> Seq<char> {
    seq!['│', ' ', ' ']
}

/// Marker for a directory entry.
pub open spec fn icon_dir() -> Seq<char> {
    seq!['📁']
}

/// Marker for a non-directory entry.
pub open spec fn icon_file() -> Seq<char> {
    seq!['📄']
}

/// Marker line content for children elided by the entry cap.
pub open spec fn elision_mark() -> Seq<char> {
    seq!['…']
}

/// One rendered line: indentation prefix, connector, marker, and base name.
pub open spec fn render_line(prefix: Seq<char>, last: bool, is_dir: bool, name: Seq<char>) -> Seq<
    char,
> {
    prefix + (if last {
        conn_last()
    } else {
        conn_mid()
    }) + (if is_dir {
        icon_dir()
    } else {
        icon_file()
    }) + seq![' '] + name
}

/// The elision marker line printed under a truncated directory.
pub open spec fn elision_line(prefix: Seq<char>) -> Seq<char> {
    prefix + conn_last() + elision_mark()
}

/// The lines visual mode renders for one node reached with `depth` budget
/// left: nothing when the budget is spent; else the node's own line, then
/// the renderings of its first `cap` visible children, then — when children
/// were elided and more than one depth unit remains — one elision marker
/// line.  A child counts as last of its group only when no elision marker
/// follows it.
pub open spec fn render_spec(
    node: FsNode,
    prefix: Seq<char>,
    last: bool,
    depth: nat,
    cap: nat,
    show_hidden: bool,
) -> Seq<Seq<char>>
    decreases depth, 0int,
{
    if depth == 0 {
        Seq::empty()
    } else {
        seq![render_line(prefix, last, node.is_dir, node.name@)] + if node.is_dir {
            let idx = vis_indices(node.children@, show_hidden);
            let shown: int = if cap <= idx.len() {
                cap as int
            } else {
                idx.len() as int
            };
            let np = prefix + (if last {
                pad_last()
            } else {
                pad_mid()
            });
            render_kids(
                node.children@,
                np,
                idx,
                shown,
                shown,
                idx.len() <= cap,
                (depth - 1) as nat,
                cap,
                show_hidden,
            ) + (if idx.len() > cap && depth > 1 {
                seq![elision_line(np)]
            } else {
                Seq::<Seq<char>>::empty()
            })
        } else {
            Seq::<Seq<char>>::empty()
        }
    }
}

/// The concatenated renderings of the children picked out by the first `n`
/// of the `shown` indices in `idx`; the child at position `shown - 1` is
/// rendered as last of its group exactly when nothing was elided.
pub open spec fn render_kids(
    children: Seq<FsNode>,
    np: Seq<char>,
    idx: Seq<int>,
    n: int,
    shown: int,
    none_elided: bool,
    depth: nat,
    cap: nat,
    show_hidden: bool,
) -> Seq<Seq<char>>
    decreases depth, n,
{
    if n <= 0 {
        Seq::empty()
    } else {
        render_kids(children, np, idx, n - 1, shown, none_elided, depth, cap, show_hidden) + if 0
            <= idx[n - 1] < children.len() {
            render_spec(
                children[idx[n - 1]],
                np,
                none_elided && n == shown,
                depth,
                cap,
                show_hidden,
            )
        } else {
            Seq::<Seq<char>>::empty()
        }
    }
}

/// Renders one node and its subtree in visual mode, appending the decorated
/// lines to `out`.
pub fn create_tree(
    node: &FsNode,
    prefix: &Vec<char>,
    last: bool,
    max_depth: usize,
    max_entries: usize,
    show_hidden: bool,
    out: &mut Vec<Vec<char>>,
)
    ensures
        view_lines(final(out)@) == view_lines(old(out)@) + render_spec(
            *node,
            prefix@,
            last,
            max_depth as nat,
            max_entries as nat,
            show_hidden,
        ),
    decreases max_depth,
{
    let ghost goal = render_spec(
        *node,
        prefix@,
        last,
        max_depth as nat,
        max_entries as nat,
        show_hidden,
    );
    if max_depth == 0 {
        proof {
            assert(view_lines(out@) =~= view_lines(out@) + goal);
        }
        return ;
    }
    let mut line = copy_chars(prefix);
    if last {
        line.push('└');
    } else {
        line.push('├');
    }
    line.push('─');
    line.push(' ');
    if node.is_dir {
        line.push('📁');
    } else {
        line.push('📄');
    }
    line.push(' ');
    append_chars(&mut line, &node.name);
    proof {
        assert(line@ =~= render_line(prefix@, last, node.is_dir, node.name@));
    }
    let ghost base_lines = view_lines(out@);
    out.push(line);
    proof {
        assert(view_lines(out@) =~= base_lines + seq![
            render_line(prefix@, last, node.is_dir, node.name@),
        ]);
    }
    if node.is_dir {
        let ghost d = (max_depth - 1) as nat;
        let ghost sidx = vis_indices(node.children@, show_hidden);
        let idx = visible_indices(&node.children, show_hidden);
        let total = idx.len();
        let shown: usize = if max_entries <= total {
            max_entries
        } else {
            total
        };
        let none_elided = total <= max_entries;
        let mut np = copy_chars(prefix);
        if last {
            np.push(' ');
            np.push(' ');
            np.push(' ');
        } else {
            np.push('│');
            np.push(' ');
            np.push(' ');
        }
        proof {
            assert(np@ =~= prefix@ + (if last {
                pad_last()
            } else {
                pad_mid()
            }));
        }
        let ghost base1 = view_lines(out@);
        proof {
            assert(base1 + render_kids(
                node.children@,
                np@,
                sidx,
                0,
                shown as int,
                none_elided,
                d,
                max_entries as nat,
                show_hidden,
            ) =~= base1);
        }
        let mut j: usize = 0;
        while j < shown
            invariant
                idx@.len() == sidx.len(),
                forall|t: int| 0 <= t < idx@.len() ==> #[trigger] idx@[t] as int == sidx[t],
                forall|t: int| 0 <= t < idx@.len() ==> #[trigger] idx@[t] < node.children@.len(),
                j <= shown <= idx@.len() == total,
                shown == (if max_entries <= total {
                    max_entries as int
                } else {
                    total as int
                }),
                none_elided == (total <= max_entries),
                sidx == vis_indices(node.children@, show_hidden),
                1 <= max_depth,
                d == (max_depth - 1) as nat,
                np@ == prefix@ + (if last {
                    pad_last()
                } else {
                    pad_mid()
                }),
                view_lines(out@) == base1 + render_kids(
                    node.children@,
                    np@,
                    sidx,
                    j as int,
                    shown as int,
                    none_elided,
                    d,
                    max_entries as nat,
                    show_hidden,
                ),
            decreases shown - j,
        {
            let ci = idx[j];
            let child = &node.children[ci];
            let child_last = none_elided && j == shown - 1;
            create_tree(child, &np, child_last, max_depth - 1, max_entries, show_hidden, out);
            proof {
                assert(render_kids(
                    node.children@,
                    np@,
                    sidx,
                    j + 1 as int,
                    shown as int,
                    none_elided,
                    d,
                    max_entries as nat,
                    show_hidden,
                ) == render_kids(
                    node.children@,
                    np@,
                    sidx,
                    j as int,
                    shown as int,
                    none_elided,
                    d,
                    max_entries as nat,
                    show_hidden,
                ) + render_spec(
                    node.children@[ci as int],
                    np@,
                    none_elided && j + 1 == shown as int,
                    d,
                    max_entries as nat,
                    show_hidden,
                ));
            }
            j = j + 1;
        }
        if total > shown && max_depth > 1 {
            let mut el = copy_chars(&np);
            el.push('└');
            el.push('─');
            el.push(' ');
            el.push('…');
            proof {
                assert(el@ =~= elision_line(np@));
            }
            let ghost base2 = view_lines(out@);
            out.push(el);
            proof {
                assert(view_lines(out@) =~= base2 + seq![elision_line(np@)]);
            }
        }
        proof {
            assert(view_lines(out@) =~= view_lines(old(out)@) + goal);
        }
    } else {
        proof {
            assert(view_lines(out@) =~= view_lines(old(out)@) + goal);
        }
    }
}

/// Visual-mode entry point: the root is rendered as the sole (and so last)
/// entry of its group, with an empty indentation prefix.
pub fn render_tree(
    node: &FsNode,
    max_depth: usize,
    max_entries: usize,
    show_hidden: bool,
) -> (out: Vec<Vec<char>>)
    ensures
        view_lines(out@) == render_spec(
            *node,
            Seq::empty(),
            true,
            max_depth as nat,
            max_entries as nat,
            show_hidden,
        ),
{
    let mut out: Vec<Vec<char>> = Vec::new();
    let prefix: Vec<char> = Vec::new();
    proof {
        assert(view_lines(out@) =~= Seq::<Seq<char>>::empty());
        assert(prefix@ =~= Seq::<char>::empty());
    }
    create_tree(node, &prefix, true, max_depth, max_entries, show_hidden, &mut out);
    proof {
        assert(Seq::<Seq<char>>::empty() + render_spec(
            *node,
            Seq::empty(),
            true,
            max_depth as nat,
            max_entries as nat,
            show_hidden,
        ) =~= render_spec(
            *node,
            Seq::empty(),
            true,
            max_depth as nat,
            max_entries as nat,
            show_hidden,
        ));
    }
    out
}

pub proof fn lemma_render_kids_membership(
    children: Seq<FsNode>,
    np: Seq<char>,
    idx: Seq<int>,
    n: int,
    shown: int,
    none_elided: bool,
    depth: nat,
    cap: nat,
    show_hidden: bool,
    line: Seq<char>,
)
    requires
        n <= idx.len(),
        forall|j: int| 0 <= j < n ==> 0 <= #[trigger] idx[j] < children.len(),
    ensures
        render_kids(children, np, idx, n, shown, none_elided, depth, cap, show_hidden).contains(
            line,
        ) <==> exists|j: int|
            0 <= j < n && render_spec(
                #[trigger] children[idx[j]],
                np,
                none_elided && j + 1 == shown,
                depth,
                cap,
                show_hidden,
            ).contains(line),
    decreases n,
{
    if n <= 0 {
        assert(!render_kids(children, np, idx, n, shown, none_elided, depth, cap,
        show_hidden).contains(line));
    } else {
        lemma_render_kids_membership(
            children,
            np,
            idx,
            n - 1,
            shown,
            none_elided,
            depth,
            cap,
            show_hidden,
            line,
        );
        lemma_add_contains(
            render_kids(children, np, idx, n - 1, shown, none_elided, depth, cap, show_hidden),
            render_spec(
                children[idx[n - 1]],
                np,
                none_elided && n == shown,
                depth,
                cap,
                show_hidden,
            ),
            line,
        );
    }
}

/// With the hidden-entries flag off, every line of visual output is the
/// line of the node the rendering started at, an elision marker line, or a
/// rendered line showing a base name that is not hidden: no hidden entry's
/// name is ever shown.
pub proof fn lemma_render_no_hidden(
    node: FsNode,
    prefix: Seq<char>,
    last: bool,
    depth: nat,
    cap: nat,
    line: Seq<char>,
)
    requires
        render_spec(node, prefix, last, depth, cap, false).contains(line),
    ensures
        line == render_line(prefix, last, node.is_dir, node.name@) || (exists|pfx: Seq<char>|
            line == elision_line(pfx)) || (exists|
            pfx: Seq<char>,
            l: bool,
            d: bool,
            nm: Seq<char>,
        |
            line == render_line(pfx, l, d, nm) && !hidden_name(nm)),
    decreases depth,
{
    if depth == 0 {
        assert(!render_spec(node, prefix, last, depth, cap, false).contains(line));
    } else {
        let own = render_line(prefix, last, node.is_dir, node.name@);
        let sidx = vis_indices(node.children@, false);
        let shown: int = if cap <= sidx.len() {
            cap as int
        } else {
            sidx.len() as int
        };
        let np = prefix + (if last {
            pad_last()
        } else {
            pad_mid()
        });
        let d = (depth - 1) as nat;
        lemma_vis_upto_complete(node.children@, node.children@.len() as int, false);
        if node.is_dir {
            let kids = render_kids(node.children@, np, sidx, shown, shown, sidx.len() <= cap, d,
            cap, false);
            let el: Seq<Seq<char>> = if sidx.len() > cap && depth > 1 {
                seq![elision_line(np)]
            } else {
                Seq::<Seq<char>>::empty()
            };
            lemma_add_contains(seq![own], kids + el, line);
            lemma_add_contains(kids, el, line);
            if seq![own].contains(line) {
                let k = choose|k: int| 0 <= k < 1 && seq![own][k] == line;
                assert(seq![own][0] == own);
            } else if kids.contains(line) {
                lemma_render_kids_membership(
                    node.children@,
                    np,
                    sidx,
                    shown,
                    shown,
                    sidx.len() <= cap,
                    d,
                    cap,
                    false,
                    line,
                );
                let j = choose|j: int|
                    0 <= j < shown && render_spec(
                        #[trigger] node.children@[sidx[j]],
                        np,
                        (sidx.len() <= cap) && j + 1 == shown,
                        d,
                        cap,
                        false,
                    ).contains(line);
                let child = node.children@[sidx[j]];
                assert(visible(child, false));
                lemma_render_no_hidden(child, np, (sidx.len() <= cap) && j + 1 == shown, d, cap,
                line);
                if line == render_line(np, (sidx.len() <= cap) && j + 1 == shown, child.is_dir,
                child.name@) {
                    assert(!hidden_name(child.name@));
                }
            } else {
                let k = choose|k: int| 0 <= k < el.len() && el[k] == line;
                assert(line == elision_line(np));
            }
        } else {
            lemma_add_contains(seq![own], Seq::<Seq<char>>::empty(), line);
            let k = choose|k: int| 0 <= k < 1 && seq![own][k] == line;
            assert(seq![own][0] == own);
        }
    }
}

/// With no depth budget neither mode produces any output, whatever the tree,
/// the cap or the hidden-entries flag.
pub proof fn lemma_depth_zero(
    node: FsNode,
    path: Seq<char>,
    prefix: Seq<char>,
    last: bool,
    cap: nat,
    show_hidden: bool,
)
    ensures
        render_spec(node, prefix, last, 0, cap, show_hidden) == Seq::<Seq<char>>::empty(),
        collect_spec(node, path, 0, show_hidden) == Seq::<Seq<char>>::empty(),
{
}

/// With any depth budget at all, visual mode renders the root as its first
/// line: the bare last-entry connector with the root's marker and name, and
/// no indentation prefix before it.
pub proof fn lemma_root_first_line(node: FsNode, depth: nat, cap: nat, show_hidden: bool)
    requires
        depth >= 1,
    ensures
        render_spec(node, Seq::empty(), true, depth, cap, show_hidden).len() >= 1,
        render_spec(node, Seq::empty(), true, depth, cap, show_hidden)[0] == render_line(
            Seq::empty(),
            true,
            node.is_dir,
            node.name@,
        ),
        render_line(Seq::empty(), true, node.is_dir, node.name@) == conn_last() + (if node.is_dir {
            icon_dir()
        } else {
            icon_file()
        }) + seq![' '] + node.name@,
{
    let line = render_line(Seq::empty(), true, node.is_dir, node.name@);
    assert((seq![line] + render_spec(node, Seq::empty(), true, depth, cap, show_hidden).skip(1))[0]
        == line);
    assert(Seq::empty() + conn_last() =~= conn_last());
}

/// Pipe-mode entry point: the collected paths for a subtree rooted at
/// `root_path`, one per output line.
pub fn collect_tree(
    node: &FsNode,
    root_path: &Vec<char>,
    max_depth: usize,
    show_hidden: bool,
) -> (out: Vec<Vec<char>>)
    ensures
        view_lines(out@) == collect_spec(*node, root_path@, max_depth as nat, show_hidden),
{
    let mut out: Vec<Vec<char>> = Vec::new();
    proof {
        assert(view_lines(out@) =~= Seq::<Seq<char>>::empty());
    }
    collect_tree_paths(node, root_path, max_depth, &mut out, show_hidden);
    proof {
        assert(Seq::<Seq<char>>::empty() + collect_spec(
            *node,
            root_path@,
            max_depth as nat,
            show_hidden,
        ) =~= collect_spec(*node, root_path@, max_depth as nat, show_hidden));
    }
    out
}

} // verus!
