//! The newline-delimited flat-text store format shared by the favourites and
//! history files: one path per line, oldest first.  Reading splits on `'\n'`,
//! drops one trailing `'\r'` per line, and tolerates (filters out) blank
//! lines; writing emits each line followed by a single `'\n'`.

use vstd::prelude::*;
use crate::chars::is_space;
use crate::chars::copy_range;
use crate::chars::copy_chars;
use crate::chars::append_chars;

verus! {

/// The index of the first `'\n'` in `t`, or `t.len()` if there is none.
pub open spec fn line_break(t: Seq<char>) -> nat
    decreases t.len(),
{
    if t.len() == 0 {
        0
    } else if t[0] == '\n' {
        0
    } else {
        1 + line_break(t.drop_first())
    }
}

pub proof fn lemma_line_break(t: Seq<char>, k: int)
    requires
        0 <= k <= t.len(),
        forall|i: int| 0 <= i < k ==> t[i] != '\n',
        k == t.len() || t[k] == '\n',
    ensures
        line_break(t) == k,
    decreases k,
{
    if k > 0 {
        lemma_line_break(t.drop_first(), k - 1);
    }
}

/// One raw line with a single trailing carriage return removed.
pub open spec fn clean(l: Seq<char>) -> Seq<char> {
    if l.len() > 0 && l[l.len() - 1] == '\r' {
        l.drop_last()
    } else {
        l
    }
}

/// A line holding nothing but blank characters (this includes the empty line).
pub open spec fn is_blank(l: Seq<char>) -> bool {
    forall|i: int| 0 <= i < l.len() ==> is_space(l[i])
}

/// A line that the store can hold faithfully: no embedded newline, no
/// trailing carriage return, and at least one non-blank character.
pub open spec fn wf_line(l: Seq<char>) -> bool {
    &&& forall|i: int| 0 <= i < l.len() ==> l[i] != '\n'
    &&& (l.len() > 0 ==> l[l.len() - 1] != '\r')
    &&& !is_blank(l)
}

/// The lines read from the text of a store file, in file order, blank lines
/// filtered out.
pub open spec fn parse_lines(t: Seq<char>) -> Seq<Seq<char>>
    decreases t.len(),
{
    let k = line_break(t);
    let piece = clean(t.take(k as int));
    let kept: Seq<Seq<char>> = if is_blank(piece) {
        Seq::empty()
    } else {
        seq![piece]
    };
    if k >= t.len() {
        kept
    } else {
        kept + parse_lines(t.skip(k + 1 as int))
    }
}

/// The text written for a sequence of lines: each line followed by `'\n'`.
pub open spec fn store_text(lines: Seq<Seq<char>>) -> Seq<char>
    decreases lines.len(),
{
    if lines.len() == 0 {
        Seq::empty()
    } else {
        lines[0] + seq!['\n'] + store_text(lines.drop_first())
    }
}

/// The view of a vector of lines as a sequence of character sequences.
pub open spec fn view_lines(v: Seq<Vec<char>>) -> Seq<Seq<char>> {
    Seq::new(v.len(), |i: int| v[i]@)
}

pub proof fn lemma_view_lines_props(v: Seq<Vec<char>>)
    ensures
        view_lines(v).len() == v.len(),
        forall|i: int| 0 <= i < v.len() ==> #[trigger] view_lines(v)[i] == v[i]@,
{
}

/// Does the line hold at least one non-blank character?
pub fn has_content(l: &Vec<char>) -> (r: bool)
    ensures
        r == !is_blank(l@),
{
    for i in 0..l.len()
        invariant
            forall|j: int| 0 <= j < i ==> is_space(l@[j]),
    {
        let c = l[i];
        if !(c == ' ' || c == '\t' || c == '\r') {
            return true;
        }
    }
    false
}

fn parse_from(text: &Vec<char>, start: usize) -> (out: Vec<Vec<char>>)
    requires
        start <= text@.len(),
    ensures
        view_lines(out@) == parse_lines(text@.skip(start as int)),
    decreases text@.len() - start,
{
    let ghost t = text@.skip(start as int);
    let n = text.len();
    let mut j: usize = start;
    while j < n && text[j] != '\n'
        invariant
            start <= j <= n == text@.len(),
            forall|k: int| start <= k < j ==> text@[k] != '\n',
        decreases n - j,
    {
        j = j + 1;
    }
    proof {
        assert forall|i: int| 0 <= i < j - start implies t[i] != '\n' by {
            assert(t[i] == text@[start + i]);
        }
        if j < n {
            assert(t[j - start] == text@[j as int]);
        }
        lemma_line_break(t, j - start);
    }
    let mut piece = copy_range(text, start, j);
    if piece.len() > 0 && piece[piece.len() - 1] == '\r' {
        piece.pop();
    }
    proof {
        assert(text@.subrange(start as int, j as int) =~= t.take(j - start));
        assert(piece@ == clean(t.take(j - start)));
    }
    let keep = has_content(&piece);
    if j == n {
        let mut out: Vec<Vec<char>> = Vec::new();
        if keep {
            out.push(piece);
        }
        proof {
            if keep {
                assert(view_lines(out@) =~= seq![piece@]);
            } else {
                assert(view_lines(out@) =~= Seq::<Seq<char>>::empty());
            }
        }
        out
    } else {
        let rest = parse_from(text, j + 1);
        proof {
            assert(text@.skip(j + 1 as int) =~= t.skip(j - start + 1));
        }
        let mut out: Vec<Vec<char>> = Vec::new();
        if keep {
            out.push(piece);
        }
        let mut i: usize = 0;
        while i < rest.len()
            invariant
                i <= rest@.len(),
                view_lines(out@) == (if keep {
                    seq![piece@]
                } else {
                    Seq::<Seq<char>>::empty()
                }) + view_lines(rest@).take(i as int),
            decreases rest@.len() - i,
        {
            let line = copy_chars(&rest[i]);
            let ghost ob = out@;
            let ghost lv = line@;
            out.push(line);
            proof {
                let base: Seq<Seq<char>> = if keep {
                    seq![piece@]
                } else {
                    Seq::<Seq<char>>::empty()
                };
                let vr = view_lines(rest@);
                lemma_view_lines_props(rest@);
                assert(view_lines(out@) =~= view_lines(ob).push(lv));
                assert(lv == vr[i as int]);
                assert(vr.take(i + 1 as int) =~= vr.take(i as int).push(vr[i as int]));
                assert((base + vr.take(i as int)).push(vr[i as int]) =~= base + vr.take(
                    i as int,
                ).push(vr[i as int]));
            }
            i = i + 1;
        }
        proof {
            assert(view_lines(rest@).take(rest@.len() as int) =~= view_lines(rest@));
        }
        out
    }
}

/// Parses the full text of a store file into its logical lines.
pub fn parse_store(text: &Vec<char>) -> (out: Vec<Vec<char>>)
    ensures
        view_lines(out@) == parse_lines(text@),
{
    let out = parse_from(text, 0);
    proof {
        assert(text@.skip(0) =~= text@);
    }
    out
}

pub proof fn lemma_store_text_push(lines: Seq<Seq<char>>, x: Seq<char>)
    ensures
        store_text(lines.push(x)) == store_text(lines) + x + seq!['\n'],
    decreases lines.len(),
{
    if lines.len() == 0 {
        assert(lines.push(x).drop_first() =~= Seq::<Seq<char>>::empty());
        assert(store_text(Seq::<Seq<char>>::empty()) == Seq::<char>::empty());
        assert(lines.push(x)[0] == x);
        assert(store_text(lines.push(x)) =~= store_text(lines) + x + seq!['\n']);
    } else {
        assert(lines.push(x).drop_first() =~= lines.drop_first().push(x));
        lemma_store_text_push(lines.drop_first(), x);
        assert(lines.push(x)[0] == lines[0]);
        assert(store_text(lines.push(x)) == lines[0] + seq!['\n'] + (store_text(lines.drop_first())
            + x + seq!['\n']));
        assert(store_text(lines.push(x)) =~= store_text(lines) + x + seq!['\n']);
    }
}

/// Serializes a sequence of lines into the text written back to a store file.
pub fn write_store(lines: &Vec<Vec<char>>) -> (out: Vec<char>)
    ensures
        out@ == store_text(view_lines(lines@)),
{
    let ghost vl = view_lines(lines@);
    let mut out: Vec<char> = Vec::new();
    let mut i: usize = 0;
    while i < lines.len()
        invariant
            i <= lines@.len(),
            vl == view_lines(lines@),
            out@ == store_text(vl.take(i as int)),
        decreases lines@.len() - i,
    {
        append_chars(&mut out, &lines[i]);
        out.push('\n');
        proof {
            assert(vl.take(i + 1 as int) =~= vl.take(i as int).push(vl[i as int]));
            lemma_store_text_push(vl.take(i as int), vl[i as int]);
        }
        i = i + 1;
    }
    proof {
        assert(vl.take(vl.len() as int) =~= vl);
    }
    out
}

/// Reading back what was written returns exactly the lines that were written:
/// the store round-trips any sequence of well-formed lines.
pub proof fn lemma_store_round_trip(lines: Seq<Seq<char>>)
    requires
        forall|i: int| 0 <= i < lines.len() ==> wf_line(#[trigger] lines[i]),
    ensures
        parse_lines(store_text(lines)) == lines,
    decreases lines.len(),
{
    if lines.len() == 0 {
        assert(parse_lines(store_text(lines)) =~= lines);
    } else {
        let first = lines[0];
        let rest = lines.drop_first();
        let t = store_text(lines);
        assert(t == first + seq!['\n'] + store_text(rest));
        assert forall|i: int| 0 <= i < first.len() implies t[i] != '\n' by {
            assert(t[i] == first[i]);
        }
        assert(t[first.len() as int] == '\n');
        lemma_line_break(t, first.len() as int);
        assert(t.take(first.len() as int) =~= first);
        assert(clean(first) == first);
        assert(!is_blank(first));
        assert(t.skip(first.len() + 1 as int) =~= store_text(rest));
        assert forall|i: int| 0 <= i < rest.len() implies wf_line(#[trigger] rest[i]) by {
            assert(rest[i] == lines[i + 1]);
        }
        lemma_store_round_trip(rest);
        assert(parse_lines(t) =~= lines);
    }
}

} // verus!
