//! The normalizer only moves whitespace: with an empty reference and no
//! trailer line it keeps every other character of the markdown, in order.
use vstd::prelude::*;
use crate::boundary::{content_end, is_trailer, trailer_before};
use crate::header::split_header;
use crate::laws::lemma_empty_reference_keeps_head;
use crate::markdown::{
    content_lines, flush, indent, line_step, line_text, list_context, list_item_text, normalized,
    reflow_upto, step, Reflow,
};
use crate::text::{
    join, lead_ws, lemma_lead_ws_bound, lemma_nl_pieces_len, lines_of, nl_pieces, strip_cr,
    trail_ws, trim, trim_end, trim_start, white_space,
};

verus! {

/// The characters of `s` that are not whitespace, in order.
pub open spec fn visible(s: Seq<char>) -> Seq<char>
    decreases s.len(),
{
    if s.len() == 0 {
        Seq::empty()
    } else if white_space(s.last()) {
        visible(s.drop_last())
    } else {
        visible(s.drop_last()).push(s.last())
    }
}

/// The visible characters of `parts`, one part after the other.
pub open spec fn visible_all(parts: Seq<Seq<char>>) -> Seq<char>
    decreases parts.len(),
{
    if parts.len() == 0 {
        Seq::empty()
    } else {
        visible_all(parts.drop_last()) + visible(parts.last())
    }
}

/// The visible characters held by a reflow state: its blocks, then the
/// block being gathered.
pub open spec fn held(st: Reflow) -> Seq<char> {
    visible_all(st.blocks) + visible_all(st.current)
}

proof fn lemma_visible_add(a: Seq<char>, b: Seq<char>)
    ensures
        visible(a + b) == visible(a) + visible(b),
    decreases b.len(),
{
    if b.len() == 0 {
        assert(a + b =~= a);
        assert(visible(a) + visible(b) =~= visible(a));
    } else {
        assert((a + b).drop_last() =~= a + b.drop_last());
        lemma_visible_add(a, b.drop_last());
        assert((a + b).last() == b.last());
        if !white_space(b.last()) {
            assert((visible(a) + visible(b.drop_last())).push(b.last()) =~= visible(a) + visible(b));
        }
    }
}

proof fn lemma_visible_white(s: Seq<char>)
    requires
        forall|i: int| 0 <= i < s.len() ==> white_space(#[trigger] s[i]),
    ensures
        visible(s) == Seq::<char>::empty(),
    decreases s.len(),
{
    if s.len() > 0 {
        let t = s.drop_last();
        assert forall|i: int| 0 <= i < t.len() implies white_space(#[trigger] t[i]) by {
            assert(t[i] == s[i]);
        }
        lemma_visible_white(t);
    }
}

proof fn lemma_visible_newlines(s: Seq<char>)
    requires
        forall|i: int| 0 <= i < s.len() ==> s[i] == '\n',
    ensures
        visible(s) == Seq::<char>::empty(),
{
    assert forall|i: int| 0 <= i < s.len() implies white_space(#[trigger] s[i]) by {
        assert(s[i] == '\n');
    }
    lemma_visible_white(s);
}

proof fn lemma_visible_cut(s: Seq<char>, p: int)
    requires
        0 <= p <= s.len(),
    ensures
        visible(s.subrange(0, p)) + visible(s.subrange(p, s.len() as int)) == visible(s),
{
    assert(s.subrange(0, p) + s.subrange(p, s.len() as int) =~= s);
    lemma_visible_add(s.subrange(0, p), s.subrange(p, s.len() as int));
}

proof fn lemma_trail_ws_white(s: Seq<char>)
    ensures
        trail_ws(s) <= s.len(),
        forall|j: int| s.len() - trail_ws(s) <= j < s.len() ==> white_space(#[trigger] s[j]),
    decreases s.len(),
{
    if s.len() > 0 && white_space(s.last()) {
        let t = s.drop_last();
        lemma_trail_ws_white(t);
        assert forall|j: int| s.len() - trail_ws(s) <= j < s.len() implies white_space(
            #[trigger] s[j],
        ) by {
            if j < s.len() - 1 {
                assert(s[j] == t[j]);
            }
        }
    }
}

proof fn lemma_visible_trim(s: Seq<char>)
    ensures
        visible(trim_start(s)) == visible(s),
        visible(trim_end(s)) == visible(s),
        visible(trim(s)) == visible(s),
{
    lemma_lead_ws_bound(s);
    let k = lead_ws(s) as int;
    lemma_visible_cut(s, k);
    let head = s.subrange(0, k);
    assert forall|i: int| 0 <= i < head.len() implies white_space(#[trigger] head[i]) by {
        assert(head[i] == s[i]);
    }
    lemma_visible_white(head);
    assert(Seq::<char>::empty() + visible(trim_start(s)) =~= visible(trim_start(s)));
    lemma_trail_ws_white(s);
    let e = s.len() - trail_ws(s);
    lemma_visible_cut(s, e);
    let tail = s.subrange(e, s.len() as int);
    assert forall|i: int| 0 <= i < tail.len() implies white_space(#[trigger] tail[i]) by {
        assert(tail[i] == s[e + i]);
    }
    lemma_visible_white(tail);
    assert(visible(trim_end(s)) + Seq::<char>::empty() =~= visible(trim_end(s)));
    let t = trim_start(s);
    lemma_trail_ws_white(t);
    let e2 = t.len() - trail_ws(t);
    lemma_visible_cut(t, e2);
    let tail2 = t.subrange(e2, t.len() as int);
    assert forall|i: int| 0 <= i < tail2.len() implies white_space(#[trigger] tail2[i]) by {
        assert(tail2[i] == t[e2 + i]);
    }
    lemma_visible_white(tail2);
    assert(visible(trim(s)) + Seq::<char>::empty() =~= visible(trim(s)));
}

proof fn lemma_visible_join(parts: Seq<Seq<char>>, sep: Seq<char>)
    requires
        visible(sep) == Seq::<char>::empty(),
    ensures
        visible(join(parts, sep)) == visible_all(parts),
    decreases parts.len(),
{
    if parts.len() == 1 {
        assert(parts.drop_last().len() == 0);
        assert(visible_all(parts.drop_last()) == Seq::<char>::empty());
        assert(parts.last() == parts[0]);
        assert(Seq::<char>::empty() + visible(parts[0]) =~= visible(parts[0]));
    } else if parts.len() >= 2 {
        lemma_visible_join(parts.drop_last(), sep);
        lemma_visible_add(join(parts.drop_last(), sep), sep);
        lemma_visible_add(join(parts.drop_last(), sep) + sep, parts.last());
        assert(visible_all(parts.drop_last()) + Seq::<char>::empty() =~= visible_all(
            parts.drop_last(),
        ));
        assert(join(parts, sep) == join(parts.drop_last(), sep) + sep + parts.last());
        assert(visible(join(parts, sep)) == visible_all(parts.drop_last()) + visible(
            parts.last(),
        ));
    }
}

proof fn lemma_visible_push(parts: Seq<Seq<char>>, x: Seq<char>)
    ensures
        visible_all(parts.push(x)) == visible_all(parts) + visible(x),
{
    assert(parts.push(x).drop_last() =~= parts);
}

proof fn lemma_flush_holds(st: Reflow)
    ensures
        held(flush(st)) == held(st),
        flush(st).current.len() == 0 || flush(st) == st,
{
    if st.current.len() > 0 {
        let nl = seq!['\n'];
        lemma_visible_newlines(nl);
        lemma_visible_join(st.current, nl);
        lemma_visible_push(st.blocks, join(st.current, nl));
        let e: Seq<Seq<char>> = Seq::empty();
        assert(visible_all(e) == Seq::<char>::empty());
        assert(held(flush(st)) =~= held(st));
    }
}

proof fn lemma_visible_indent(x: Seq<char>, d: nat)
    ensures
        visible(indent(x, d)) == visible(x),
{
    let sp = Seq::new(4 * d, |k: int| ' ');
    lemma_visible_white(sp);
    lemma_visible_add(sp, trim_start(x));
    lemma_visible_trim(x);
    assert(Seq::<char>::empty() + visible(trim_start(x)) =~= visible(trim_start(x)));
}

proof fn lemma_visible_line_text(x: Seq<char>, ty: crate::classify::BlockType, prev: crate::classify::BlockType)
    ensures
        visible(line_text(x, ty, prev)) == visible(x),
{
    lemma_visible_trim(x);
    match ty {
        crate::classify::BlockType::ListItem { depth, marker } => {
            let d = crate::markdown::effective_depth(depth, marker, prev);
            lemma_visible_indent(x, d);
            assert(visible(list_item_text(x, d)) == visible(x));
        },
        crate::classify::BlockType::Normal => {
            match prev {
                crate::classify::BlockType::ListItem { depth, .. } => {
                    lemma_visible_indent(x, (depth + 1) as nat);
                },
                _ => {},
            }
        },
        _ => {},
    }
}

proof fn lemma_step_holds(
    st: Reflow,
    piece: Seq<char>,
    second: bool,
    last: bool,
    next: Option<Seq<char>>,
)
    ensures
        held(step(st, piece, second, last, next)) == held(st) + visible(piece),
{
    if piece.len() == 0 {
        assert(held(st) + visible(piece) =~= held(st));
    } else {
        let in_code = if crate::text::starts_with(piece, crate::classify::fence()) {
            !st.in_code
        } else {
            st.in_code
        };
        let cont = crate::classify::continues_list(piece, st.prev);
        let ty = crate::markdown::piece_type(piece, st, in_code);
        let s1 = Reflow { in_code, ..st };
        assert(held(s1) == held(st));
        let s2 = list_context(s1, ty, cont);
        lemma_flush_holds(Reflow { in_list: true, ..s1 });
        lemma_flush_holds(Reflow { in_list: false, ..s1 });
        assert(held(s2) == held(st));
        let s3 = if second && ty is Header {
            flush(s2)
        } else {
            s2
        };
        lemma_flush_holds(s2);
        let s4 = if crate::classify::spacing_before(ty, st.prev) {
            flush(s3)
        } else {
            s3
        };
        lemma_flush_holds(s3);
        let text = line_text(piece, ty, st.prev);
        let s5 = Reflow { current: s4.current.push(text), ..s4 };
        lemma_visible_push(s4.current, text);
        lemma_visible_line_text(piece, ty, st.prev);
        assert(held(s5) =~= held(st) + visible(piece));
        lemma_flush_holds(s5);
    }
}

proof fn lemma_line_step_holds(st: Reflow, line: Seq<char>, next: Option<Seq<char>>)
    ensures
        held(line_step(st, line, next)) == held(st) + visible(line),
{
    let t = trim_end(line);
    lemma_visible_trim(line);
    let parts = split_header(t);
    let p = crate::header::first_split_from(t, 0);
    crate::laws::lemma_split_only_at_header(t);
    if parts.len() == 2 {
        let s1 = step(st, parts[0], false, false, next);
        lemma_step_holds(st, parts[0], false, false, next);
        lemma_step_holds(s1, parts[1], true, true, next);
        lemma_visible_trim(t.subrange(0, p));
        lemma_visible_trim(t.subrange(p, t.len() as int));
        lemma_visible_cut(t, p);
        assert(held(line_step(st, line, next)) =~= held(st) + visible(line));
    } else {
        lemma_step_holds(st, parts[0], false, true, next);
        lemma_visible_trim(t);
    }
}

proof fn lemma_reflow_holds(lines: Seq<Seq<char>>, n: nat)
    requires
        n <= lines.len(),
    ensures
        held(reflow_upto(lines, n)) == visible_all(lines.subrange(0, n as int)),
    decreases n,
{
    if n == 0 {
        let e: Seq<Seq<char>> = Seq::empty();
        assert(lines.subrange(0, 0) =~= e);
        assert(held(reflow_upto(lines, 0)) =~= Seq::<char>::empty());
    } else {
        lemma_reflow_holds(lines, (n - 1) as nat);
        let next = if n < lines.len() {
            Some(lines[n as int])
        } else {
            None
        };
        lemma_line_step_holds(reflow_upto(lines, (n - 1) as nat), lines[n - 1], next);
        assert(lines.subrange(0, n as int).drop_last() =~= lines.subrange(0, n - 1));
    }
}

proof fn lemma_visible_pieces(s: Seq<char>)
    ensures
        visible_all(nl_pieces(s)) == visible(s),
    decreases s.len(),
{
    if s.len() == 0 {
        assert(nl_pieces(s) =~= seq![Seq::<char>::empty()]);
        assert(nl_pieces(s).drop_last().len() == 0);
        assert(visible_all(nl_pieces(s).drop_last()) == Seq::<char>::empty());
        assert(visible(nl_pieces(s).last()) == Seq::<char>::empty());
        assert(visible_all(nl_pieces(s)) =~= Seq::<char>::empty());
    } else {
        let t = s.drop_last();
        let c = s.last();
        lemma_visible_pieces(t);
        lemma_nl_pieces_len(t);
        let p = nl_pieces(t);
        if c == '\n' {
            lemma_visible_push(p, Seq::empty());
            assert(visible_all(p) + Seq::<char>::empty() =~= visible_all(p));
        } else {
            let u = p.update(p.len() - 1, p.last().push(c));
            assert(u.drop_last() =~= p.drop_last());
            assert(p.last().push(c).drop_last() =~= p.last());
            if !white_space(c) {
                assert((visible_all(p.drop_last()) + visible(p.last())).push(c)
                    =~= visible_all(p.drop_last()) + visible(p.last()).push(c));
            }
        }
    }
}

proof fn lemma_visible_strip(q: Seq<Seq<char>>)
    ensures
        visible_all(q.map_values(|l: Seq<char>| strip_cr(l))) == visible_all(q),
    decreases q.len(),
{
    if q.len() > 0 {
        lemma_visible_strip(q.drop_last());
        let m = q.map_values(|l: Seq<char>| strip_cr(l));
        assert(m.drop_last() =~= q.drop_last().map_values(|l: Seq<char>| strip_cr(l)));
        let l = q.last();
        assert(visible(strip_cr(l)) == visible(l));
    }
}

proof fn lemma_visible_lines(s: Seq<char>)
    ensures
        visible_all(lines_of(s)) == visible(s),
{
    lemma_visible_pieces(s);
    lemma_nl_pieces_len(s);
    let p = nl_pieces(s);
    let ended = p.drop_last().map_values(|l: Seq<char>| strip_cr(l));
    lemma_visible_strip(p.drop_last());
    if p.last().len() == 0 {
        assert(visible(p.last()) == Seq::<char>::empty());
        assert(visible_all(p.drop_last()) + Seq::<char>::empty() =~= visible_all(p.drop_last()));
    } else {
        lemma_visible_push(ended, p.last());
    }
}

proof fn lemma_no_trailer_keeps_end(lines: Seq<Seq<char>>, k: int)
    requires
        0 <= k <= lines.len(),
        forall|i: int| 1 <= i < lines.len() ==> !is_trailer(#[trigger] lines[i]),
    ensures
        trailer_before(lines, 0, k) == lines.len(),
    decreases k,
{
    if k > 1 {
        lemma_no_trailer_keeps_end(lines, k - 1);
    }
}

/// With an empty reference and no trailer line after the first, the
/// normalized text holds every non-whitespace character of the markdown, in
/// order, and no other: the whole markdown is processed and only re-spaced.
pub proof fn lemma_only_whitespace_changes(markdown: Seq<char>)
    requires
        forall|i: int|
            1 <= i < lines_of(markdown).len() ==> !is_trailer(#[trigger] lines_of(markdown)[i]),
    ensures
        visible(normalized(markdown, Seq::empty())) == visible(markdown),
{
    let e: Seq<char> = Seq::empty();
    let lines = lines_of(markdown);
    lemma_empty_reference_keeps_head(markdown);
    lemma_no_trailer_keeps_end(lines, lines.len() as int);
    assert(content_end(markdown, e) == lines.len());
    let content = content_lines(markdown, e);
    assert(content =~= lines);
    let r = reflow_upto(content, content.len());
    lemma_reflow_holds(content, content.len());
    assert(content.subrange(0, content.len() as int) =~= content);
    lemma_visible_lines(markdown);
    lemma_flush_holds(r);
    let f = flush(r);
    let nn = seq!['\n', '\n'];
    lemma_visible_newlines(nn);
    lemma_visible_join(f.blocks, nn);
    assert(f.current.len() == 0 || f == r);
    let es: Seq<Seq<char>> = Seq::empty();
    if f.current.len() == 0 {
        assert(f.current =~= es);
    }
    assert(visible_all(f.blocks) + Seq::<char>::empty() =~= visible_all(f.blocks));
}

} // verus!
