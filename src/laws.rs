//! Properties of the normalizer that hold for every input.
use vstd::prelude::*;
use crate::boundary::{
    content_end,    is_trailer, trailer_before,    comparable, comparable_chars, content_start, first_occurrence_from, first_paragraph,
    words,
};
use crate::classify::{
    block_type, continues_list, dot_scan, fence, first_token, is_digit, is_terminator, list_depth,
    list_marker, numbering, numbering_len, word_len, BlockType, ListMarker,
};
use crate::header::{first_split_from, hash_run, is_split_point, protected, split_header};
use crate::markdown::{
    content_lines, flush, line_text, list_context, next_type, piece_type, written_type, initial_reflow, line_step, normalized, reflow_upto, step,
    Reflow,
};
use crate::text::{
    join, lemma_nl_pieces_len, nl_pieces, strip_cr,    contains, lead_ws, lines_of, occurs_at, starts_with, trail_ws, trim, trim_end,
    trim_start, white_space,
};

verus! {

/// With an empty reference text the article starts at the first line of the
/// markdown: the empty first paragraph matches any window.
pub proof fn lemma_empty_reference_keeps_head(markdown: Seq<char>)
    ensures
        content_start(markdown, Seq::empty()) == 0,
{
    let e: Seq<char> = Seq::empty();
    assert(first_occurrence_from(e, "\n\n"@, 0) == 0);
    assert(e.subrange(0, 0) =~= e);
    assert(lead_ws(e) == 0);
    assert(trim_start(e) =~= e);
    assert(trail_ws(e) == 0);
    assert(trim_end(e) =~= e);
    assert(first_paragraph(e) == e);
    assert(comparable_chars(e) == e);
    assert(words(e) == Seq::<Seq<char>>::empty());
    assert(comparable(e) == e);
    let lines = lines_of(markdown);
    if lines.len() >= 3 {
        let w = crate::boundary::window_text(lines, 0);
        let c = comparable(w);
        assert(c.subrange(0, 0) =~= e);
        assert(occurs_at(c, e, 0));
        assert(contains(c, e));
    }
}

/// A `#` inside inline code, an HTML tag or a link never starts a header.
pub proof fn lemma_protected_hash_never_splits(line: Seq<char>, p: int)
    requires
        protected(line, p),
    ensures
        !is_split_point(line, p),
{
}

/// A line is split only at an unprotected run of `#` followed by whitespace
/// or the end of the line, and the second piece starts with that run.
pub proof fn lemma_split_only_at_header(line: Seq<char>)
    ensures
        split_header(line).len() == 2 ==> is_split_point(line, first_split_from(line, 0)),
{
    lemma_first_split_is_split_point(line, 0);
}

proof fn lemma_first_split_is_split_point(line: Seq<char>, from: int)
    requires
        0 <= from,
    ensures
        first_split_from(line, from) < line.len() ==> is_split_point(
            line,
            first_split_from(line, from),
        ),
    decreases line.len() - from,
{
    if from < line.len() && !is_split_point(line, from) {
        lemma_first_split_is_split_point(line, from + 1);
    }
}

proof fn lemma_word_len_at_least(s: Seq<char>, k: int)
    requires
        0 <= k <= s.len(),
        forall|j: int| 0 <= j < k ==> !white_space(#[trigger] s[j]),
    ensures
        word_len(s) >= k,
    decreases k,
{
    if k > 0 {
        let t = s.subrange(1, s.len() as int);
        assert forall|j: int| 0 <= j < k - 1 implies !white_space(#[trigger] t[j]) by {
            assert(t[j] == s[j + 1]);
        }
        lemma_word_len_at_least(t, k - 1);
    }
}

proof fn lemma_numbering_len_exact(s: Seq<char>, k: int)
    requires
        0 <= k < s.len(),
        forall|j: int| 0 <= j < k ==> !is_terminator(#[trigger] s[j]),
        is_terminator(s[k]),
    ensures
        numbering_len(s) == k,
    decreases k,
{
    if k > 0 {
        let t = s.subrange(1, s.len() as int);
        assert forall|j: int| 0 <= j < k - 1 implies !is_terminator(#[trigger] t[j]) by {
            assert(t[j] == s[j + 1]);
        }
        assert(t[k - 1] == s[k]);
        lemma_numbering_len_exact(t, k - 1);
    }
}

/// A numbered token followed directly by inline code (`4.2` then a backtick
/// and code) is a numbered list item whose depth comes from the digits and
/// dots before the backtick alone.
pub proof fn lemma_numbering_stops_at_code(num: Seq<char>, rest: Seq<char>, in_code: bool)
    requires
        num.len() > 0,
        is_digit(num[0]),
        forall|j: int| 0 <= j < num.len() ==> is_digit(#[trigger] num[j]) || num[j] == '.',
    ensures
        list_marker(num + seq!['`'] + rest) == ListMarker::Number,
        block_type(num + seq!['`'] + rest, in_code) == (BlockType::ListItem {
            depth: list_depth(num + seq!['`'] + rest) as usize,
            marker: ListMarker::Number,
        }),
        numbering(num + seq!['`'] + rest) == num,
        list_depth(num + seq!['`'] + rest) == ({
            let (found, dots) = dot_scan(num);
            if dots > 0 {
                if found {
                    dots
                } else {
                    (dots - 1) as nat
                }
            } else {
                0
            }
        }),
{
    let line = num + seq!['`'] + rest;
    assert(line[0] == num[0]);
    assert(lead_ws(line) == 0);
    assert(line.subrange(0, line.len() as int) =~= line);
    assert(trim_start(line) == line);
    assert forall|j: int| 0 <= j < num.len() + 1 implies !white_space(#[trigger] line[j]) by {
        if j < num.len() {
            assert(line[j] == num[j]);
        } else {
            assert(line[j] == '`');
        }
    }
    lemma_word_len_at_least(line, num.len() + 1int);
    crate::classify::lemma_word_len_bound(line);
    let tok = first_token(line);
    assert(tok.len() >= num.len() + 1);
    assert forall|j: int| 0 <= j < num.len() implies !is_terminator(#[trigger] tok[j]) by {
        assert(tok[j] == num[j]);
    }
    assert(tok[num.len() as int] == '`');
    lemma_numbering_len_exact(tok, num.len() as int);
    assert(numbering(line) =~= num);
}

/// Every run of `#` in `line` that is followed by whitespace or the end of
/// the line lies inside inline code, an HTML tag or a link.
pub open spec fn headers_all_protected(line: Seq<char>) -> bool {
    forall|p: int|
        0 <= p < line.len() && #[trigger] line[p] == '#' && ({
            let after = p + hash_run(line.subrange(p, line.len() as int));
            after == line.len() || white_space(line[after])
        }) ==> protected(line, p)
}

proof fn lemma_no_split_from(line: Seq<char>, from: int)
    requires
        0 <= from,
        headers_all_protected(line),
    ensures
        first_split_from(line, from) == line.len(),
    decreases line.len() - from,
{
    if from < line.len() {
        assert(!is_split_point(line, from));
        lemma_no_split_from(line, from + 1);
    }
}

/// A line whose every header-like run of `#` is protected (inside inline
/// code, an HTML tag or a link) is kept whole, only trimmed.
pub proof fn lemma_protected_line_kept_whole(line: Seq<char>)
    requires
        headers_all_protected(line),
    ensures
        split_header(line) == seq![trim(line)],
{
    lemma_no_split_from(line, 0);
}

proof fn lemma_pieces_append(x: Seq<char>, y: Seq<char>)
    requires
        forall|i: int| 0 <= i < y.len() ==> y[i] != '\n',
    ensures
        nl_pieces(x + y) == nl_pieces(x).update(
            nl_pieces(x).len() - 1,
            nl_pieces(x).last() + y,
        ),
    decreases y.len(),
{
    lemma_nl_pieces_len(x);
    if y.len() == 0 {
        assert(x + y =~= x);
        assert(nl_pieces(x).last() + y =~= nl_pieces(x).last());
        assert(nl_pieces(x).update(nl_pieces(x).len() - 1, nl_pieces(x).last()) =~= nl_pieces(x));
    } else {
        let y0 = y.drop_last();
        assert((x + y).drop_last() =~= x + y0);
        lemma_pieces_append(x, y0);
        assert((x + y).last() == y.last());
        assert((nl_pieces(x).last() + y0).push(y.last()) =~= nl_pieces(x).last() + y);
        assert(nl_pieces(x + y) =~= nl_pieces(x).update(
            nl_pieces(x).len() - 1,
            nl_pieces(x).last() + y,
        ));
    }
}

/// Two lines without newlines, joined by one, are split back into the two.
proof fn lemma_two_lines(a: Seq<char>, b: Seq<char>)
    requires
        forall|i: int| 0 <= i < a.len() ==> a[i] != '\n',
        forall|i: int| 0 <= i < b.len() ==> b[i] != '\n',
        a.len() > 0 ==> a.last() != '\r',
        b.len() > 0,
    ensures
        lines_of(a + seq!['\n'] + b) == seq![a, b],
{
    let e: Seq<char> = Seq::empty();
    assert(nl_pieces(e) == seq![e]);
    lemma_pieces_append(e, a);
    assert(e + a =~= a);
    assert(nl_pieces(a) =~= seq![a]);
    let an = a + seq!['\n'];
    assert(an.drop_last() =~= a);
    assert(nl_pieces(an) =~= seq![a, e]);
    lemma_pieces_append(an, b);
    assert(nl_pieces(an + b) =~= seq![a, b]);
    assert(a + seq!['\n'] + b =~= an + b);
    assert(seq![a, b].drop_last().map_values(|l: Seq<char>| strip_cr(l)) =~= seq![a]);
}

/// A line of prose standing alone: text with no surrounding whitespace and no
/// newline, classified as plain prose, with no header glued onto it.
pub open spec fn prose_line(l: Seq<char>) -> bool {
    &&& l.len() > 0
    &&& !white_space(l[0])
    &&& !white_space(l.last())
    &&& forall|i: int| 0 <= i < l.len() ==> l[i] != '\n'
    &&& block_type(l, false) == BlockType::Normal
    &&& headers_all_protected(l)
}

proof fn lemma_prose_line_trimmed(l: Seq<char>)
    requires
        prose_line(l),
    ensures
        trim_start(l) == l,
        trim_end(l) == l,
        trim(l) == l,
        split_header(trim_end(l)) == seq![l],
{
    assert(lead_ws(l) == 0);
    assert(l.subrange(0, l.len() as int) =~= l);
    assert(trail_ws(l) == 0);
    lemma_protected_line_kept_whole(l);
}

/// A line of prose after a closed block of prose is written as a block of
/// its own when prose or nothing follows it.
proof fn lemma_prose_step(st: Reflow, l: Seq<char>, next: Option<Seq<char>>)
    requires
        prose_line(l),
        !st.in_code,
        !st.in_list,
        st.prev == BlockType::Normal,
        st.current.len() == 0,
        match next {
            Some(n) => block_type(n, false) == BlockType::Normal,
            None => true,
        },
    ensures
        line_step(st, l, next) == (Reflow { blocks: st.blocks.push(l), ..st }),
{
    lemma_prose_line_trimmed(l);
    assert(!starts_with(l, fence())) by {
        if starts_with(l, fence()) {
            assert(l[0] == fence()[0]);
        }
    }
    assert(!continues_list(l, st.prev));
    assert(piece_type(l, st, false) == BlockType::Normal);
    assert(list_context(st, BlockType::Normal, false) == st);
    assert(line_text(l, BlockType::Normal, BlockType::Normal) == l);
    assert(next_type(next, false) == BlockType::Normal);
    let s5 = Reflow { current: st.current.push(l), ..st };
    assert(s5.current =~= seq![l]);
    assert(join(seq![l], seq!['\n']) == l);
    assert(flush(s5) == (Reflow { blocks: st.blocks.push(l), current: Seq::empty(), ..st }));
    assert(st.current =~= Seq::<Seq<char>>::empty());
    assert(written_type(BlockType::Normal, BlockType::Normal) == BlockType::Normal);
    assert(step(st, l, false, true, next) == (Reflow { blocks: st.blocks.push(l), ..st }));
}

/// Two lines of prose separated by a single newline come out as two blocks
/// with one blank line between them.
pub proof fn lemma_prose_lines_separated(a: Seq<char>, b: Seq<char>)
    requires
        prose_line(a),
        prose_line(b),
        !is_trailer(b),
    ensures
        normalized(a + seq!['\n'] + b, Seq::empty()) == a + seq!['\n', '\n'] + b,
{
    let md = a + seq!['\n'] + b;
    assert(white_space('\r'));
    lemma_two_lines(a, b);
    let lines = lines_of(md);
    lemma_empty_reference_keeps_head(md);
    assert(lines[1] == b);
    assert(trailer_before(lines, 0, 1) == 2);
    assert(content_end(md, Seq::empty()) == 2);
    let content = content_lines(md, Seq::empty());
    assert(content =~= seq![a, b]);
    let init = initial_reflow();
    lemma_prose_step(init, a, Some(b));
    let r1 = reflow_upto(content, 1);
    assert(reflow_upto(content, 0) == init);
    assert(r1 == line_step(init, a, Some(b)));
    lemma_prose_step(r1, b, None);
    let r2 = reflow_upto(content, 2);
    assert(r2 == line_step(r1, b, None));
    assert(r2.blocks =~= seq![a, b]);
    assert(flush(r2) == r2);
    let bl = seq![a, b];
    assert(bl.drop_last() =~= seq![a]);
    assert(join(seq![a], seq!['\n', '\n']) == a);
    assert(bl.last() == b);
    assert(join(bl, seq!['\n', '\n']) == a + seq!['\n', '\n'] + b);
}

} // verus!
