//! The reflow pass: spacing between blocks and indentation of nested lists.
use vstd::prelude::*;
use crate::boundary::{content_end, content_start, find_content_boundaries};
use crate::classify::{
    block_type, continues_list, fence, get_block_type, is_fence, is_list_continuation,
    lemma_list_depth_bound, needs_spacing_after, needs_spacing_before, spacing_after,
    spacing_before, BlockType, ListMarker,
};
use crate::header::{split_header, split_header_content};
use crate::text::{
    chars_of, join, lines_of, lines_vec, starts_with, string_of, trim_end, trim_end_vec,
    trim_start, trim_start_vec, views,
};

verus! {

/// The state threaded through the reflow of one document.
pub struct Reflow {
    pub in_code: bool,
    pub in_list: bool,
    pub prev: BlockType,
    /// Lines of the block being gathered.
    pub current: Seq<Seq<char>>,
    /// Blocks already complete.
    pub blocks: Seq<Seq<char>>,
}

pub open spec fn initial_reflow() -> Reflow {
    Reflow {
        in_code: false,
        in_list: false,
        prev: BlockType::Normal,
        current: Seq::empty(),
        blocks: Seq::empty(),
    }
}

/// Closes the block being gathered, if it holds a line.
pub open spec fn flush(st: Reflow) -> Reflow {
    if st.current.len() > 0 {
        Reflow { blocks: st.blocks.push(join(st.current, seq!['\n'])), current: Seq::empty(), ..st }
    } else {
        st
    }
}

/// `line` without its leading whitespace, after four spaces per level.
pub open spec fn indent(line: Seq<char>, depth: nat) -> Seq<char> {
    Seq::new(4 * depth, |k: int| ' ') + trim_start(line)
}

pub open spec fn list_item_text(line: Seq<char>, depth: nat) -> Seq<char> {
    if depth > 0 {
        indent(line, depth)
    } else {
        trim_start(line)
    }
}

/// Depth at which a list item is written, from the depth at which the list
/// item before it was written: one level in from a numbered item to a
/// lettered one, the same level from a lettered item to the next, one level
/// out from a lettered item to a numbered one; its own depth after another
/// list item, and the top level after anything else.
pub open spec fn effective_depth(depth: usize, marker: ListMarker, prev: BlockType) -> nat {
    match prev {
        BlockType::ListItem { depth: pd, marker: pm } => {
            if pm == ListMarker::Number && marker == ListMarker::Letter {
                (pd + 1) as nat
            } else if pm == ListMarker::Letter && marker == ListMarker::Letter {
                pd as nat
            } else if pm == ListMarker::Letter && marker == ListMarker::Number {
                if pd > 0 {
                    (pd - 1) as nat
                } else {
                    0
                }
            } else {
                depth as nat
            }
        },
        _ => 0,
    }
}

/// The text written for a line of type `ty` after a line of type `prev`.
pub open spec fn line_text(line: Seq<char>, ty: BlockType, prev: BlockType) -> Seq<char> {
    match ty {
        BlockType::ListItem { depth, marker } => list_item_text(
            line,
            effective_depth(depth, marker, prev),
        ),
        BlockType::Normal => match prev {
            BlockType::ListItem { depth, .. } => if continues_list(line, prev) {
                indent(line, (depth + 1) as nat)
            } else {
                line
            },
            _ => line,
        },
        _ => line,
    }
}

/// The type of the following raw line, classified on its own.
pub open spec fn next_type(next: Option<Seq<char>>, in_code: bool) -> BlockType {
    match next {
        Some(l) => block_type(l, in_code),
        None => BlockType::Normal,
    }
}

/// The type recorded for the next piece: a list item with the depth at which
/// it was written.
pub open spec fn written_type(ty: BlockType, prev: BlockType) -> BlockType {
    match ty {
        BlockType::ListItem { depth, marker } => BlockType::ListItem {
            depth: effective_depth(depth, marker, prev) as usize,
            marker,
        },
        _ => ty,
    }
}

/// The type a piece takes: its list item's, when it continues one.
pub open spec fn piece_type(piece: Seq<char>, st: Reflow, in_code: bool) -> BlockType {
    if continues_list(piece, st.prev) {
        st.prev
    } else {
        block_type(piece, in_code)
    }
}

/// Entering a list closes the block before it; leaving one closes the list.
pub open spec fn list_context(st: Reflow, ty: BlockType, cont: bool) -> Reflow {
    if ty is ListItem {
        if !st.in_list {
            flush(Reflow { in_list: true, ..st })
        } else {
            st
        }
    } else if !cont && st.in_list {
        flush(Reflow { in_list: false, ..st })
    } else {
        st
    }
}

/// Reflow of one piece of a line. `second` marks the header split off a line;
/// `last` the last piece of its line; `next` is the following line.
pub open spec fn step(
    st: Reflow,
    piece: Seq<char>,
    second: bool,
    last: bool,
    next: Option<Seq<char>>,
) -> Reflow {
    if piece.len() == 0 {
        st
    } else {
        let in_code = if starts_with(piece, fence()) {
            !st.in_code
        } else {
            st.in_code
        };
        let cont = continues_list(piece, st.prev);
        let ty = piece_type(piece, st, in_code);
        let s1 = Reflow { in_code, ..st };
        let s2 = list_context(s1, ty, cont);
        let s3 = if second && ty is Header {
            flush(s2)
        } else {
            s2
        };
        let s4 = if spacing_before(ty, st.prev) {
            flush(s3)
        } else {
            s3
        };
        let s5 = Reflow { current: s4.current.push(line_text(piece, ty, st.prev)), ..s4 };
        let nt = next_type(next, in_code);
        let s6 = if last && spacing_after(ty, nt) && !(nt is ListItem && s5.in_list) {
            flush(s5)
        } else {
            s5
        };
        Reflow { prev: written_type(ty, st.prev), ..s6 }
    }
}

/// Reflow of one line: trailing whitespace off, a glued header split off,
/// then each piece in turn.
pub open spec fn line_step(st: Reflow, line: Seq<char>, next: Option<Seq<char>>) -> Reflow {
    let parts = split_header(trim_end(line));
    if parts.len() == 2 {
        step(step(st, parts[0], false, false, next), parts[1], true, true, next)
    } else {
        step(st, parts[0], false, true, next)
    }
}

/// The state after the first `n` of `lines`.
pub open spec fn reflow_upto(lines: Seq<Seq<char>>, n: nat) -> Reflow
    decreases n,
{
    if n == 0 {
        initial_reflow()
    } else {
        let next = if n < lines.len() {
            Some(lines[n as int])
        } else {
            None
        };
        line_step(reflow_upto(lines, (n - 1) as nat), lines[n - 1], next)
    }
}

/// The lines of the article proper.
pub open spec fn content_lines(markdown: Seq<char>, plain: Seq<char>) -> Seq<Seq<char>> {
    lines_of(markdown).subrange(content_start(markdown, plain), content_end(markdown, plain))
}

/// The normalized text: the blocks of the reflowed article, separated by
/// blank lines.
pub open spec fn normalized(markdown: Seq<char>, plain: Seq<char>) -> Seq<char> {
    let lines = content_lines(markdown, plain);
    join(flush(reflow_upto(lines, lines.len())).blocks, seq!['\n', '\n'])
}


/// A recorded depth leaves room for the levels that may be added to it.
pub open spec fn depth_fits(t: BlockType) -> bool {
    match t {
        BlockType::ListItem { depth, marker } => if marker == ListMarker::Letter {
            depth <= usize::MAX / 2 + 1
        } else {
            depth <= usize::MAX / 2
        },
        _ => true,
    }
}

pub open spec fn opt_view(v: Option<&Vec<char>>) -> Option<Seq<char>> {
    match v {
        Some(l) => Some(l@),
        None => None,
    }
}

proof fn lemma_join_push(parts: Seq<Seq<char>>, sep: Seq<char>, x: Seq<char>)
    ensures
        join(parts.push(x), sep) == if parts.len() == 0 {
            x
        } else {
            join(parts, sep) + sep + x
        },
{
    assert(parts.push(x).drop_last() =~= parts);
    if parts.len() == 0 {
        assert(parts.push(x)[0] == x);
    }
}

fn copy_chars(line: &Vec<char>) -> (r: Vec<char>)
    ensures
        r@ == line@,
{
    let mut r: Vec<char> = Vec::new();
    crate::text::append_chars(&mut r, line);
    assert(r@ =~= line@);
    r
}

/// `line` without its leading whitespace, after four spaces per level.
pub fn indent_line(line: &Vec<char>, depth: usize) -> (r: Vec<char>)
    ensures
        r@ == indent(line@, depth as nat),
{
    let mut r: Vec<char> = Vec::new();
    let mut k: usize = 0;
    while k < depth
        invariant
            k <= depth,
            r@ == Seq::new(4 * k as nat, |j: int| ' '),
        decreases depth - k,
    {
        r.push(' ');
        r.push(' ');
        r.push(' ');
        r.push(' ');
        k = k + 1;
        assert(r@ =~= Seq::new(4 * k as nat, |j: int| ' '));
    }
    let t = trim_start_vec(line);
    crate::text::append_chars(&mut r, &t);
    r
}

/// A list item written at `depth`.
pub fn normalize_list_item(line: &Vec<char>, depth: usize) -> (r: Vec<char>)
    ensures
        r@ == list_item_text(line@, depth as nat),
{
    if depth > 0 {
        indent_line(line, depth)
    } else {
        trim_start_vec(line)
    }
}

/// Depth at which a list item is written after a line of type `prev`.
fn written_depth(depth: usize, marker: ListMarker, prev: BlockType) -> (r: usize)
    requires
        depth_fits(prev),
        depth <= usize::MAX / 2,
    ensures
        r == effective_depth(depth, marker, prev),
        depth_fits(BlockType::ListItem { depth: r, marker }),
{
    match prev {
        BlockType::ListItem { depth: pd, marker: pm } => {
            if pm == ListMarker::Number && marker == ListMarker::Letter {
                pd + 1
            } else if pm == ListMarker::Letter && marker == ListMarker::Letter {
                pd
            } else if pm == ListMarker::Letter && marker == ListMarker::Number {
                if pd > 0 {
                    pd - 1
                } else {
                    0
                }
            } else {
                depth
            }
        },
        _ => 0,
    }
}

/// The text written for `piece` of type `ty` after a line of type `prev`.
fn piece_text(piece: &Vec<char>, ty: BlockType, prev: BlockType) -> (r: Vec<char>)
    requires
        depth_fits(prev),
        match ty {
            BlockType::ListItem { depth, .. } => depth <= usize::MAX / 2,
            _ => true,
        },
    ensures
        r@ == line_text(piece@, ty, prev),
{
    match ty {
        BlockType::ListItem { depth, marker } => {
            let actual = written_depth(depth, marker, prev);
            normalize_list_item(piece, actual)
        },
        BlockType::Normal => match prev {
            BlockType::ListItem { depth, .. } => {
                if is_list_continuation(piece, prev) {
                    indent_line(piece, depth + 1)
                } else {
                    copy_chars(piece)
                }
            },
            _ => copy_chars(piece),
        },
        _ => copy_chars(piece),
    }
}

/// The reflow state as the pass holds it: the block being gathered and the
/// output so far, each already joined.
struct ReflowState {
    in_code: bool,
    in_list: bool,
    prev: BlockType,
    current: Vec<char>,
    has_current: bool,
    output: Vec<char>,
    has_output: bool,
}

impl ReflowState {
    spec fn holds(&self, st: Reflow) -> bool {
        &&& self.in_code == st.in_code
        &&& self.in_list == st.in_list
        &&& self.prev == st.prev
        &&& depth_fits(st.prev)
        &&& self.current@ == join(st.current, seq!['\n'])
        &&& self.has_current == (st.current.len() > 0)
        &&& self.output@ == join(st.blocks, seq!['\n', '\n'])
        &&& self.has_output == (st.blocks.len() > 0)
    }

    fn new() -> (r: ReflowState)
        ensures
            r.holds(initial_reflow()),
    {
        let r = ReflowState {
            in_code: false,
            in_list: false,
            prev: BlockType::Normal,
            current: Vec::new(),
            has_current: false,
            output: Vec::new(),
            has_output: false,
        };
        assert(r.current@ =~= join(Seq::empty(), seq!['\n']));
        assert(r.output@ =~= join(Seq::empty(), seq!['\n', '\n']));
        r
    }

    fn flush(&mut self, Ghost(st): Ghost<Reflow>)
        requires
            old(self).holds(st),
        ensures
            final(self).holds(flush(st)),
    {
        if self.has_current {
            proof {
                lemma_join_push(st.blocks, seq!['\n', '\n'], join(st.current, seq!['\n']));
            }
            if self.has_output {
                self.output.push('\n');
                self.output.push('\n');
            }
            crate::text::append_chars(&mut self.output, &self.current);
            self.current = Vec::new();
            self.has_current = false;
            self.has_output = true;
            assert(self.current@ =~= join(Seq::empty(), seq!['\n']));
            assert(self.output@ =~= join(flush(st).blocks, seq!['\n', '\n']));
        }
    }

    fn push_line(&mut self, text: Vec<char>, Ghost(st): Ghost<Reflow>)
        requires
            old(self).holds(st),
        ensures
            final(self).holds(Reflow { current: st.current.push(text@), ..st }),
    {
        proof {
            lemma_join_push(st.current, seq!['\n'], text@);
        }
        if self.has_current {
            self.current.push('\n');
        }
        crate::text::append_chars(&mut self.current, &text);
        self.has_current = true;
        assert(self.current@ =~= join(st.current.push(text@), seq!['\n']));
    }

    fn enter_or_leave_list(&mut self, ty: BlockType, cont: bool, Ghost(st): Ghost<Reflow>)
        requires
            old(self).holds(st),
        ensures
            final(self).holds(list_context(st, ty, cont)),
    {
        match ty {
            BlockType::ListItem { .. } => {
                if !self.in_list {
                    self.in_list = true;
                    self.flush(Ghost(Reflow { in_list: true, ..st }));
                }
            },
            _ => {
                if !cont && self.in_list {
                    self.in_list = false;
                    self.flush(Ghost(Reflow { in_list: false, ..st }));
                }
            },
        }
    }

    /// Reflows one piece of a line.
    fn process(
        &mut self,
        piece: &Vec<char>,
        second: bool,
        last: bool,
        next: Option<&Vec<char>>,
        Ghost(st): Ghost<Reflow>,
    )
        requires
            old(self).holds(st),
        ensures
            final(self).holds(step(st, piece@, second, last, opt_view(next))),
    {
        if piece.len() == 0 {
            return;
        }
        let prev = self.prev;
        if is_fence(piece) {
            self.in_code = !self.in_code;
        }
        let cont = is_list_continuation(piece, prev);
        let ty = if cont {
            prev
        } else {
            get_block_type(piece, self.in_code)
        };
        proof {
            lemma_list_depth_bound(piece@);
        }
        let ghost s1 = Reflow { in_code: self.in_code, ..st };
        self.enter_or_leave_list(ty, cont, Ghost(s1));
        let ghost s2 = list_context(s1, ty, cont);
        assert(self.holds(s2));
        let is_header = match ty {
            BlockType::Header => true,
            _ => false,
        };
        if second && is_header {
            self.flush(Ghost(s2));
        }
        let ghost s3 = if second && ty is Header {
            flush(s2)
        } else {
            s2
        };
        if needs_spacing_before(ty, prev) {
            self.flush(Ghost(s3));
        }
        let ghost s4 = if spacing_before(ty, st.prev) {
            flush(s3)
        } else {
            s3
        };
        let text = piece_text(piece, ty, prev);
        assert(text@ == line_text(piece@, ty, st.prev));
        self.push_line(text, Ghost(s4));
        let ghost s5 = Reflow { current: s4.current.push(line_text(piece@, ty, st.prev)), ..s4 };
        let nt = match next {
            Some(l) => get_block_type(l, self.in_code),
            None => BlockType::Normal,
        };
        assert(nt == next_type(opt_view(next), s1.in_code));
        let nt_list = match nt {
            BlockType::ListItem { .. } => true,
            _ => false,
        };
        if last && needs_spacing_after(ty, nt) && !(nt_list && self.in_list) {
            self.flush(Ghost(s5));
        }
        self.prev = match ty {
            BlockType::ListItem { depth, marker } => BlockType::ListItem {
                depth: written_depth(depth, marker, prev),
                marker,
            },
            _ => ty,
        };
    }
}

/// Trims `markdown` to the article that `plain` (a plain-text extraction of
/// the same page) begins, restores blank lines between blocks and re-indents
/// nested lists.
pub fn normalize_markdown(markdown: &str, plain: &str) -> (r: String)
    ensures
        r@ == normalized(markdown@, plain@),
{
    let md = chars_of(markdown);
    let pl = chars_of(plain);
    let lines = lines_vec(&md);
    let (start, end) = find_content_boundaries(&md, &pl);
    let ghost content = views(lines@).subrange(start as int, end as int);
    assert(content == content_lines(markdown@, plain@));
    let mut st = ReflowState::new();
    let mut i: usize = start;
    while i < end
        invariant
            start <= i <= end <= lines.len(),
            content == views(lines@).subrange(start as int, end as int),
            st.holds(reflow_upto(content, (i - start) as nat)),
        decreases end - i,
    {
        let next: Option<&Vec<char>> = if i + 1 < end {
            Some(&lines[i + 1])
        } else {
            None
        };
        let ghost n = (i - start + 1) as nat;
        assert(opt_view(next) == if n < content.len() {
            Some(content[n as int])
        } else {
            None
        });
        assert(content[n - 1] == lines@[i as int]@);
        let ghost before = reflow_upto(content, (i - start) as nat);
        let trimmed = trim_end_vec(&lines[i]);
        let parts = split_header_content(&trimmed);
        assert(parts@[0]@ == split_header(trimmed@)[0]);
        if parts.len() == 2 {
            assert(parts@[1]@ == split_header(trimmed@)[1]);
            st.process(&parts[0], false, false, next, Ghost(before));
            st.process(
                &parts[1],
                true,
                true,
                next,
                Ghost(step(before, parts@[0]@, false, false, opt_view(next))),
            );
        } else {
            st.process(&parts[0], false, true, next, Ghost(before));
        }
        i = i + 1;
    }
    st.flush(Ghost(reflow_upto(content, content.len())));
    string_of(&st.output)
}

} // verus!
