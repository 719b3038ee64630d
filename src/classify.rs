//! Classification of a single line: list marker, nesting depth, block type.
use vstd::prelude::*;
use crate::text::{
    chars_of, lead_ws, leading_ws, lemma_lead_ws_bound, starts_with, sub_vec, trim_start, white_space,
    is_white, starts_with_vec, trim_start_vec,
};

verus! {

/// The lexical family of a list item's leading token.
#[derive(Clone, Copy, Debug, PartialEq, Eq, Structural)]
pub enum ListMarker {
    /// `1.`, `2.1`, `4.3.`
    Number,
    /// `a.`, `b.`
    Letter,
    /// `*` or `-`
    Bullet,
    /// Not a list item.
    Unmarked,
}

/// What a line is, for spacing and indentation.
#[derive(Clone, Copy, Debug, PartialEq, Eq, Structural)]
pub enum BlockType {
    Header,
    ListItem { depth: usize, marker: ListMarker },
    CodeBlockStart,
    CodeBlockEnd,
    Normal,
}

pub open spec fn is_digit(c: char) -> bool {
    '0' <= c && c <= '9'
}

pub open spec fn is_lower(c: char) -> bool {
    'a' <= c && c <= 'z'
}

/// Characters that end the numbering part of a token.
pub open spec fn is_terminator(c: char) -> bool {
    c == '`' || c == '[' || c == '<' || c == '\'' || c == '"' || c == '('
}

/// Length of the leading run of non-whitespace characters.
pub open spec fn word_len(s: Seq<char>) -> nat
    decreases s.len(),
{
    if s.len() > 0 && !white_space(s[0]) {
        1 + word_len(s.subrange(1, s.len() as int))
    } else {
        0
    }
}

/// Length of the leading run of characters that are not terminators.
pub open spec fn numbering_len(s: Seq<char>) -> nat
    decreases s.len(),
{
    if s.len() > 0 && !is_terminator(s[0]) {
        1 + numbering_len(s.subrange(1, s.len() as int))
    } else {
        0
    }
}

/// The first whitespace-delimited token of `line` (empty when there is none).
pub open spec fn first_token(line: Seq<char>) -> Seq<char> {
    let t = trim_start(line);
    t.subrange(0, word_len(t) as int)
}

/// The numbering part of the first token: up to its first terminator.
pub open spec fn numbering(line: Seq<char>) -> Seq<char> {
    let tok = first_token(line);
    tok.subrange(0, numbering_len(tok) as int)
}

/// Scan of a numbering: whether a digit was seen since the last counted dot,
/// and how many dots followed a digit.
pub open spec fn dot_scan(s: Seq<char>) -> (bool, nat)
    decreases s.len(),
{
    if s.len() == 0 {
        (false, 0)
    } else {
        let (found, dots) = dot_scan(s.drop_last());
        let c = s.last();
        if is_digit(c) {
            (true, dots)
        } else if c == '.' && found {
            (false, dots + 1)
        } else {
            (found, dots)
        }
    }
}

/// Nesting depth of a line: from composite numbering (`2.1` and `2.1.` are
/// one level deep) or, without dots, from its indentation in steps of four.
pub open spec fn list_depth(line: Seq<char>) -> nat {
    if trim_start(line).len() == 0 {
        0
    } else {
        let (found, dots) = dot_scan(numbering(line));
        if dots > 0 {
            if found {
                dots
            } else {
                (dots - 1) as nat
            }
        } else {
            lead_ws(line) / 4
        }
    }
}

/// The marker of the first token of `line`.
pub open spec fn list_marker(line: Seq<char>) -> ListMarker {
    let t = trim_start(line);
    if t.len() == 0 {
        ListMarker::Unmarked
    } else if is_digit(t[0]) {
        ListMarker::Number
    } else if is_lower(t[0]) {
        ListMarker::Letter
    } else if t[0] == '*' || t[0] == '-' {
        ListMarker::Bullet
    } else {
        ListMarker::Unmarked
    }
}

pub open spec fn fence() -> Seq<char> {
    seq!['`', '`', '`']
}

/// The block type of `line` on its own; `in_code` tells a fence that closes
/// from one that opens.
pub open spec fn block_type(line: Seq<char>, in_code: bool) -> BlockType {
    let t = trim_start(line);
    if t.len() == 0 {
        BlockType::Normal
    } else if t[0] == '#' {
        BlockType::Header
    } else if list_marker(t) != ListMarker::Unmarked {
        BlockType::ListItem { depth: list_depth(line) as usize, marker: list_marker(t) }
    } else if starts_with(t, fence()) {
        if in_code {
            BlockType::CodeBlockEnd
        } else {
            BlockType::CodeBlockStart
        }
    } else {
        BlockType::Normal
    }
}

/// `line` carries on the list item before it: it has no marker of its own and
/// is nested deeper, or as deep without starting a header.
pub open spec fn continues_list(line: Seq<char>, prev: BlockType) -> bool {
    match prev {
        BlockType::ListItem { depth, .. } => {
            let t = trim_start(line);
            let d = list_depth(line);
            list_marker(t) == ListMarker::Unmarked && (d > depth || (d == depth && !(t.len() > 0
                && t[0] == '#')))
        },
        _ => false,
    }
}

/// A blank line is owed before a block of type `ty` that follows `prev`.
pub open spec fn spacing_before(ty: BlockType, prev: BlockType) -> bool {
    match ty {
        BlockType::Header => true,
        BlockType::ListItem { .. } => !(prev is ListItem),
        BlockType::CodeBlockStart => true,
        _ => false,
    }
}

/// A blank line is owed after a block of type `ty` that `next` follows.
pub open spec fn spacing_after(ty: BlockType, next: BlockType) -> bool {
    match ty {
        BlockType::Header => true,
        BlockType::ListItem { .. } => !(next is ListItem),
        BlockType::CodeBlockEnd => true,
        BlockType::Normal => next is Header || next is ListItem || next is Normal,
        _ => false,
    }
}

pub proof fn lemma_word_len_bound(s: Seq<char>)
    ensures
        word_len(s) <= s.len(),
        forall|j: int| 0 <= j < word_len(s) ==> !white_space(#[trigger] s[j]),
    decreases s.len(),
{
    if s.len() > 0 && !white_space(s[0]) {
        let t = s.subrange(1, s.len() as int);
        lemma_word_len_bound(t);
        assert forall|j: int| 0 <= j < word_len(s) implies !white_space(#[trigger] s[j]) by {
            if j > 0 {
                assert(s[j] == t[j - 1]);
            }
        }
    }
}

proof fn lemma_numbering_len_bound(s: Seq<char>)
    ensures
        numbering_len(s) <= s.len(),
    decreases s.len(),
{
    if s.len() > 0 && !is_terminator(s[0]) {
        lemma_numbering_len_bound(s.subrange(1, s.len() as int));
    }
}

proof fn lemma_dot_scan_bound(s: Seq<char>)
    ensures
        2 * dot_scan(s).1 + (if dot_scan(s).0 {
            1int
        } else {
            0int
        }) <= s.len(),
    decreases s.len(),
{
    if s.len() > 0 {
        lemma_dot_scan_bound(s.drop_last());
    }
}

/// A depth is at most half the length of its line.
pub proof fn lemma_list_depth_bound(line: Seq<char>)
    ensures
        2 * list_depth(line) <= line.len(),
{
    lemma_lead_ws_bound(line);
    let t = trim_start(line);
    if t.len() > 0 {
        lemma_word_len_bound(t);
        let tok = first_token(line);
        lemma_numbering_len_bound(tok);
        lemma_dot_scan_bound(numbering(line));
    }
}

/// Length of the run of non-whitespace characters of `s` from `from`.
fn word_end(s: &Vec<char>, from: usize) -> (r: usize)
    requires
        from <= s.len(),
    ensures
        r == from + word_len(s@.subrange(from as int, s.len() as int)),
        r <= s.len(),
{
    let mut i: usize = from;
    proof {
        lemma_word_len_bound(s@.subrange(from as int, s.len() as int));
    }
    while i < s.len() && !is_white(s[i])
        invariant
            from <= i <= s.len(),
            i + word_len(s@.subrange(i as int, s.len() as int)) == from + word_len(
                s@.subrange(from as int, s.len() as int),
            ),
        decreases s.len() - i,
    {
        let ghost t = s@.subrange(i as int, s.len() as int);
        assert(t.subrange(1, t.len() as int) =~= s@.subrange(i + 1, s.len() as int));
        i = i + 1;
    }
    proof {
        let t = s@.subrange(i as int, s.len() as int);
        if i < s.len() {
            assert(t[0] == s@[i as int]);
        }
    }
    i
}

/// Length of the run of non-terminator characters of `s`.
fn numbering_end(s: &Vec<char>) -> (r: usize)
    ensures
        r == numbering_len(s@),
        r <= s.len(),
{
    let mut i: usize = 0;
    proof {
        lemma_numbering_len_bound(s@);
    }
    assert(s@.subrange(0, s.len() as int) =~= s@);
    while i < s.len() && !(s[i] == '`' || s[i] == '[' || s[i] == '<' || s[i] == '\''
        || s[i] == '"' || s[i] == '(')
        invariant
            i <= s.len(),
            i + numbering_len(s@.subrange(i as int, s.len() as int)) == numbering_len(s@),
        decreases s.len() - i,
    {
        let ghost t = s@.subrange(i as int, s.len() as int);
        assert(t.subrange(1, t.len() as int) =~= s@.subrange(i + 1, s.len() as int));
        i = i + 1;
    }
    proof {
        let t = s@.subrange(i as int, s.len() as int);
        if i < s.len() {
            assert(t[0] == s@[i as int]);
        }
    }
    i
}

/// The first token of `line`.
pub fn first_token_vec(line: &Vec<char>) -> (r: Vec<char>)
    ensures
        r@ == first_token(line@),
{
    let k = leading_ws(line);
    proof {
        lemma_lead_ws_bound(line@);
    }
    let e = word_end(line, k);
    let t = sub_vec(line, k, line.len());
    assert(t@.subrange(0, (e - k) as int) =~= line@.subrange(k as int, e as int));
    sub_vec(line, k, e)
}

/// The dot scan of a numbering.
fn dot_scan_vec(s: &Vec<char>) -> (r: (bool, usize))
    ensures
        r.0 == dot_scan(s@).0,
        r.1 == dot_scan(s@).1,
{
    let mut found = false;
    let mut dots: usize = 0;
    let mut i: usize = 0;
    while i < s.len()
        invariant
            i <= s.len(),
            (found, dots as nat) == dot_scan(s@.subrange(0, i as int)),
            dots <= i,
        decreases s.len() - i,
    {
        let ghost pre = s@.subrange(0, i as int);
        assert(s@.subrange(0, i + 1).drop_last() =~= pre);
        let c = s[i];
        if '0' <= c && c <= '9' {
            found = true;
        } else if c == '.' && found {
            dots = dots + 1;
            found = false;
        }
        i = i + 1;
    }
    assert(s@.subrange(0, s.len() as int) =~= s@);
    (found, dots)
}

/// Nesting depth of a line given as characters.
pub fn list_depth_vec(line: &Vec<char>) -> (r: usize)
    ensures
        r == list_depth(line@),
{
    let spaces = leading_ws(line);
    proof {
        lemma_lead_ws_bound(line@);
    }
    if spaces == line.len() {
        return 0;
    }
    let tok = first_token_vec(line);
    let n = numbering_end(&tok);
    let num = sub_vec(&tok, 0, n);
    let (found, dots) = dot_scan_vec(&num);
    if dots > 0 {
        if found {
            dots
        } else {
            dots - 1
        }
    } else {
        spaces / 4
    }
}

/// Nesting depth of a line: see [`list_depth`].
pub fn get_list_depth(line: &str) -> (r: usize)
    ensures
        r == list_depth(line@),
{
    let v = chars_of(line);
    list_depth_vec(&v)
}

/// The marker of the first token of `line`.
pub fn get_list_marker(line: &Vec<char>) -> (r: ListMarker)
    ensures
        r == list_marker(line@),
{
    let k = leading_ws(line);
    proof {
        lemma_lead_ws_bound(line@);
    }
    if k == line.len() {
        return ListMarker::Unmarked;
    }
    let c = line[k];
    assert(trim_start(line@)[0] == c);
    if '0' <= c && c <= '9' {
        ListMarker::Number
    } else if 'a' <= c && c <= 'z' {
        ListMarker::Letter
    } else if c == '*' || c == '-' {
        ListMarker::Bullet
    } else {
        ListMarker::Unmarked
    }
}


fn fence_vec() -> (r: Vec<char>)
    ensures
        r@ == fence(),
{
    let mut r: Vec<char> = Vec::new();
    r.push('`');
    r.push('`');
    r.push('`');
    assert(r@ =~= fence());
    r
}

/// Whether `line` opens or closes a fenced code block.
pub fn is_fence(line: &Vec<char>) -> (r: bool)
    ensures
        r == starts_with(line@, fence()),
{
    let f = fence_vec();
    starts_with_vec(line, &f)
}

/// The block type of `line` on its own.
pub fn get_block_type(line: &Vec<char>, in_code: bool) -> (r: BlockType)
    ensures
        r == block_type(line@, in_code),
{
    let t = trim_start_vec(line);
    if t.len() == 0 {
        return BlockType::Normal;
    }
    if t[0] == '#' {
        return BlockType::Header;
    }
    let marker = get_list_marker(&t);
    if marker != ListMarker::Unmarked {
        let depth = list_depth_vec(line);
        BlockType::ListItem { depth, marker }
    } else if is_fence(&t) {
        if in_code {
            BlockType::CodeBlockEnd
        } else {
            BlockType::CodeBlockStart
        }
    } else {
        BlockType::Normal
    }
}

/// Whether `line` carries on the list item of type `prev`.
pub fn is_list_continuation(line: &Vec<char>, prev: BlockType) -> (r: bool)
    ensures
        r == continues_list(line@, prev),
{
    match prev {
        BlockType::ListItem { depth, .. } => {
            let d = list_depth_vec(line);
            let t = trim_start_vec(line);
            if get_list_marker(&t) != ListMarker::Unmarked {
                return false;
            }
            d > depth || (d == depth && !(t.len() > 0 && t[0] == '#'))
        },
        _ => false,
    }
}

pub fn needs_spacing_before(ty: BlockType, prev: BlockType) -> (r: bool)
    ensures
        r == spacing_before(ty, prev),
{
    match ty {
        BlockType::Header => true,
        BlockType::ListItem { .. } => match prev {
            BlockType::ListItem { .. } => false,
            _ => true,
        },
        BlockType::CodeBlockStart => true,
        _ => false,
    }
}

pub fn needs_spacing_after(ty: BlockType, next: BlockType) -> (r: bool)
    ensures
        r == spacing_after(ty, next),
{
    match ty {
        BlockType::Header => true,
        BlockType::ListItem { .. } => match next {
            BlockType::ListItem { .. } => false,
            _ => true,
        },
        BlockType::CodeBlockEnd => true,
        BlockType::Normal => match next {
            BlockType::Header | BlockType::ListItem { .. } | BlockType::Normal => true,
            _ => false,
        },
        _ => false,
    }
}

} // verus!
