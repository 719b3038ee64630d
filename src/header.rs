//! Repair of lines where a header was glued onto the prose before it.
use vstd::prelude::*;
use crate::text::{is_white, sub_vec, trim, trim_vec, views, white_space};

verus! {

/// Number of occurrences of `c` among the first `n` characters of `s`.
pub open spec fn count_upto(s: Seq<char>, c: char, n: nat) -> nat
    decreases n,
{
    if n == 0 {
        0
    } else {
        count_upto(s, c, (n - 1) as nat) + if s[n - 1] == c {
            1nat
        } else {
            0nat
        }
    }
}

/// Opened minus closed angle brackets among the first `n` characters.
pub open spec fn angle_depth(s: Seq<char>, n: nat) -> int
    decreases n,
{
    if n == 0 {
        0
    } else {
        let d = angle_depth(s, (n - 1) as nat);
        if s[n - 1] == '<' {
            d + 1
        } else if s[n - 1] == '>' {
            d - 1
        } else {
            d
        }
    }
}

/// Square-bracket and parenthesis depth after the first `n` characters of `s`;
/// parentheses count only outside brackets, so a link target `[text](url)`
/// is open from its `(` to its `)`.
pub open spec fn link_depth(s: Seq<char>, n: nat) -> (int, int)
    decreases n,
{
    if n == 0 {
        (0, 0)
    } else {
        let (b, p) = link_depth(s, (n - 1) as nat);
        let i = n - 1;
        let c = s[i];
        if c == '[' {
            (b + 1, p)
        } else if c == ']' {
            (b - 1, p)
        } else if c == '(' {
            if b == 0 {
                (b, p + 1)
            } else {
                (b, p)
            }
        } else if c == ')' {
            if b == 0 {
                (b, p - 1)
            } else {
                (b, p)
            }
        } else {
            (b, p)
        }
    }
}

/// Position `pos` of `text` lies inside inline code, an HTML tag or a
/// markdown link, judged from the characters before it.
pub open spec fn protected(text: Seq<char>, pos: int) -> bool {
    let before = text.subrange(0, pos);
    let n = before.len();
    count_upto(before, '`', n) % 2 != 0 || angle_depth(before, n) > 0 || link_depth(before, n).0
        > 0 || link_depth(before, n).1 > 0
}

/// Length of the leading run of `#` characters.
pub open spec fn hash_run(s: Seq<char>) -> nat
    decreases s.len(),
{
    if s.len() > 0 && s[0] == '#' {
        1 + hash_run(s.subrange(1, s.len() as int))
    } else {
        0
    }
}

/// A header starts at `p`: an unprotected run of `#` followed by whitespace
/// or by the end of the line.
pub open spec fn is_split_point(line: Seq<char>, p: int) -> bool {
    let after = p + hash_run(line.subrange(p, line.len() as int));
    0 <= p < line.len() && line[p] == '#' && !protected(line, p) && (after == line.len()
        || white_space(line[after]))
}

/// The first split point at or after `from`, or the length of the line.
pub open spec fn first_split_from(line: Seq<char>, from: int) -> int
    decreases line.len() - from,
{
    if from < 0 || from >= line.len() {
        line.len() as int
    } else if is_split_point(line, from) {
        from
    } else {
        first_split_from(line, from + 1)
    }
}

/// The pieces of `line`: the prose before its first header and the header,
/// each trimmed, or the trimmed line alone.
pub open spec fn split_header(line: Seq<char>) -> Seq<Seq<char>> {
    let p = first_split_from(line, 0);
    if p < line.len() && trim(line.subrange(0, p)).len() > 0 {
        seq![trim(line.subrange(0, p)), trim(line.subrange(p, line.len() as int))]
    } else {
        seq![trim(line)]
    }
}

proof fn lemma_hash_run_bound(s: Seq<char>)
    ensures
        hash_run(s) <= s.len(),
    decreases s.len(),
{
    if s.len() > 0 && s[0] == '#' {
        lemma_hash_run_bound(s.subrange(1, s.len() as int));
    }
}

/// Whether position `pos` of `text` is inside inline code, a tag or a link.
pub fn is_in_code_or_link(text: &Vec<char>, pos: usize) -> (r: bool)
    requires
        pos <= text.len(),
    ensures
        r == protected(text@, pos as int),
{
    let ghost before = text@.subrange(0, pos as int);
    let mut ticks: usize = 0;
    let mut opens: usize = 0;
    let mut closes: usize = 0;
    let mut b_up: usize = 0;
    let mut b_down: usize = 0;
    let mut p_up: usize = 0;
    let mut p_down: usize = 0;
    let mut i: usize = 0;
    while i < pos
        invariant
            pos <= text.len(),
            before == text@.subrange(0, pos as int),
            i <= pos,
            ticks == count_upto(before, '`', i as nat),
            ticks <= i,
            opens <= i,
            closes <= i,
            b_up <= i,
            b_down <= i,
            p_up <= i,
            p_down <= i,
            opens - closes == angle_depth(before, i as nat),
            b_up - b_down == link_depth(before, i as nat).0,
            p_up - p_down == link_depth(before, i as nat).1,
        decreases pos - i,
    {
        let c = text[i];
        assert(before[i as int] == c);
        if c == '`' {
            ticks = ticks + 1;
        }
        if c == '<' {
            opens = opens + 1;
        } else if c == '>' {
            closes = closes + 1;
        }
        if c == '[' {
            b_up = b_up + 1;
        } else if c == ']' {
            b_down = b_down + 1;
        } else if c == '(' {
            if b_up == b_down {
                p_up = p_up + 1;
            }
        } else if c == ')' {
            if b_up == b_down {
                p_down = p_down + 1;
            }
        }
        i = i + 1;
    }
    ticks % 2 != 0 || opens > closes || b_up > b_down || p_up > p_down
}

/// Index just past the run of `#` characters that starts at `p`.
fn hash_run_end(line: &Vec<char>, p: usize) -> (r: usize)
    requires
        p <= line.len(),
    ensures
        r == p + hash_run(line@.subrange(p as int, line.len() as int)),
        r <= line.len(),
{
    let mut i: usize = p;
    proof {
        lemma_hash_run_bound(line@.subrange(p as int, line.len() as int));
    }
    while i < line.len() && line[i] == '#'
        invariant
            p <= i <= line.len(),
            i + hash_run(line@.subrange(i as int, line.len() as int)) == p + hash_run(
                line@.subrange(p as int, line.len() as int),
            ),
        decreases line.len() - i,
    {
        let ghost t = line@.subrange(i as int, line.len() as int);
        assert(t.subrange(1, t.len() as int) =~= line@.subrange(i + 1, line.len() as int));
        i = i + 1;
    }
    proof {
        let t = line@.subrange(i as int, line.len() as int);
        if i < line.len() {
            assert(t[0] == line@[i as int]);
        }
    }
    i
}

/// The first split point of `line`, or its length.
fn find_split(line: &Vec<char>) -> (r: usize)
    ensures
        r == first_split_from(line@, 0),
{
    let mut pos: usize = 0;
    while pos < line.len()
        invariant
            pos <= line.len(),
            first_split_from(line@, pos as int) == first_split_from(line@, 0),
        decreases line.len() - pos,
    {
        if line[pos] == '#' && !is_in_code_or_link(line, pos) {
            let after = hash_run_end(line, pos);
            if after == line.len() || is_white(line[after]) {
                return pos;
            }
        }
        pos = pos + 1;
    }
    pos
}

/// Splits `line` into the prose before its first header and the header.
pub fn split_header_content(line: &Vec<char>) -> (r: Vec<Vec<char>>)
    ensures
        views(r@) == split_header(line@),
        1 <= r.len() <= 2,
{
    let p = find_split(line);
    let mut r: Vec<Vec<char>> = Vec::new();
    if p < line.len() {
        let head = sub_vec(line, 0, p);
        let head = trim_vec(&head);
        if head.len() > 0 {
            let tail = sub_vec(line, p, line.len());
            let tail = trim_vec(&tail);
            r.push(head);
            r.push(tail);
            assert(views(r@) =~= split_header(line@));
            return r;
        }
    }
    r.push(trim_vec(line));
    assert(views(r@) =~= split_header(line@));
    r
}

} // verus!
