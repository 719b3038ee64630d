//! Titles for PDF documents whose metadata names none.
use vstd::prelude::*;
use crate::boundary::{first_occurrence_from, words};
use crate::text::{
    append_chars, chars_of, is_white, join, occurs_at_vec, string_of, sub_vec, trim, trim_start,
    trim_start_vec, trim_vec, views, white_space,
};

verus! {

/// Text and title taken from a PDF file.
pub struct PDFData {
    pub title: Option<String>,
    pub text: String,
}

pub open spec fn blank_line() -> Seq<char> {
    seq!['\n', '\n']
}

/// A paragraph of 3 to 50 words can serve as a title.
pub open spec fn title_sized(p: Seq<char>) -> bool {
    3 <= words(p).len() <= 50
}

/// The first paragraph of `s` from `from` on (paragraphs are separated by
/// `"\n\n"`) that can serve as a title.
pub open spec fn title_paragraph_from(s: Seq<char>, from: int) -> Option<Seq<char>>
    decreases s.len() - from,
{
    let k = first_occurrence_from(s, blank_line(), from);
    if from < 0 || from > s.len() || k < from || k > s.len() {
        None
    } else if title_sized(s.subrange(from, k)) {
        Some(s.subrange(from, k))
    } else if k + 2 > s.len() {
        None
    } else {
        title_paragraph_from(s, k + 2)
    }
}

/// `p` with each newline turned into a space.
pub open spec fn one_line(p: Seq<char>) -> Seq<char> {
    p.map_values(|c: char| if c == '\n' { ' ' } else { c })
}

/// How many of `n` items the first `limit` are.
pub open spec fn first_count(n: nat, limit: nat) -> int {
    if limit < n {
        limit as int
    } else {
        n as int
    }
}

/// The title taken from the text of a document: its first paragraph of 3 to
/// 50 words on one line, trimmed; else its first ten words.
pub open spec fn text_title(text: Seq<char>) -> Seq<char> {
    match title_paragraph_from(trim_start(text), 0) {
        Some(p) => trim(one_line(p)),
        None => join(words(text).take(first_count(words(text).len(), 10)), seq![' ']),
    }
}

proof fn lemma_first_occurrence_at_least(s: Seq<char>, needle: Seq<char>, from: int)
    requires
        0 <= from <= s.len(),
    ensures
        from <= first_occurrence_from(s, needle, from) <= s.len(),
        first_occurrence_from(s, needle, from) < s.len() ==> crate::text::occurs_at(
            s,
            needle,
            first_occurrence_from(s, needle, from),
        ),
    decreases s.len() - from,
{
    if from < s.len() && !crate::text::occurs_at(s, needle, from) {
        lemma_first_occurrence_at_least(s, needle, from + 1);
    }
}

/// The words of `s` (`str::split_whitespace`).
pub fn words_vec(s: &Vec<char>) -> (r: Vec<Vec<char>>)
    ensures
        views(r@) == words(s@),
{
    let mut out: Vec<Vec<char>> = Vec::new();
    let mut cur: Vec<char> = Vec::new();
    let mut i: usize = 0;
    while i < s.len()
        invariant
            i <= s.len(),
            words(s@.subrange(0, i as int)) == views(out@) + if cur.len() > 0 {
                seq![cur@]
            } else {
                Seq::empty()
            },
            cur.len() > 0 <==> (i > 0 && !white_space(s@[i - 1])),
        decreases s.len() - i,
    {
        let ghost pre = s@.subrange(0, i as int);
        let ghost nxt = s@.subrange(0, i + 1);
        assert(nxt.drop_last() =~= pre);
        let ghost old_views = views(out@);
        let c = s[i];
        if is_white(c) {
            if cur.len() > 0 {
                out.push(cur);
                cur = Vec::new();
                assert(views(out@) =~= old_views.push(pre.subrange(0, 0) + views(out@).last()));
                assert(words(nxt) =~= views(out@));
            } else {
                assert(words(nxt) =~= views(out@) + Seq::empty());
            }
        } else {
            if cur.len() > 0 {
                let ghost old_cur = cur@;
                assert(pre.last() == s@[i - 1]);
                assert(nxt[nxt.len() - 2] == s@[i - 1]);
                cur.push(c);
                assert(words(pre) =~= old_views.push(old_cur));
                assert(words(nxt) =~= old_views + seq![cur@]);
            } else {
                cur.push(c);
                if i > 0 {
                    assert(nxt[nxt.len() - 2] == s@[i - 1]);
                }
                assert(words(pre) =~= views(out@));
                assert(cur@ =~= seq![c]);
                assert(words(nxt) =~= views(out@) + seq![cur@]);
            }
        }
        i = i + 1;
    }
    assert(s@.subrange(0, s.len() as int) =~= s@);
    if cur.len() > 0 {
        let ghost old_views = views(out@);
        out.push(cur);
        assert(views(out@) =~= words(s@));
    } else {
        assert(views(out@) =~= words(s@));
    }
    out
}

/// The first `limit` of `ws` joined with single spaces.
fn join_first(ws: &Vec<Vec<char>>, limit: usize) -> (r: Vec<char>)
    ensures
        r@ == join(views(ws@).take(first_count(ws.len() as nat, limit as nat)), seq![' ']),
{
    let n = if limit < ws.len() {
        limit
    } else {
        ws.len()
    };
    let ghost v = views(ws@);
    let mut out: Vec<char> = Vec::new();
    let mut i: usize = 0;
    while i < n
        invariant
            i <= n <= ws.len(),
            v == views(ws@),
            out@ == join(v.take(i as int), seq![' ']),
        decreases n - i,
    {
        let ghost pre = v.take(i as int);
        assert(v.take(i + 1).drop_last() =~= pre);
        if i > 0 {
            out.push(' ');
        }
        append_chars(&mut out, &ws[i]);
        if i == 0 {
            assert(out@ =~= join(v.take(1), seq![' ']));
        } else {
            assert(out@ =~= join(pre, seq![' ']) + seq![' '] + v[i as int]);
        }
        i = i + 1;
    }
    out
}

fn one_line_vec(p: &Vec<char>) -> (r: Vec<char>)
    ensures
        r@ == one_line(p@),
{
    let mut r: Vec<char> = Vec::new();
    let mut i: usize = 0;
    while i < p.len()
        invariant
            i <= p.len(),
            r@ == one_line(p@.subrange(0, i as int)),
        decreases p.len() - i,
    {
        if p[i] == '\n' {
            r.push(' ');
        } else {
            r.push(p[i]);
        }
        i = i + 1;
        assert(r@ =~= one_line(p@.subrange(0, i as int)));
    }
    assert(p@.subrange(0, p.len() as int) =~= p@);
    r
}

/// A title for a document from its text: the first paragraph of 3 to 50
/// words, on one line; else the first ten words.
pub fn extract_title(text: &str) -> (r: Option<String>)
    ensures
        r matches Some(t) && t@ == text_title(text@),
{
    let all = chars_of(text);
    let s = trim_start_vec(&all);
    let sep = chars_of("\n\n");
    proof {
        reveal_strlit("\n\n");
    }
    assert(sep@ =~= blank_line());
    let mut from: usize = 0;
    let mut found: Option<Vec<char>> = None;
    let mut done = false;
    while !done
        invariant
            from <= s.len(),
            sep@ == blank_line(),
            !done ==> title_paragraph_from(s@, from as int) == title_paragraph_from(s@, 0),
            done ==> match found {
                Some(p) => title_paragraph_from(s@, 0) == Some(p@),
                None => title_paragraph_from(s@, 0) is None,
            },
        decreases s.len() - from + if done {
            0int
        } else {
            1int
        },
    {
        let mut k: usize = from;
        while k < s.len() && !occurs_at_vec(&s, &sep, k)
            invariant
                from <= k <= s.len(),
                sep@ == blank_line(),
                first_occurrence_from(s@, blank_line(), k as int) == first_occurrence_from(
                    s@,
                    blank_line(),
                    from as int,
                ),
            decreases s.len() - k,
        {
            k = k + 1;
        }
        proof {
            lemma_first_occurrence_at_least(s@, blank_line(), from as int);
        }
        assert(k == first_occurrence_from(s@, blank_line(), from as int));
        let piece = sub_vec(&s, from, k);
        let pw = words_vec(&piece);
        let n = pw.len();
        assert(n == words(piece@).len());
        assert(title_sized(piece@) == (3 <= n && n <= 50));
        assert(piece@ == s@.subrange(from as int, k as int));
        if 3 <= n && n <= 50 {
            assert(title_paragraph_from(s@, from as int) == Some(piece@));
            found = Some(piece);
            done = true;
        } else if k >= s.len() || s.len() - k < 2 {
            assert(title_paragraph_from(s@, from as int) is None);
            found = None;
            done = true;
        } else {
            from = k + 2;
        }
    }
    let title = match found {
        Some(p) => {
            let line = one_line_vec(&p);
            trim_vec(&line)
        },
        None => {
            let ws = words_vec(&all);
            join_first(&ws, 10)
        },
    };
    Some(string_of(&title))
}

} // verus!
