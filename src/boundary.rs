//! Locating the article inside converted markdown, by the first paragraph of
//! a plain-text extraction of the same page and by known trailer lines.
use vstd::prelude::*;
use crate::text::{
    alphanumeric, append_chars, chars_of, contains, contains_vec, is_alnum, is_white, join, lines_of,
    lines_vec, occurs_at, occurs_at_vec, starts_with, starts_with_vec, sub_vec, trim, trim_vec,
    views, white_space,
};

verus! {

/// The characters of `s` that are alphanumeric or whitespace.
pub open spec fn comparable_chars(s: Seq<char>) -> Seq<char>
    decreases s.len(),
{
    if s.len() == 0 {
        Seq::empty()
    } else {
        let k = comparable_chars(s.drop_last());
        if white_space(s.last()) || alphanumeric(s.last()) {
            k.push(s.last())
        } else {
            k
        }
    }
}

/// The maximal runs of non-whitespace characters (`str::split_whitespace`).
pub open spec fn words(s: Seq<char>) -> Seq<Seq<char>>
    decreases s.len(),
{
    if s.len() == 0 {
        Seq::empty()
    } else if white_space(s.last()) {
        words(s.drop_last())
    } else if s.len() >= 2 && !white_space(s[s.len() - 2]) {
        let w = words(s.drop_last());
        w.update(w.len() - 1, w.last().push(s.last()))
    } else {
        words(s.drop_last()).push(seq![s.last()])
    }
}

/// `s` reduced to its words of letters and digits, single-spaced.
pub open spec fn comparable(s: Seq<char>) -> Seq<char> {
    join(words(comparable_chars(s)), seq![' '])
}

proof fn lemma_words_nonempty(s: Seq<char>)
    requires
        s.len() > 0,
        !white_space(s.last()),
    ensures
        words(s).len() > 0,
    decreases s.len(),
{
    if s.len() >= 2 && !white_space(s[s.len() - 2]) {
        lemma_words_nonempty(s.drop_last());
    }
}

proof fn lemma_join_extend_last(w: Seq<Seq<char>>, sep: Seq<char>, c: char)
    requires
        w.len() > 0,
    ensures
        join(w.update(w.len() - 1, w.last().push(c)), sep) == join(w, sep).push(c),
{
    let u = w.update(w.len() - 1, w.last().push(c));
    if w.len() >= 2 {
        assert(u.drop_last() =~= w.drop_last());
        assert(join(u, sep) =~= join(w, sep).push(c));
    }
}

/// Keeps letters, digits and whitespace, then joins the words with single
/// spaces.
pub fn normalize_for_comparison(text: &Vec<char>) -> (r: Vec<char>)
    ensures
        r@ == comparable(text@),
{
    let mut out: Vec<char> = Vec::new();
    let mut last_white = false;
    let mut any = false;
    let mut i: usize = 0;
    while i < text.len()
        invariant
            i <= text.len(),
            out@ == join(words(comparable_chars(text@.subrange(0, i as int))), seq![' ']),
            any == (comparable_chars(text@.subrange(0, i as int)).len() > 0),
            any ==> last_white == white_space(comparable_chars(text@.subrange(0, i as int)).last()),
            (out@.len() > 0) == (words(comparable_chars(text@.subrange(0, i as int))).len() > 0),
        decreases text.len() - i,
    {
        let ghost pre = text@.subrange(0, i as int);
        let ghost f = comparable_chars(pre);
        let ghost w = words(f);
        assert(text@.subrange(0, i + 1).drop_last() =~= pre);
        let c = text[i];
        let white = is_white(c);
        if white || is_alnum(c) {
            let ghost g = f.push(c);
            assert(g.drop_last() =~= f);
            if white {
                last_white = true;
            } else {
                if any && !last_white {
                    proof {
                        lemma_words_nonempty(f);
                        lemma_join_extend_last(w, seq![' '], c);
                        assert(g[g.len() - 2] == f.last());
                    }
                    out.push(c);
                } else {
                    if out.len() > 0 {
                        out.push(' ');
                    }
                    out.push(c);
                    proof {
                        let w2 = w.push(seq![c]);
                        assert(w2.drop_last() =~= w);
                        if w.len() == 0 {
                            assert(out@ =~= seq![c]);
                        } else {
                            assert(out@ =~= join(w, seq![' ']) + seq![' '] + seq![c]);
                        }
                    }
                }
                last_white = false;
            }
            any = true;
        }
        i = i + 1;
    }
    assert(text@.subrange(0, text.len() as int) =~= text@);
    out
}


/// Index of the first occurrence of `needle` in `s` at or after `from`, or the
/// length of `s`.
pub open spec fn first_occurrence_from(s: Seq<char>, needle: Seq<char>, from: int) -> int
    decreases s.len() - from,
{
    if from < 0 || from >= s.len() {
        s.len() as int
    } else if occurs_at(s, needle, from) {
        from
    } else {
        first_occurrence_from(s, needle, from + 1)
    }
}

/// The text before the first blank line (`split("\n\n").next()`), trimmed.
pub open spec fn first_paragraph(plain: Seq<char>) -> Seq<char> {
    trim(plain.subrange(0, first_occurrence_from(plain, "\n\n"@, 0)))
}

/// Three lines from `i`, joined with spaces.
pub open spec fn window_text(lines: Seq<Seq<char>>, i: int) -> Seq<char> {
    join(lines.subrange(i, i + 3), seq![' '])
}

/// The first window at or after `i` whose comparable text holds `key`, or 0.
pub open spec fn first_window_from(lines: Seq<Seq<char>>, key: Seq<char>, i: int) -> int
    decreases lines.len() - i,
{
    if i < 0 || i + 3 > lines.len() {
        0
    } else if contains(comparable(window_text(lines, i)), key) {
        i
    } else {
        first_window_from(lines, key, i + 1)
    }
}

/// The first line of the article proper.
pub open spec fn content_start(markdown: Seq<char>, plain: Seq<char>) -> int {
    first_window_from(lines_of(markdown), comparable(first_paragraph(plain)), 0)
}

/// A line that begins what follows an article: related posts, comments, a
/// table of contents, or a second-level header other than a summary.
pub open spec fn is_trailer(line: Seq<char>) -> bool {
    contains(line, "## Related posts"@) || contains(line, "Blog Comments"@) || contains(
        line,
        "Contents"@,
    ) || (starts_with(line, "##"@) && !contains(line, "Summary"@))
}

/// The last trailer line before index `k` and after `start`, or the number of
/// lines.
pub open spec fn trailer_before(lines: Seq<Seq<char>>, start: int, k: int) -> int
    decreases k - start,
{
    if k <= start + 1 {
        lines.len() as int
    } else if is_trailer(lines[k - 1]) {
        k - 1
    } else {
        trailer_before(lines, start, k - 1)
    }
}

/// The end (exclusive) of the article proper.
pub open spec fn content_end(markdown: Seq<char>, plain: Seq<char>) -> int {
    let lines = lines_of(markdown);
    trailer_before(lines, content_start(markdown, plain), lines.len() as int)
}

/// The first paragraph of `plain`.
pub fn first_paragraph_vec(plain: &Vec<char>) -> (r: Vec<char>)
    ensures
        r@ == first_paragraph(plain@),
{
    let sep = chars_of("\n\n");
    let mut i: usize = 0;
    while i < plain.len() && !occurs_at_vec(plain, &sep, i)
        invariant
            i <= plain.len(),
            sep@ == "\n\n"@,
            first_occurrence_from(plain@, sep@, i as int) == first_occurrence_from(
                plain@,
                sep@,
                0,
            ),
        decreases plain.len() - i,
    {
        i = i + 1;
    }
    let head = sub_vec(plain, 0, i);
    trim_vec(&head)
}

fn window_text_vec(lines: &Vec<Vec<char>>, i: usize) -> (r: Vec<char>)
    requires
        i + 3 <= lines.len(),
    ensures
        r@ == window_text(views(lines@), i as int),
{
    let ghost w = views(lines@).subrange(i as int, i + 3);
    let mut r: Vec<char> = Vec::new();
    append_chars(&mut r, &lines[i]);
    r.push(' ');
    append_chars(&mut r, &lines[i + 1]);
    r.push(' ');
    append_chars(&mut r, &lines[i + 2]);
    let ghost sep = seq![' '];
    proof {
        let w2 = w.drop_last();
        assert(w2.drop_last() =~= seq![w[0]]);
        assert(join(w2, sep) == join(w2.drop_last(), sep) + sep + w2.last());
        assert(join(w, sep) == join(w2, sep) + sep + w.last());
        assert(w[0] == lines@[i as int]@);
        assert(w[1] == lines@[i + 1]@);
        assert(w[2] == lines@[i + 2]@);
    }
    assert(r@ =~= window_text(views(lines@), i as int));
    r
}

/// Whether `line` begins the trailer of an article.
pub fn is_trailer_line(line: &Vec<char>) -> (r: bool)
    ensures
        r == is_trailer(line@),
{
    let related = chars_of("## Related posts");
    let comments = chars_of("Blog Comments");
    let contents = chars_of("Contents");
    let second_level = chars_of("##");
    let summary = chars_of("Summary");
    contains_vec(line, &related) || contains_vec(line, &comments) || contains_vec(line, &contents)
        || (starts_with_vec(line, &second_level) && !contains_vec(line, &summary))
}

/// The line range `[start, end)` of the article proper within the lines of
/// `markdown`.
pub fn find_content_boundaries(markdown: &Vec<char>, plain: &Vec<char>) -> (r: (usize, usize))
    ensures
        r.0 == content_start(markdown@, plain@),
        r.1 == content_end(markdown@, plain@),
        r.0 <= r.1 <= lines_of(markdown@).len(),
{
    let lines = lines_vec(markdown);
    let ghost ls = views(lines@);
    let para = first_paragraph_vec(plain);
    let key = normalize_for_comparison(&para);
    let mut start: usize = 0;
    let mut found = false;
    let mut i: usize = 0;
    while !found && i <= lines.len() && lines.len() - i >= 3
        invariant
            ls == views(lines@),
            ls == lines_of(markdown@),
            key@ == comparable(first_paragraph(plain@)),
            i <= lines.len(),
            found ==> start == content_start(markdown@, plain@) && start + 3 <= lines.len(),
            !found ==> start == 0 && first_window_from(ls, key@, i as int) == content_start(
                markdown@,
                plain@,
            ),
        decreases lines.len() - i + if found {
            0int
        } else {
            1int
        },
    {
        let window = window_text_vec(&lines, i);
        let norm = normalize_for_comparison(&window);
        if contains_vec(&norm, &key) {
            start = i;
            found = true;
        } else {
            i = i + 1;
        }
    }
    assert(start == content_start(markdown@, plain@));
    let mut k: usize = lines.len();
    while k > start + 1 && !is_trailer_line(&lines[k - 1])
        invariant
            ls == views(lines@),
            start == content_start(markdown@, plain@),
            start < lines.len() || start == 0,
            k <= lines.len(),
            trailer_before(ls, start as int, k as int) == content_end(markdown@, plain@),
        decreases k,
    {
        k = k - 1;
    }
    if k > start + 1 {
        (start, k - 1)
    } else {
        (start, lines.len())
    }
}

} // verus!
