//! RSS feed items and the subscription list, kept as one URL per line.
use vstd::prelude::*;
use crate::text::{append_chars, chars_of, join, lines_of, lines_vec, string_of, trim, trim_vec, views};

verus! {

/// One entry of a fetched feed.
#[derive(Clone, Debug)]
pub struct RssFeedItem {
    pub title: String,
    pub link: String,
    pub source: String,
    pub description: Option<String>,
    pub pub_date: Option<String>,
    pub item_id: String,
}

/// Where the subscription list is kept.
pub struct RssManager {
    pub subscriptions_path: String,
}

impl RssManager {
    pub fn new() -> (r: RssManager)
        ensures
            r.subscriptions_path@ == "rss/subscriptions"@,
    {
        let path = chars_of("rss/subscriptions");
        RssManager { subscriptions_path: string_of(&path) }
    }
}

pub open spec fn string_views(v: Seq<String>) -> Seq<Seq<char>> {
    v.map_values(|s: String| s@)
}

/// The subscriptions among `lines`: each line trimmed, without blank lines
/// and `#` comments.
pub open spec fn subscription_lines(lines: Seq<Seq<char>>) -> Seq<Seq<char>>
    decreases lines.len(),
{
    if lines.len() == 0 {
        Seq::empty()
    } else {
        let rest = subscription_lines(lines.drop_last());
        let t = trim(lines.last());
        if t.len() > 0 && t[0] != '#' {
            rest.push(t)
        } else {
            rest
        }
    }
}

/// The subscriptions listed in the text of a subscription file.
pub fn parse_subscriptions(content: &str) -> (r: Vec<String>)
    ensures
        string_views(r@) == subscription_lines(lines_of(content@)),
{
    let text = chars_of(content);
    let lines = lines_vec(&text);
    let ghost ls = views(lines@);
    let mut out: Vec<String> = Vec::new();
    let mut i: usize = 0;
    while i < lines.len()
        invariant
            i <= lines.len(),
            ls == views(lines@),
            ls == lines_of(content@),
            string_views(out@) == subscription_lines(ls.subrange(0, i as int)),
        decreases lines.len() - i,
    {
        let ghost pre = ls.subrange(0, i as int);
        assert(ls.subrange(0, i + 1).drop_last() =~= pre);
        let t = trim_vec(&lines[i]);
        if t.len() > 0 && t[0] != '#' {
            let s = string_of(&t);
            out.push(s);
            assert(string_views(out@) =~= subscription_lines(ls.subrange(0, i + 1)));
        }
        i = i + 1;
    }
    assert(ls.subrange(0, lines.len() as int) =~= ls);
    out
}

fn join_lines(items: &Vec<String>) -> (r: String)
    ensures
        r@ == join(string_views(items@), seq!['\n']),
{
    let mut out: Vec<char> = Vec::new();
    let mut i: usize = 0;
    while i < items.len()
        invariant
            i <= items.len(),
            out@ == join(string_views(items@).subrange(0, i as int), seq!['\n']),
        decreases items.len() - i,
    {
        let ghost pre = string_views(items@).subrange(0, i as int);
        let ghost nxt = string_views(items@).subrange(0, i + 1);
        assert(nxt.drop_last() =~= pre);
        if i > 0 {
            out.push('\n');
        }
        let item = chars_of(items[i].as_str());
        append_chars(&mut out, &item);
        if i == 0 {
            assert(out@ =~= nxt[0]);
        } else {
            assert(out@ =~= join(pre, seq!['\n']) + seq!['\n'] + nxt.last());
        }
        i = i + 1;
    }
    assert(string_views(items@).subrange(0, items.len() as int) =~= string_views(items@));
    string_of(&out)
}

fn position_of(items: &Vec<String>, url: &str) -> (r: Option<usize>)
    ensures
        r is None ==> !string_views(items@).contains(url@),
        r matches Some(k) ==> k < items.len() && string_views(items@)[k as int] == url@ && forall|
            j: int,
        |
            0 <= j < k ==> string_views(items@)[j] != url@,
{
    let u = chars_of(url);
    let target = string_of(&u);
    let mut i: usize = 0;
    while i < items.len()
        invariant
            i <= items.len(),
            target@ == url@,
            forall|j: int| 0 <= j < i ==> string_views(items@)[j] != url@,
        decreases items.len() - i,
    {
        if items[i] == target {
            return Some(i);
        }
        i = i + 1;
    }
    proof {
        if string_views(items@).contains(url@) {
            let j = choose|j: int|
                0 <= j < string_views(items@).len() && string_views(items@)[j] == url@;
            assert(string_views(items@)[j] == url@);
        }
    }
    None
}

/// The index of the first of `items` equal to `x`, or their number.
pub open spec fn first_index(items: Seq<Seq<char>>, x: Seq<char>, from: int) -> int
    decreases items.len() - from,
{
    if from < 0 || from >= items.len() {
        items.len() as int
    } else if items[from] == x {
        from
    } else {
        first_index(items, x, from + 1)
    }
}

/// Copies of all of `items` but the one at `skip` (all of them when `skip`
/// is their number).
fn copy_except(items: &Vec<String>, skip: usize) -> (r: Vec<String>)
    requires
        skip <= items.len(),
    ensures
        string_views(r@) == string_views(items@).subrange(0, skip as int) + string_views(
            items@,
        ).subrange(if skip < items.len() { skip + 1 } else { skip as int }, items.len() as int),
{
    let ghost sv = string_views(items@);
    let mut r: Vec<String> = Vec::new();
    let mut i: usize = 0;
    while i < items.len()
        invariant
            i <= items.len(),
            skip <= items.len(),
            sv == string_views(items@),
            string_views(r@) == if i <= skip {
                sv.subrange(0, i as int)
            } else {
                sv.subrange(0, skip as int) + sv.subrange(skip + 1, i as int)
            },
        decreases items.len() - i,
    {
        let ghost old_r = string_views(r@);
        if i != skip {
            let c = chars_of(items[i].as_str());
            r.push(string_of(&c));
            assert(string_views(r@) =~= old_r.push(sv[i as int]));
        }
        i = i + 1;
        assert(string_views(r@) =~= if i <= skip {
            sv.subrange(0, i as int)
        } else {
            sv.subrange(0, skip as int) + sv.subrange(skip + 1, i as int)
        });
    }
    assert(string_views(r@) =~= sv.subrange(0, skip as int) + sv.subrange(
        if skip < items.len() { skip + 1 } else { skip as int },
        items.len() as int,
    ));
    r
}

/// The new text of the subscription file with `url` added at the end, or
/// `None` when it is already listed.
pub fn with_subscription(subscriptions: &Vec<String>, url: &str) -> (r: Option<String>)
    ensures
        string_views(subscriptions@).contains(url@) <==> r is None,
        r matches Some(s) ==> s@ == join(string_views(subscriptions@).push(url@), seq!['\n']),
{
    match position_of(subscriptions, url) {
        Some(_) => None,
        None => {
            let mut all = copy_except(subscriptions, subscriptions.len());
            assert(string_views(subscriptions@).subrange(0, subscriptions.len() as int)
                =~= string_views(subscriptions@));
            let u = chars_of(url);
            all.push(string_of(&u));
            assert(string_views(all@) =~= string_views(subscriptions@).push(url@));
            Some(join_lines(&all))
        },
    }
}

/// The new text of the subscription file without the first entry equal to
/// `url`, or `None` when it is not listed.
pub fn without_subscription(subscriptions: &Vec<String>, url: &str) -> (r: Option<String>)
    ensures
        string_views(subscriptions@).contains(url@) <==> r is Some,
        r matches Some(s) ==> s@ == join(
            string_views(subscriptions@).remove(first_index(string_views(subscriptions@), url@, 0)),
            seq!['\n'],
        ),
{
    match position_of(subscriptions, url) {
        None => None,
        Some(k) => {
            let ghost sv = string_views(subscriptions@);
            proof {
                lemma_first_index(sv, url@, 0, k as int);
                assert(sv[k as int] == url@);
            }
            let rest = copy_except(subscriptions, k);
            assert(string_views(rest@) =~= sv.remove(k as int));
            Some(join_lines(&rest))
        },
    }
}

proof fn lemma_first_index(items: Seq<Seq<char>>, x: Seq<char>, from: int, k: int)
    requires
        0 <= from <= k < items.len(),
        items[k] == x,
        forall|j: int| 0 <= j < k ==> items[j] != x,
    ensures
        first_index(items, x, from) == k,
    decreases k - from,
{
    if from < k {
        lemma_first_index(items, x, from + 1, k);
    }
}

} // verus!
