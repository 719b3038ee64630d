//! The site an item's address belongs to.
use vstd::prelude::*;
use crate::text::{chars_of, starts_with, starts_with_vec, string_of, sub_vec};

verus! {

/// `s` with every leading repetition of `p` removed (`str::trim_start_matches`).
pub open spec fn strip_prefixes(s: Seq<char>, p: Seq<char>) -> Seq<char>
    decreases s.len(),
{
    if p.len() > 0 && starts_with(s, p) {
        strip_prefixes(s.subrange(p.len() as int, s.len() as int), p)
    } else {
        s
    }
}

/// Length of the text before the first `/`.
pub open spec fn host_len(s: Seq<char>) -> nat
    decreases s.len(),
{
    if s.len() > 0 && s[0] != '/' {
        1 + host_len(s.subrange(1, s.len() as int))
    } else {
        0
    }
}

/// The host of `url`: without `http://`, `https://` and `www.` in front, up to
/// the first `/`.
pub open spec fn domain_of(url: Seq<char>) -> Seq<char> {
    let u = strip_prefixes(
        strip_prefixes(strip_prefixes(url, "http://"@), "https://"@),
        "www."@,
    );
    u.subrange(0, host_len(u) as int)
}

proof fn lemma_host_len_bound(s: Seq<char>)
    ensures
        host_len(s) <= s.len(),
    decreases s.len(),
{
    if s.len() > 0 && s[0] != '/' {
        lemma_host_len_bound(s.subrange(1, s.len() as int));
    }
}

fn strip_prefixes_vec(s: Vec<char>, p: &Vec<char>) -> (r: Vec<char>)
    ensures
        r@ == strip_prefixes(s@, p@),
{
    let mut cur = s;
    while p.len() > 0 && starts_with_vec(&cur, p)
        invariant
            strip_prefixes(cur@, p@) == strip_prefixes(s@, p@),
        decreases cur.len(),
    {
        cur = sub_vec(&cur, p.len(), cur.len());
    }
    cur
}

/// The host of `url`, as the domain filter groups items by it.
pub fn extract_domain(url: &str) -> (r: Option<String>)
    ensures
        r matches Some(d) && d@ == domain_of(url@),
{
    let u = chars_of(url);
    let u = strip_prefixes_vec(u, &chars_of("http://"));
    let u = strip_prefixes_vec(u, &chars_of("https://"));
    let u = strip_prefixes_vec(u, &chars_of("www."));
    let mut i: usize = 0;
    proof {
        lemma_host_len_bound(u@);
    }
    assert(u@.subrange(0, u.len() as int) =~= u@);
    while i < u.len() && u[i] != '/'
        invariant
            i <= u.len(),
            i + host_len(u@.subrange(i as int, u.len() as int)) == host_len(u@),
        decreases u.len() - i,
    {
        let ghost t = u@.subrange(i as int, u.len() as int);
        assert(t.subrange(1, t.len() as int) =~= u@.subrange(i + 1, u.len() as int));
        i = i + 1;
    }
    proof {
        let t = u@.subrange(i as int, u.len() as int);
        if i < u.len() {
            assert(t[0] == u@[i as int]);
        }
    }
    let host = sub_vec(&u, 0, i);
    Some(string_of(&host))
}

} // verus!
