//! Reading statistics: items added and read per kind, over a day, a week and
//! a month, and their rendering as bars.
use vstd::prelude::*;
use crate::text::{append_chars, chars_of, contains, contains_vec, string_of};

verus! {

/// Counts of items added and read, by kind.
pub struct Stats {
    pub articles_added: usize,
    pub articles_read: usize,
    pub pdfs_added: usize,
    pub pdfs_read: usize,
    pub videos_added: usize,
    pub videos_read: usize,
}

/// Statistics over the current day, week and month.
pub struct TotalStats {
    pub today_stats: Stats,
    pub week_stats: Stats,
    pub month_stats: Stats,
}

pub open spec fn is_item_type(t: Seq<char>) -> bool {
    t == "pdf"@ || t == "video"@ || t == "article"@
}

/// The type of the item at `url`: a video on YouTube, a PDF when the address
/// mentions one, an article otherwise.
pub open spec fn item_type_spec(url: Seq<char>) -> Seq<char> {
    if contains(url, "youtube.com"@) {
        "video"@
    } else if contains(url, "pdf"@) {
        "pdf"@
    } else {
        "article"@
    }
}

/// The type of the item at `url`.
pub fn item_type_of(url: &str) -> (r: &'static str)
    ensures
        r@ == item_type_spec(url@),
        is_item_type(r@),
{
    let u = chars_of(url);
    let youtube = chars_of("youtube.com");
    let pdf = chars_of("pdf");
    if contains_vec(&u, &youtube) {
        "video"
    } else if contains_vec(&u, &pdf) {
        "pdf"
    } else {
        "article"
    }
}

/// Room for one more count of every kind.
pub open spec fn has_room(s: Stats) -> bool {
    &&& s.articles_added < usize::MAX
    &&& s.articles_read < usize::MAX
    &&& s.pdfs_added < usize::MAX
    &&& s.pdfs_read < usize::MAX
    &&& s.videos_added < usize::MAX
    &&& s.videos_read < usize::MAX
}

pub open spec fn is_zero(s: Stats) -> bool {
    &&& s.articles_added == 0
    &&& s.articles_read == 0
    &&& s.pdfs_added == 0
    &&& s.pdfs_read == 0
    &&& s.videos_added == 0
    &&& s.videos_read == 0
}

/// `s` with one more item of type `t`, added or read.
pub open spec fn counted(s: Stats, t: Seq<char>, is_read: bool) -> Stats {
    if t == "pdf"@ {
        if is_read {
            Stats { pdfs_read: (s.pdfs_read + 1) as usize, ..s }
        } else {
            Stats { pdfs_added: (s.pdfs_added + 1) as usize, ..s }
        }
    } else if t == "video"@ {
        if is_read {
            Stats { videos_read: (s.videos_read + 1) as usize, ..s }
        } else {
            Stats { videos_added: (s.videos_added + 1) as usize, ..s }
        }
    } else {
        if is_read {
            Stats { articles_read: (s.articles_read + 1) as usize, ..s }
        } else {
            Stats { articles_added: (s.articles_added + 1) as usize, ..s }
        }
    }
}

fn same_chars(a: &Vec<char>, b: &Vec<char>) -> (r: bool)
    ensures
        r == (a@ == b@),
{
    if a.len() != b.len() {
        return false;
    }
    let mut i: usize = 0;
    while i < a.len()
        invariant
            a.len() == b.len(),
            i <= a.len(),
            forall|j: int| 0 <= j < i ==> a@[j] == b@[j],
        decreases a.len() - i,
    {
        if a[i] != b[i] {
            return false;
        }
        i = i + 1;
    }
    assert(a@ =~= b@);
    true
}

impl Stats {
    pub fn new() -> (r: Stats)
        ensures
            is_zero(r),
    {
        Stats {
            articles_added: 0,
            articles_read: 0,
            pdfs_added: 0,
            pdfs_read: 0,
            videos_added: 0,
            videos_read: 0,
        }
    }

    /// Counts one item of type `item_type` ("pdf", "video" or "article").
    pub fn increment(&mut self, item_type: &str, is_read: bool)
        requires
            is_item_type(item_type@),
            has_room(*old(self)),
        ensures
            *final(self) == counted(*old(self), item_type@, is_read),
    {
        let t = chars_of(item_type);
        let pdf = chars_of("pdf");
        let video = chars_of("video");
        if same_chars(&t, &pdf) {
            if is_read {
                self.pdfs_read = self.pdfs_read + 1;
            } else {
                self.pdfs_added = self.pdfs_added + 1;
            }
        } else if same_chars(&t, &video) {
            if is_read {
                self.videos_read = self.videos_read + 1;
            } else {
                self.videos_added = self.videos_added + 1;
            }
        } else {
            if is_read {
                self.articles_read = self.articles_read + 1;
            } else {
                self.articles_added = self.articles_added + 1;
            }
        }
    }
}

/// Which periods an item counts in: all three when it falls on the current
/// day, week and month when at most 7 whole days old, the month alone when
/// at most 30, none otherwise.
pub open spec fn counted_by_age(s: TotalStats, t: Seq<char>, is_read: bool, same_date: bool, days: int) -> TotalStats {
    if same_date {
        TotalStats {
            today_stats: counted(s.today_stats, t, is_read),
            week_stats: counted(s.week_stats, t, is_read),
            month_stats: counted(s.month_stats, t, is_read),
        }
    } else if days <= 7 {
        TotalStats {
            week_stats: counted(s.week_stats, t, is_read),
            month_stats: counted(s.month_stats, t, is_read),
            ..s
        }
    } else if days <= 30 {
        TotalStats { month_stats: counted(s.month_stats, t, is_read), ..s }
    } else {
        s
    }
}

impl TotalStats {
    pub fn new() -> (r: TotalStats)
        ensures
            is_zero(r.today_stats),
            is_zero(r.week_stats),
            is_zero(r.month_stats),
    {
        TotalStats { today_stats: Stats::new(), week_stats: Stats::new(), month_stats: Stats::new() }
    }

    /// Counts an item of type `item_type`; `same_date` tells whether it was
    /// added or read on the current calendar day, and `days` is its age in
    /// whole days.
    pub fn track_by_age(&mut self, item_type: &str, is_read: bool, same_date: bool, days: i64)
        requires
            is_item_type(item_type@),
            has_room(old(self).today_stats),
            has_room(old(self).week_stats),
            has_room(old(self).month_stats),
        ensures
            *final(self) == counted_by_age(*old(self), item_type@, is_read, same_date, days as int),
    {
        if same_date {
            self.today_stats.increment(item_type, is_read);
            self.week_stats.increment(item_type, is_read);
            self.month_stats.increment(item_type, is_read);
        } else if days <= 7 {
            self.week_stats.increment(item_type, is_read);
            self.month_stats.increment(item_type, is_read);
        } else if days <= 30 {
            self.month_stats.increment(item_type, is_read);
        }
    }
}

pub open spec fn repeat(c: char, n: nat) -> Seq<char> {
    Seq::new(n, |i: int| c)
}

pub open spec fn digit_char(d: nat) -> char {
    if d == 0 {
        '0'
    } else if d == 1 {
        '1'
    } else if d == 2 {
        '2'
    } else if d == 3 {
        '3'
    } else if d == 4 {
        '4'
    } else if d == 5 {
        '5'
    } else if d == 6 {
        '6'
    } else if d == 7 {
        '7'
    } else if d == 8 {
        '8'
    } else {
        '9'
    }
}

/// The decimal digits of `n`.
pub open spec fn decimal(n: nat) -> Seq<char>
    decreases n,
{
    if n < 10 {
        seq![digit_char(n)]
    } else {
        decimal(n / 10).push(digit_char(n % 10))
    }
}

/// `s` followed by spaces up to `width` characters.
pub open spec fn pad_right(s: Seq<char>, width: nat) -> Seq<char> {
    if s.len() < width {
        s + repeat(' ', (width - s.len()) as nat)
    } else {
        s
    }
}

/// `s` after spaces up to `width` characters.
pub open spec fn pad_left(s: Seq<char>, width: nat) -> Seq<char> {
    if s.len() < width {
        repeat(' ', (width - s.len()) as nat) + s
    } else {
        s
    }
}

/// A bar of `n` squares in a field of 30 characters.
pub open spec fn bar(n: nat) -> Seq<char> {
    repeat('■', n) + repeat(' ', (30 - n) as nat)
}

/// The row of added items for one kind.
pub open spec fn added_row(label: Seq<char>, added: nat, width: nat) -> Seq<char> {
    label + ": "@ + pad_right(bar(added), width) + " │ "@ + pad_left(decimal(added), 3)
        + " added\n"@
}

/// The row of read items, with a notch under the separator when `notch` is
/// set.
pub open spec fn read_row(read: nat, notch: bool, width: nat) -> Seq<char> {
    "      "@ + pad_right(bar(read), width) + (if notch {
        "_"@
    } else {
        " "@
    }) + "│ "@ + pad_left(decimal(read), 3) + "  read\n"@
}

/// Two rows for one kind: added, then read.
pub open spec fn bar_rows(label: Seq<char>, read: nat, added: nat, notch: bool, width: nat) -> Seq<char> {
    added_row(label, added, width) + read_row(read, notch, width)
}

pub open spec fn max3(a: nat, b: nat, c: nat) -> nat {
    if a >= b && a >= c {
        a
    } else if b >= c {
        b
    } else {
        c
    }
}

/// The week's counts as bars for texts, videos and PDFs, then a blank line.
pub open spec fn stats_text(w: Stats) -> Seq<char> {
    let width = if max3(w.articles_added as nat, w.videos_added as nat, w.pdfs_added as nat)
        >= max3(w.articles_read as nat, w.videos_read as nat, w.pdfs_read as nat) {
        max3(w.articles_added as nat, w.videos_added as nat, w.pdfs_added as nat)
    } else {
        max3(w.articles_read as nat, w.videos_read as nat, w.pdfs_read as nat)
    };
    bar_rows("Text"@, w.articles_read as nat, w.articles_added as nat, true, width) + bar_rows(
        "Vids"@,
        w.videos_read as nat,
        w.videos_added as nat,
        true,
        width,
    ) + bar_rows("PDFs"@, w.pdfs_read as nat, w.pdfs_added as nat, false, width) + "\n"@
}

/// Every count of the week fits a bar.
pub open spec fn fits_bars(w: Stats) -> bool {
    &&& w.articles_added <= 30
    &&& w.articles_read <= 30
    &&& w.pdfs_added <= 30
    &&& w.pdfs_read <= 30
    &&& w.videos_added <= 30
    &&& w.videos_read <= 30
}

fn push_repeat(out: &mut Vec<char>, c: char, n: usize)
    ensures
        final(out)@ == old(out)@ + repeat(c, n as nat),
{
    let mut k: usize = 0;
    while k < n
        invariant
            k <= n,
            out@ == old(out)@ + repeat(c, k as nat),
        decreases n - k,
    {
        out.push(c);
        k = k + 1;
        assert(out@ =~= old(out)@ + repeat(c, k as nat));
    }
}

fn push_decimal(out: &mut Vec<char>, n: usize)
    ensures
        final(out)@ == old(out)@ + decimal(n as nat),
    decreases n,
{
    if n >= 10 {
        push_decimal(out, n / 10);
    }
    let d = n % 10;
    let c = if d == 0 {
        '0'
    } else if d == 1 {
        '1'
    } else if d == 2 {
        '2'
    } else if d == 3 {
        '3'
    } else if d == 4 {
        '4'
    } else if d == 5 {
        '5'
    } else if d == 6 {
        '6'
    } else if d == 7 {
        '7'
    } else if d == 8 {
        '8'
    } else {
        '9'
    };
    out.push(c);
    if n >= 10 {
        assert(out@ =~= old(out)@ + decimal(n as nat));
    } else {
        assert(out@ =~= old(out)@ + decimal(n as nat));
    }
}

fn push_padded_left(out: &mut Vec<char>, s: &Vec<char>, width: usize)
    ensures
        final(out)@ == old(out)@ + pad_left(s@, width as nat),
{
    if s.len() < width {
        push_repeat(out, ' ', width - s.len());
    }
    append_chars(out, s);
    assert(out@ =~= old(out)@ + pad_left(s@, width as nat));
}

fn push_padded_right(out: &mut Vec<char>, s: &Vec<char>, width: usize)
    ensures
        final(out)@ == old(out)@ + pad_right(s@, width as nat),
{
    append_chars(out, s);
    if s.len() < width {
        push_repeat(out, ' ', width - s.len());
    }
    assert(out@ =~= old(out)@ + pad_right(s@, width as nat));
}

fn push_str(out: &mut Vec<char>, s: &str)
    ensures
        final(out)@ == old(out)@ + s@,
{
    let v = chars_of(s);
    append_chars(out, &v);
}

fn bar_vec(n: usize) -> (r: Vec<char>)
    requires
        n <= 30,
    ensures
        r@ == bar(n as nat),
{
    let mut r: Vec<char> = Vec::new();
    push_repeat(&mut r, '■', n);
    push_repeat(&mut r, ' ', 30 - n);
    assert(r@ =~= bar(n as nat));
    r
}

fn decimal_vec(n: usize) -> (r: Vec<char>)
    ensures
        r@ == decimal(n as nat),
{
    let mut r: Vec<char> = Vec::new();
    push_decimal(&mut r, n);
    assert(r@ =~= decimal(n as nat));
    r
}

fn push_added_row(out: &mut Vec<char>, label: &str, added: usize, width: usize)
    requires
        added <= 30,
    ensures
        final(out)@ == old(out)@ + added_row(label@, added as nat, width as nat),
{
    let ghost o = old(out)@;
    push_str(out, label);
    push_str(out, ": ");
    push_padded_right(out, &bar_vec(added), width);
    push_str(out, " │ ");
    push_padded_left(out, &decimal_vec(added), 3);
    push_str(out, " added\n");
    assert(out@ =~= o + added_row(label@, added as nat, width as nat));
}

fn push_read_row(out: &mut Vec<char>, read: usize, notch: bool, width: usize)
    requires
        read <= 30,
    ensures
        final(out)@ == old(out)@ + read_row(read as nat, notch, width as nat),
{
    let ghost o = old(out)@;
    push_str(out, "      ");
    push_padded_right(out, &bar_vec(read), width);
    if notch {
        push_str(out, "_");
    } else {
        push_str(out, " ");
    }
    push_str(out, "│ ");
    push_padded_left(out, &decimal_vec(read), 3);
    push_str(out, "  read\n");
    assert(out@ =~= o + read_row(read as nat, notch, width as nat));
}

fn push_bar_rows(
    out: &mut Vec<char>,
    label: &str,
    read: usize,
    added: usize,
    notch: bool,
    width: usize,
)
    requires
        read <= 30,
        added <= 30,
    ensures
        final(out)@ == old(out)@ + bar_rows(label@, read as nat, added as nat, notch, width as nat),
{
    let ghost o = old(out)@;
    push_added_row(out, label, added, width);
    push_read_row(out, read, notch, width);
    assert(out@ =~= o + bar_rows(label@, read as nat, added as nat, notch, width as nat));
}

fn max_of3(a: usize, b: usize, c: usize) -> (r: usize)
    ensures
        r == max3(a as nat, b as nat, c as nat),
{
    if a >= b && a >= c {
        a
    } else if b >= c {
        b
    } else {
        c
    }
}

/// Renders the week's counts as bars: texts, videos and PDFs, each with an
/// added row and a read row.
pub fn render_stats(_today_stats: &Stats, week_stats: &Stats, _month_stats: &Stats) -> (r: String)
    requires
        fits_bars(*week_stats),
    ensures
        r@ == stats_text(*week_stats),
{
    let w = week_stats;
    let max_read = max_of3(w.articles_read, w.videos_read, w.pdfs_read);
    let max_added = max_of3(w.articles_added, w.videos_added, w.pdfs_added);
    let width = if max_added >= max_read {
        max_added
    } else {
        max_read
    };
    let mut out: Vec<char> = Vec::new();
    push_bar_rows(&mut out, "Text", w.articles_read, w.articles_added, true, width);
    push_bar_rows(&mut out, "Vids", w.videos_read, w.videos_added, true, width);
    push_bar_rows(&mut out, "PDFs", w.pdfs_read, w.pdfs_added, false, width);
    push_str(&mut out, "\n");
    assert(out@ =~= stats_text(*week_stats));
    string_of(&out)
}

} // verus!
