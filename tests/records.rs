use readlater::api::{default_favorite, ApiRequestError};
use readlater::feeds::{parse_subscriptions, with_subscription, without_subscription, RssManager};
use readlater::pdf::extract_title;
use readlater::stats::{item_type_of, render_stats, Stats, TotalStats};
use readlater::urls::extract_domain;

#[test]
fn new_stats_are_zero() {
    let t = TotalStats::new();
    for s in [&t.today_stats, &t.week_stats, &t.month_stats] {
        assert_eq!(
            (s.articles_added, s.articles_read, s.pdfs_added, s.pdfs_read, s.videos_added, s.videos_read),
            (0, 0, 0, 0, 0, 0)
        );
    }
}

#[test]
fn increment_counts_by_kind() {
    let mut s = Stats::new();
    s.increment("pdf", true);
    s.increment("video", false);
    s.increment("article", false);
    s.increment("article", true);
    assert_eq!(
        (s.articles_added, s.articles_read, s.pdfs_added, s.pdfs_read, s.videos_added, s.videos_read),
        (1, 1, 0, 1, 1, 0)
    );
}

#[test]
fn tracking_by_age_picks_periods() {
    let mut t = TotalStats::new();
    t.track_by_age("article", false, true, 0);
    t.track_by_age("article", false, false, 5);
    t.track_by_age("article", false, false, 20);
    t.track_by_age("article", false, false, 40);
    assert_eq!(t.today_stats.articles_added, 1);
    assert_eq!(t.week_stats.articles_added, 2);
    assert_eq!(t.month_stats.articles_added, 3);
}

#[test]
fn item_type_follows_url() {
    assert_eq!(item_type_of("https://www.youtube.com/watch?v=x"), "video");
    assert_eq!(item_type_of("https://example.com/paper.pdf"), "pdf");
    assert_eq!(item_type_of("https://example.com/post"), "article");
}

#[test]
fn stats_render_as_bars() {
    let mut week = Stats::new();
    week.articles_added = 3;
    week.articles_read = 1;
    week.videos_added = 2;
    let zero = Stats::new();
    let bar = |n: usize| "■".repeat(n) + &" ".repeat(30 - n);
    let rows = |label: &str, read: usize, added: usize, notch: &str| {
        format!(
            "{}: {} │ {:3} added\n      {}{}│ {:3}  read\n",
            label,
            bar(added),
            added,
            bar(read),
            notch,
            read
        )
    };
    let expected = rows("Text", 1, 3, "_") + &rows("Vids", 0, 2, "_") + &rows("PDFs", 0, 0, " ") + "\n";
    assert_eq!(render_stats(&zero, &week, &zero), expected);
}

#[test]
fn rss_manager_uses_default_path() {
    assert_eq!(RssManager::new().subscriptions_path, "rss/subscriptions");
}

#[test]
fn subscriptions_skip_blanks_and_comments() {
    let subs = parse_subscriptions("https://a\n# comment\n\n  https://b  \n");
    assert_eq!(subs, vec!["https://a".to_string(), "https://b".to_string()]);
}

#[test]
fn adding_a_subscription() {
    let subs = vec!["a".to_string()];
    assert_eq!(with_subscription(&subs, "b"), Some("a\nb".to_string()));
    assert_eq!(with_subscription(&subs, "a"), None);
}

#[test]
fn removing_a_subscription() {
    let subs = vec!["a".to_string(), "b".to_string(), "a".to_string()];
    assert_eq!(without_subscription(&subs, "a"), Some("b\na".to_string()));
    assert_eq!(without_subscription(&subs, "c"), None);
}

#[test]
fn status_codes_map_to_errors() {
    let e = ApiRequestError::for_status(400).unwrap();
    assert_eq!(e.0, 400);
    assert_eq!(
        e.1,
        "Invalid request, please make sure you follow the documentation for proper syntax."
    );
    assert_eq!(ApiRequestError::for_status(401).unwrap().0, 401);
    assert_eq!(ApiRequestError::for_status(403).unwrap().0, 403);
    assert_eq!(ApiRequestError::for_status(500).unwrap().1, "Internal Server Error");
    let down = ApiRequestError::for_status(503).unwrap();
    assert_eq!(down.0, 502);
    assert_eq!(down.1, "Pocket's sync server is down for scheduled maintenance.");
    assert!(ApiRequestError::for_status(200).is_none());
    assert!(ApiRequestError::for_status(404).is_none());
}

#[test]
fn missing_favorite_flag_is_zero() {
    assert_eq!(default_favorite(), "0");
}

#[test]
fn title_from_first_fitting_paragraph() {
    assert_eq!(
        extract_title("Short\n\nThis is a proper title line\n\nBody"),
        Some("This is a proper title line".to_string())
    );
    assert_eq!(
        extract_title("\n\n  A title\nspanning lines\n\nrest of it"),
        Some("A title spanning lines".to_string())
    );
}

#[test]
fn title_falls_back_to_first_words() {
    assert_eq!(extract_title("one two"), Some("one two".to_string()));
    let long: Vec<String> = (1..=60).map(|i| format!("w{}", i)).collect();
    assert_eq!(
        extract_title(&long.join(" ")),
        Some("w1 w2 w3 w4 w5 w6 w7 w8 w9 w10".to_string())
    );
    assert_eq!(extract_title(""), Some(String::new()));
}

#[test]
fn domain_drops_scheme_and_www() {
    assert_eq!(
        extract_domain("https://www.phoronix.com/news/Linux-6.8-Networking"),
        Some("phoronix.com".to_string())
    );
    assert_eq!(extract_domain("http://www.example.org"), Some("example.org".to_string()));
    assert_eq!(extract_domain("example.org/a/b"), Some("example.org".to_string()));
    assert_eq!(extract_domain(""), Some(String::new()));
}
