use readlater::classify::{get_block_type, BlockType, ListMarker};
use readlater::header::is_in_code_or_link;
use readlater::normalize_markdown;

fn chars(s: &str) -> Vec<char> {
    s.chars().collect()
}

#[test]
fn empty_markdown_gives_empty_text() {
    assert_eq!(normalize_markdown("", ""), "");
}

#[test]
fn empty_reference_keeps_every_line() {
    let md = "Intro\nMore text\nEnd";
    assert_eq!(normalize_markdown(md, ""), "Intro\n\nMore text\n\nEnd");
}

#[test]
fn head_and_trailer_are_trimmed() {
    let md = "Menu\nHome\nAbout\nThe real article starts here.\nSecond line of it.\nAnd a third.\n## Related posts\nOther stuff";
    let plain = "The real article starts here.\n\nmore";
    assert_eq!(
        normalize_markdown(md, plain),
        "Home\n\nAbout\n\nThe real article starts here.\n\nSecond line of it.\n\nAnd a third."
    );
}

#[test]
fn reference_punctuation_is_ignored_when_matching() {
    let md = "Menu\nHome\nAbout\nLinks\nThe real article\nBody text.";
    let plain = "The *real* article\n\nBody";
    assert_eq!(
        normalize_markdown(md, plain),
        "About\n\nLinks\n\nThe real article\n\nBody text."
    );
}

#[test]
fn summary_header_is_no_trailer() {
    let md = "Start\nMiddle\n## Summary\nEnd";
    assert_eq!(normalize_markdown(md, ""), "Start\n\nMiddle\n\n## Summary\n\nEnd");
}

#[test]
fn glued_header_is_split_off() {
    assert_eq!(
        normalize_markdown("Some prose here.## Next part", ""),
        "Some prose here.\n\n## Next part"
    );
}

#[test]
fn header_run_at_line_end_is_split_off() {
    assert_eq!(
        normalize_markdown("Closing words ##", ""),
        "Closing words\n\n##"
    );
}

#[test]
fn hash_in_inline_code_is_not_a_header() {
    assert_eq!(
        normalize_markdown("Use `# notreal` here", ""),
        "Use `# notreal` here"
    );
}

#[test]
fn hash_in_link_label_is_not_a_header() {
    assert_eq!(
        normalize_markdown("See [a # b](url) now", ""),
        "See [a # b](url) now"
    );
}

#[test]
fn hash_in_html_tag_is_not_a_header() {
    assert_eq!(
        normalize_markdown("Go <span # x> on", ""),
        "Go <span # x> on"
    );
}

#[test]
fn prose_lines_get_a_blank_line_between() {
    assert_eq!(
        normalize_markdown("First sentence.\nSecond sentence.", ""),
        "First sentence.\n\nSecond sentence."
    );
}

#[test]
fn lettered_items_stay_nested_under_their_number() {
    let md = "1. One\na. Sub\nb. Sub2\nc. Sub3\n2. Two";
    assert_eq!(
        normalize_markdown(md, ""),
        "1. One\n    a. Sub\n    b. Sub2\n    c. Sub3\n2. Two"
    );
}

#[test]
fn surrounding_whitespace_is_trimmed() {
    assert_eq!(normalize_markdown("   Indented prose   ", ""), "Indented prose");
}

#[test]
fn block_types_of_single_lines() {
    assert_eq!(get_block_type(&chars("## Title"), false), BlockType::Header);
    assert_eq!(get_block_type(&chars("   "), false), BlockType::Normal);
    assert_eq!(get_block_type(&chars("Plain prose"), false), BlockType::Normal);
    assert_eq!(get_block_type(&chars("```rust"), false), BlockType::CodeBlockStart);
    assert_eq!(get_block_type(&chars("```"), true), BlockType::CodeBlockEnd);
    assert_eq!(
        get_block_type(&chars("2.1 Sub"), false),
        BlockType::ListItem { depth: 1, marker: ListMarker::Number }
    );
    assert_eq!(
        get_block_type(&chars("b. item"), false),
        BlockType::ListItem { depth: 0, marker: ListMarker::Letter }
    );
    assert_eq!(
        get_block_type(&chars("        * deep"), false),
        BlockType::ListItem { depth: 2, marker: ListMarker::Bullet }
    );
}

#[test]
fn normalized_text_is_left_unchanged() {
    let input = "Text before\n1. First item\n2. Second item\na. Sub item A\nb. Sub item B\n3. Third item\nSome text after the list.";
    let once = normalize_markdown(input, input);
    assert_eq!(
        once,
        "Text before\n\n1. First item\n2. Second item\n    a. Sub item A\n    b. Sub item B\n3. Third item\n\nSome text after the list."
    );
    assert_eq!(normalize_markdown(&once, &once), once);
}

#[test]
fn header_after_closed_link_is_split_off() {
    assert_eq!(
        normalize_markdown("See [a](b) now.## Next", ""),
        "See [a](b) now.\n\n## Next"
    );
}

#[test]
fn only_inside_code_tags_and_links_is_protected() {
    assert!(!is_in_code_or_link(&chars("[a](b) x"), 7));
    assert!(!is_in_code_or_link(&chars("plain # text"), 6));
    assert!(is_in_code_or_link(&chars("[a # b](u)"), 3));
    assert!(is_in_code_or_link(&chars("[a](b # c)"), 6));
    assert!(is_in_code_or_link(&chars("x `#` y"), 3));
    assert!(is_in_code_or_link(&chars("x <b #> y"), 5));
}

#[test]
fn only_whitespace_changes_with_empty_reference() {
    let md = "Intro text\n  1. first\na. sub [x](y) more## Glued\n```\ncode line\n```\n\n\nEnd.\r\n";
    let out = normalize_markdown(md, "");
    let visible = |s: &str| s.chars().filter(|c| !c.is_whitespace()).collect::<String>();
    assert_eq!(visible(&out), visible(md));
}
