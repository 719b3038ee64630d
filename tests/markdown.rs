use readlater::{get_list_depth, normalize_markdown};

#[test]
fn test_list_with_paragraphs_mixing_numbers_and_chars() {
    let input = r#"Text before
1. First item with continuation
2. Second item
a. Sub item A
b. Sub item B
3. Third item
Some text after the list."#;
    let normalized = normalize_markdown(input, input);
    assert_eq!(
        normalized.trim(),
        r#"Text before

1. First item with continuation
2. Second item
    a. Sub item A
    b. Sub item B
3. Third item

Some text after the list."#
            .trim()
    );
}

#[test]
fn test_list_with_paragraphs_sublists() {
    let input = r#"Text before
1. First item with continuation
2. Second item
2.1 Sub item A
2.2. Sub item B
3. Third item
Some text after the list."#;
    let normalized = normalize_markdown(input, input);
    assert_eq!(
        normalized.trim(),
        r#"Text before

1. First item with continuation
2. Second item
    2.1 Sub item A
    2.2. Sub item B
3. Third item

Some text after the list."#
            .trim()
    );
}

#[test]
fn test_splitting_incorrectly_merged_titles() {
    let input = r#"### Some title

4.4.`Sender`sends all the schedules from the two regions.### Region recovery example (failover is switched off)

1. SSM regional parameters are changed. Life goes back to normal.[in link ##test](#url)"#;
    let normalized = normalize_markdown(input.trim(), input);
    assert_eq!(
        normalized.trim(),
        r#"### Some title

4.4.`Sender`sends all the schedules from the two regions.

### Region recovery example (failover is switched off)

1. SSM regional parameters are changed. Life goes back to normal.[in link ##test](#url)"#
            .trim()
    );
}

#[test]
fn normalize_markdown_should_add_newlines_between_paragraphs() {
    let input = r#"
As mentioned in the beginning of this article, this is good.
It is important to emphasise that this is architecture.
                "#;
    let normalized = normalize_markdown(input.trim(), input);
    assert_eq!(
        normalized.trim(),
        r#"
As mentioned in the beginning of this article, this is good.

It is important to emphasise that this is architecture.
"#
        .trim()
    );
}

#[test]
fn test_list_depth_trailing_dots() {
    assert_eq!(get_list_depth("1.`Ololoev` is the best"), 0);
    assert_eq!(get_list_depth("1. `Ololoev` is the best"), 0);
    assert_eq!(get_list_depth("1 `Ololoev` is the best"), 0);
    assert_eq!(get_list_depth("1.2.`Ololoev` is the best"), 1);
    assert_eq!(get_list_depth("1.2`Ololoev` is the best"), 1);
    assert_eq!(get_list_depth("1.2 `Ololoev` is the best"), 1);
    assert_eq!(get_list_depth("1.2.3.1`Ololoev` is the best"), 3);
}

#[test]
fn test_weird_cases() {
    assert_eq!(
        get_list_depth("4.2`ReaderTaskProducers`generate the`ReaderTasks`"),
        1
    );
    assert_eq!(
        get_list_depth("4.3.`ReaderTaskConsumers`fetch buckets from`us-east-1`"),
        1
    );

    let str = r#"
4. `us-east-2`
4.2`ReaderTaskProducers`generate the`ReaderTasks`
4.3.`ReaderTaskConsumers`fetch buckets from`us-east-1`"#
        .trim();
    let normalized = normalize_markdown(str, str);
    assert_eq!(
        normalized.trim(),
        r#"
4. `us-east-2`
    4.2`ReaderTaskProducers`generate the`ReaderTasks`
    4.3.`ReaderTaskConsumers`fetch buckets from`us-east-1`"#
            .trim()
    );
}
