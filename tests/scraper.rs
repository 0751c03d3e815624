use b30::{find_elements_by_class, find_first_anchor};

#[test]
fn test_find_elements_by_class() {
    let html = r#"
            <div class="beer-item foo">
                <a href="/beer/123">Some Beer</a>
                <div class="caps bar" data-rating="4.2">Rating</div>
            </div>
        "#;

    let elements = find_elements_by_class(html, "beer-item");
    assert_eq!(elements.len(), 1);
    assert!(elements[0].get_content().contains("Some Beer"));

    let caps = find_elements_by_class(elements[0].get_content(), "caps");
    assert_eq!(caps.len(), 1);
    assert_eq!(caps[0].get_attr("data-rating").unwrap(), "4.2");
}

#[test]
fn test_find_first_anchor() {
    let html = r#"<div><a href="/beer/123">Some Beer</a></div>"#;
    let anchor = find_first_anchor(html);
    assert!(anchor.is_some());
    assert_eq!(anchor.unwrap().get_attr("href").unwrap(), "/beer/123");
}

#[test]
fn test_find_first_anchor_with_whitespace() {
    let html = r#"
            <div>
                <a href="/beer/123">
                    Some Beer
                </a>
            </div>
        "#;
    let anchor = find_first_anchor(html);
    assert!(anchor.is_some());
    assert_eq!(anchor.unwrap().get_attr("href").unwrap(), "/beer/123");
}

#[test]
fn test_nested_elements() {
    let html = r#"
            <div class="outer foo">
                <div class="inner bar">
                    <div class="caps baz" data-rating="4.2">Rating</div>
                </div>
            </div>
        "#;

    let inner_elements = find_elements_by_class(html, "inner");
    assert_eq!(inner_elements.len(), 1);

    let caps = find_elements_by_class(inner_elements[0].get_content(), "caps");
    assert_eq!(caps.len(), 1);
    assert_eq!(caps[0].get_attr("data-rating").unwrap(), "4.2");
}

#[test]
fn test_multi_class() {
    let html = r#"<div class="foo bar caps baz" data-rating="4.2">Rating</div>"#;
    let elements = find_elements_by_class(html, "caps");
    assert_eq!(elements.len(), 1);
    assert_eq!(elements[0].get_attr("data-rating").unwrap(), "4.2");
}

#[test]
fn test_empty_input() {
    assert!(find_elements_by_class("", "test").is_empty());
    assert!(find_first_anchor("").is_none());
}

#[test]
fn test_no_matches() {
    assert!(find_elements_by_class("<div>test</div>", "nonexistent").is_empty());
    assert!(find_first_anchor("<div>test</div>").is_none());
}

#[test]
fn beer_item_content_and_nested_caps() {
    let html = r#"<div class="beer-item foo"><a href="/beer/123">Some Beer</a><div class="caps bar" data-rating="4.2">Rating</div></div>"#;
    let items = find_elements_by_class(html, "beer-item");
    assert_eq!(items.len(), 1);
    assert_eq!(items[0].tag_name(), "div");
    assert_eq!(
        items[0].get_content(),
        r#"<a href="/beer/123">Some Beer</a><div class="caps bar" data-rating="4.2">Rating</div>"#
    );
    let caps = find_elements_by_class(items[0].get_content(), "caps");
    assert_eq!(caps.len(), 1);
    assert_eq!(caps[0].get_attr("data-rating").unwrap(), "4.2");
    assert_eq!(caps[0].get_content(), "Rating");
}

#[test]
fn anchor_content_is_trimmed() {
    let anchor = find_first_anchor("<div><a href=\"/beer/123\">\n   Some Beer \t</a></div>").unwrap();
    assert_eq!(anchor.get_content(), "Some Beer");
    assert_eq!(anchor.tag_name(), "a");
    assert_eq!(anchor.get_attr("href").unwrap(), "/beer/123");
}

#[test]
fn class_word_must_match_whole() {
    let html = r#"<div class="foo bar caps baz" data-rating="4.2">Rating</div>"#;
    assert_eq!(find_elements_by_class(html, "caps").len(), 1);
    assert!(find_elements_by_class(html, "ca").is_empty());
    assert!(find_elements_by_class(r#"<div class="capsule">x</div>"#, "caps").is_empty());
    assert!(find_elements_by_class(html, "caps baz").is_empty());
}

#[test]
fn empty_class_name_finds_nothing() {
    assert!(find_elements_by_class(r#"<div class="">x</div>"#, "").is_empty());
    assert!(find_elements_by_class(r#"<div class="a">x</div>"#, "").is_empty());
}

#[test]
fn same_class_inside_match_needs_a_second_search() {
    let html = r#"<div class="caps"><span class="caps">inner</span></div>"#;
    let outer = find_elements_by_class(html, "caps");
    assert_eq!(outer.len(), 1);
    assert_eq!(outer[0].tag_name(), "div");
    let inner = find_elements_by_class(outer[0].get_content(), "caps");
    assert_eq!(inner.len(), 1);
    assert_eq!(inner[0].tag_name(), "span");
    assert_eq!(inner[0].get_content(), "inner");
}

#[test]
fn non_matching_ancestor_does_not_hide_descendants() {
    let html = r#"<section class="outer"><p class="x">one</p><p class="x">two</p></section>"#;
    let found = find_elements_by_class(html, "x");
    assert_eq!(found.len(), 2);
    assert_eq!(found[0].get_content(), "one");
    assert_eq!(found[1].get_content(), "two");
}

#[test]
fn nested_same_tag_is_balanced() {
    let html = r#"<div class="a"><div>in</div> tail</div><div class="a">second</div>"#;
    let found = find_elements_by_class(html, "a");
    assert_eq!(found.len(), 2);
    assert_eq!(found[0].get_content(), "<div>in</div> tail");
    assert_eq!(found[1].get_content(), "second");
}

#[test]
fn unbalanced_candidate_is_dropped() {
    let html = r#"<div class="a">never closed <span class="a">ok</span>"#;
    let found = find_elements_by_class(html, "a");
    assert_eq!(found.len(), 1);
    assert_eq!(found[0].tag_name(), "span");
    assert_eq!(found[0].get_content(), "ok");
}

#[test]
fn tag_name_prefix_counts_as_nesting() {
    // `<divider>` begins with `<div`, so it counts one level deeper.
    let html = r#"<div class="a"><divider></div>x</div>y</div>"#;
    let found = find_elements_by_class(html, "a");
    assert_eq!(found.len(), 1);
    assert_eq!(found[0].get_content(), "<divider></div>x");
}

#[test]
fn repeated_attribute_gives_first_value() {
    let html = r#"<p class="k" data-x='1' data-x="2" disabled>t</p>"#;
    let found = find_elements_by_class(html, "k");
    assert_eq!(found.len(), 1);
    assert_eq!(found[0].get_attr("data-x").unwrap(), "1");
    assert_eq!(found[0].get_attr("class").unwrap(), "k");
    assert!(found[0].get_attr("disabled").is_none());
    assert!(found[0].get_attr("DATA-X").is_none());
}

#[test]
fn attribute_value_is_not_decoded() {
    let found = find_elements_by_class(r#"<a class="k" href="/x?a=1&amp;b=2">t</a>"#, "k");
    assert_eq!(found[0].get_attr("href").unwrap(), "/x?a=1&amp;b=2");
}

#[test]
fn anchor_ends_at_first_close() {
    let anchor = find_first_anchor(r#"<a href="/1">one <a href="/2">two</a> rest</a>"#).unwrap();
    assert_eq!(anchor.get_attr("href").unwrap(), "/1");
    assert_eq!(anchor.get_content(), r#"one <a href="/2">two"#);
}

#[test]
fn anchor_without_close_is_none() {
    assert!(find_first_anchor(r#"<a href="/1">one"#).is_none());
    assert!(find_first_anchor(r#"<a href="/1""#).is_none());
}

#[test]
fn searches_are_repeatable() {
    let html = r#"<div class="caps" data-rating="3.9"><a href="/b/1">B</a></div>"#;
    let first = find_elements_by_class(html, "caps");
    let second = find_elements_by_class(html, "caps");
    assert_eq!(first.len(), second.len());
    assert_eq!(first[0].get_content(), second[0].get_content());
    assert_eq!(first[0].get_attr("data-rating"), second[0].get_attr("data-rating"));
    let a1 = find_first_anchor(html).unwrap();
    let a2 = find_first_anchor(html).unwrap();
    assert_eq!(a1.get_content(), a2.get_content());
    assert_eq!(a1.get_attr("href"), a2.get_attr("href"));
}

#[test]
fn unicode_whitespace_separates_classes() {
    let html = "<div class=\"caps\u{00A0}big\">x</div>";
    assert_eq!(find_elements_by_class(html, "big").len(), 1);
    let anchor = find_first_anchor("<a>\u{3000}é\u{2003}</a>").unwrap();
    assert_eq!(anchor.get_content(), "é");
}

#[test]
fn double_quoted_value_keeps_apostrophe() {
    let anchor = find_first_anchor(r#"<a title="it's" href="/x">t</a>"#).unwrap();
    assert_eq!(anchor.get_attr("title").unwrap(), "it's");
    assert_eq!(anchor.get_attr("href").unwrap(), "/x");
    let single = find_first_anchor(r#"<a title='say "hi"' href='/y'>t</a>"#).unwrap();
    assert_eq!(single.get_attr("title").unwrap(), "say \"hi\"");
    assert_eq!(single.get_attr("href").unwrap(), "/y");
}

#[test]
fn value_closes_only_at_its_own_quote() {
    let anchor = find_first_anchor(r#"<a href="/x' title="y">t</a>"#).unwrap();
    assert_eq!(anchor.get_attr("href").unwrap(), "/x' title=");
    assert!(anchor.get_attr("title").is_none());
}

#[test]
fn class_value_with_apostrophe() {
    let found = find_elements_by_class(r#"<div class="it's caps" data-rating="4.0">x</div>"#, "caps");
    assert_eq!(found.len(), 1);
    assert_eq!(found[0].get_attr("class").unwrap(), "it's caps");
    assert_eq!(found[0].get_attr("data-rating").unwrap(), "4.0");
}
