use b30::{extract_menu_json_url, extract_rating_link, AppError};

fn parse_message(r: Result<String, AppError>) -> String {
    match r {
        Err(AppError::Parse(m)) => m,
        other => panic!("expected a parse error, got {:?}", other),
    }
}

#[test]
fn rating_link_from_search_page() {
    let html = r#"<html><body>
        <div class="beer-item foo"><a href="/b/sierra-nevada-pale-ale/6284">Pale Ale</a>
        <div class="caps bar" data-rating="3.92">Rating</div></div>
        <div class="beer-item"><a href="/b/other/1">Other</a><div class="caps" data-rating="1.0"></div></div>
        </body></html>"#;
    let link = extract_rating_link(html).unwrap();
    assert_eq!(link, "<a href=\"https://untappd.com/b/sierra-nevada-pale-ale/6284\">3.92</a>");
    assert!(link.starts_with("<a href=\"https://untappd.com/") && link.ends_with("</a>") && link.contains("\">"));
}

#[test]
fn rating_link_missing_item() {
    assert_eq!(parse_message(extract_rating_link("<div>no results</div>")), "Could not find beer-item div");
}

#[test]
fn rating_link_missing_anchor() {
    let html = r#"<div class="beer-item"><div class="caps" data-rating="4"></div></div>"#;
    assert_eq!(parse_message(extract_rating_link(html)), "Could not find anchor tag");
}

#[test]
fn rating_link_missing_href() {
    let html = r#"<div class="beer-item"><a name="x">B</a><div class="caps" data-rating="4"></div></div>"#;
    assert_eq!(parse_message(extract_rating_link(html)), "Could not find href attribute");
}

#[test]
fn rating_link_missing_caps() {
    let html = r#"<div class="beer-item"><a href="/b/1">B</a></div>"#;
    assert_eq!(parse_message(extract_rating_link(html)), "Could not find caps div");
}

#[test]
fn rating_link_missing_rating() {
    let html = r#"<div class="beer-item"><a href="/b/1">B</a><div class="caps"></div></div>"#;
    assert_eq!(parse_message(extract_rating_link(html)), "Could not find data-rating attribute");
}

#[test]
fn menu_json_url_plain_path() {
    let html = "<script>$.getJSON('json/5469327503392768.json', function(d) {});</script>";
    assert_eq!(
        extract_menu_json_url(html).unwrap(),
        "http://www.taphunter.com/bigscreen/json/5469327503392768.json"
    );
}

#[test]
fn menu_json_url_dot_slash_path() {
    let html = "x getJSON(\"./json/abc?v=2\") y getJSON('json/later')";
    assert_eq!(extract_menu_json_url(html).unwrap(), "http://www.taphunter.com/bigscreen/json/abc?v=2");
}

#[test]
fn menu_json_url_skips_empty_path() {
    let html = "getJSON('json/') getJSON('json/next')";
    assert_eq!(extract_menu_json_url(html).unwrap(), "http://www.taphunter.com/bigscreen/json/next");
}

#[test]
fn menu_json_url_missing() {
    assert_eq!(parse_message(extract_menu_json_url("<html>getJSON(data)</html>")), "Could not find getJSON URL");
    assert_eq!(parse_message(extract_menu_json_url("")), "Could not find getJSON URL");
}

#[test]
fn error_messages_name_their_kind() {
    assert_eq!(AppError::Client("a".to_string()).message(), "Client error: a");
    assert_eq!(AppError::Network("b".to_string()).message(), "Network error: b");
    assert_eq!(AppError::Parse("c".to_string()).message(), "Parse error: c");
    assert_eq!(AppError::Internal("d".to_string()).message(), "Internal error: d");
}
