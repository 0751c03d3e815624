use b30::{render_table, unquote, AbvBand, AppError, PAGE_HEAD};

fn strings(v: &[&str]) -> Vec<String> {
    v.iter().map(|s| s.to_string()).collect()
}

#[test]
fn table_with_category_runs() {
    let cols = strings(&["category", "abv", "tap"]);
    let rows = vec![
        strings(&["\"IPA\"", "\"6.2%\"", "3"]),
        strings(&["\"IPA\"", "\"7.1\"", "4"]),
        strings(&["\"\"", "\"5\"", "5"]),
    ];
    let bands = vec![AbvBand::MediumLow, AbvBand::High, AbvBand::Low];
    let html = render_table(&cols, &rows, &bands).unwrap();
    let expected = format!(
        "{}<table>\n<thead>\n<tr><th>category</th><th>abv</th><th>tap</th></tr>\n</thead>\n<tbody>\n\
<tr><td class=\"category-cell category-cell-even\" rowspan=\"2\">IPA</td><td class=\"abv-medium-low numeric\">6.2%</td><td class=\"numeric\">3</td></tr>\n\
<tr><td class=\"abv-high numeric\">7.1</td><td class=\"numeric\">4</td></tr>\n\
<tr><td class=\"category-cell category-cell-odd\" rowspan=\"1\"></td><td class=\"abv-low numeric\">5</td><td class=\"numeric\">5</td></tr>\n\
</tbody>\n</table></body>",
        PAGE_HEAD
    );
    assert_eq!(html, expected);
}

#[test]
fn table_plain_and_numeric_columns() {
    let cols = strings(&["name", "abv", "category", "rating", "style"]);
    let rows = vec![strings(&["\"Porter\"", "\"8\"", "\"Dark\"", "\"N/A\"", "x\""])];
    let html = render_table(&cols, &rows, &vec![AbvBand::Medium]).unwrap();
    assert!(html.contains(
        "<tr><td>Porter</td><td class=\"abv-medium numeric\">8</td>\
<td class=\"category-cell category-cell-even\" rowspan=\"1\">Dark</td>\
<td class=\"numeric\">N/A</td><td>x\"</td></tr>\n"
    ));
}

#[test]
fn long_run_spans_many_rows() {
    let cols = strings(&["category", "abv"]);
    let rows: Vec<Vec<String>> = (0..12).map(|_| strings(&["Sour", "4"])).collect();
    let bands = vec![AbvBand::Low; 12];
    let html = render_table(&cols, &rows, &bands).unwrap();
    assert!(html.contains("rowspan=\"12\">Sour</td>"));
    assert_eq!(html.matches("category-cell category-cell").count(), 1);
}

#[test]
fn table_without_rows() {
    let cols = strings(&["abv", "category"]);
    let html = render_table(&cols, &vec![], &vec![]).unwrap();
    assert!(html.starts_with("\n<head>"));
    assert!(html.ends_with("<tbody>\n</tbody>\n</table></body>"));
}

#[test]
fn table_missing_columns() {
    match render_table(&strings(&["category"]), &vec![], &vec![]) {
        Err(AppError::Internal(m)) => assert_eq!(m, "ABV column not found"),
        other => panic!("unexpected {:?}", other),
    }
    match render_table(&strings(&["abv"]), &vec![], &vec![]) {
        Err(AppError::Internal(m)) => assert_eq!(m, "Category column not found"),
        other => panic!("unexpected {:?}", other),
    }
}

#[test]
fn unquote_strips_only_enclosing_quotes() {
    assert_eq!(unquote("\"abc\""), "abc");
    assert_eq!(unquote("\"abc"), "\"abc");
    assert_eq!(unquote("\""), "\"");
    assert_eq!(unquote("\"\""), "");
    assert_eq!(unquote("12"), "12");
}
