use b30::{clean_text, generate_cache_key, key_from_lowered, BeerEntry};

#[test]
fn clean_text_collapses_whitespace_and_commas() {
    assert_eq!(clean_text("  Hello   World  ,  x "), "Hello World, x");
    assert_eq!(clean_text("a\t\nb"), "a b");
    assert_eq!(clean_text("   "), "");
    assert_eq!(clean_text(""), "");
    assert_eq!(clean_text("Portland , OR"), "Portland, OR");
}

#[test]
fn entry_from_raw_fields() {
    let e = BeerEntry::from_raw(
        7,
        "  Sierra  Nevada **Nitro** ",
        "Sierra Nevada  Pale Ale NITRO",
        "  ",
        " Pale   Ale ",
        "Chico ,  CA",
        "American  Pale Ale",
        12,
    );
    assert_eq!(e.tap_number, 7);
    assert_eq!(e.brewery, "Sierra Nevada");
    assert_eq!(e.name, "Pale Ale");
    assert_eq!(e.abv, "0.0");
    assert_eq!(e.category, "Pale Ale");
    assert_eq!(e.origin, "Chico, CA");
    assert_eq!(e.style, "American Pale Ale");
    assert_eq!(e.days_old, 12);
}

#[test]
fn entry_name_markers_removed_in_order() {
    let e = BeerEntry::from_raw(1, "", "**NITRO** Stout **Nitro** Nitro", "5.5%", "", "", "", 0);
    assert_eq!(e.name, "Stout");
    assert_eq!(e.brewery, "");
    assert_eq!(e.abv, "5.5%");
}

#[test]
fn cache_key_is_lowercase() {
    assert_eq!(generate_cache_key("Sierra Nevada", "Pale ALE"), "rating:sierra nevada:pale ale");
    assert_eq!(key_from_lowered("a b", "c"), "rating:a b:c");
    assert_eq!(generate_cache_key("", ""), "rating::");
}
