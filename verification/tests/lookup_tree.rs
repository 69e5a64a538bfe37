use layer_cache::lookup::{find_in_row, find_named_subpath};

fn rows(data: &[&[&str]]) -> Vec<Vec<String>> {
    data.iter().map(|row| row.iter().map(|s| String::from(*s)).collect()).collect()
}

#[test]
fn finds_grandchild_containing_name() {
    let listings = rows(&[
        &["cache/ab12cd/other"],
        &["cache/ff00aa/configs", "cache/ff00aa/extra"],
    ]);
    let found = find_named_subpath(&listings, "configs");
    assert_eq!(found, Some(String::from("cache/ff00aa/configs")));
}

#[test]
fn returns_first_match_in_listing_order() {
    let listings = rows(&[
        &["cache/a/none", "cache/a/configs-one"],
        &["cache/b/configs-two"],
    ]);
    let found = find_named_subpath(&listings, "configs");
    assert_eq!(found, Some(String::from("cache/a/configs-one")));
}

#[test]
fn no_listed_path_means_no_match() {
    let listings = rows(&[&["cache/ab12cd/other"], &["cache/ff00aa/extra"]]);
    assert_eq!(find_named_subpath(&listings, "configs"), None);
}

#[test]
fn match_below_listed_depth_is_not_found() {
    // The artifact sits one level deeper than the lookup walks: the
    // grandchild listings hold only "cache/ab12cd/sub", and the deeper
    // "cache/ab12cd/sub/configs" is never listed, so nothing is found.
    let listings = rows(&[&["cache/ab12cd/sub"]]);
    assert_eq!(find_named_subpath(&listings, "configs"), None);
}

#[test]
fn empty_listings_find_nothing() {
    let listings: Vec<Vec<String>> = Vec::new();
    assert_eq!(find_named_subpath(&listings, "configs"), None);
    let one_empty = rows(&[&[]]);
    assert_eq!(find_named_subpath(&one_empty, "configs"), None);
}

#[test]
fn row_search_returns_first_containing_path() {
    let row = vec![
        String::from("cache/x/alpha"),
        String::from("cache/x/configs"),
        String::from("cache/x/configs-too"),
    ];
    assert_eq!(find_in_row(&row, "configs"), Some(String::from("cache/x/configs")));
}
