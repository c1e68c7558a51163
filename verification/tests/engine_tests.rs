use archwiki_rs::cache::create_cache_page_path;
use archwiki_rs::cache::is_cache_fresh;
use archwiki_rs::cache::sanitize_page_name;
use archwiki_rs::cache::should_use_cache;
use archwiki_rs::cache::DEFAULT_CACHE_TTL_SECS;
use archwiki_rs::dom::HtmlDocument;
use archwiki_rs::dom::HtmlNode;
use archwiki_rs::formats::PageFormat;
use archwiki_rs::suggest::get_top_pages;
use archwiki_rs::suggest::similarity_score;
use archwiki_rs::sync::category_name_of_link;
use archwiki_rs::sync::extract_category_links;
use archwiki_rs::sync::failed_categories;
use archwiki_rs::sync::merge_category_results;
use archwiki_rs::sync::Catalogue;
use archwiki_rs::sync::CategoryFetchResult;

fn anchor(href: &str) -> HtmlNode {
    HtmlNode::Element {
        tag: "a".to_owned(),
        attrs: vec![("href".to_owned(), href.to_owned())],
        children: vec![],
    }
}

#[test]
fn test_similarity_score_exact_value() {
    assert_eq!(similarity_score("kitten", "sitting"), 4);
    assert_eq!(similarity_score("abc", "abc"), 3);
    assert_eq!(similarity_score("abc", ""), 0);
    assert_eq!(similarity_score("abc", "xyz"), 0);
    assert_eq!(similarity_score("abc", "cba"), 1);
}

#[test]
fn test_suggestions_rank_higher_similarity_first() {
    let pages = vec!["zzz".to_owned(), "abc".to_owned(), "ab".to_owned()];
    let top = get_top_pages("abc", 5, &pages);
    assert_eq!(top, vec!["abc".to_owned(), "ab".to_owned(), "zzz".to_owned()]);
}

#[test]
fn test_suggestions_ties_keep_catalogue_order() {
    let pages = vec!["ax".to_owned(), "ay".to_owned()];
    let top = get_top_pages("a", 5, &pages);
    assert_eq!(top, vec!["ax".to_owned(), "ay".to_owned()]);

    let permuted = vec!["ay".to_owned(), "ax".to_owned()];
    let top2 = get_top_pages("a", 5, &permuted);
    assert_eq!(top2, vec!["ay".to_owned(), "ax".to_owned()]);
}

#[test]
fn test_suggestions_respect_limit() {
    let pages = vec!["one".to_owned(), "two".to_owned(), "three".to_owned()];
    let top = get_top_pages("o", 2, &pages);
    assert_eq!(top.len(), 2);
}

#[test]
fn test_cache_path_sanitized() {
    assert_eq!(sanitize_page_name("A page/name"), "A_page_name");
    assert_eq!(
        create_cache_page_path("A page/name", PageFormat::PlainText, "/tmp/cache"),
        "/tmp/cache/A_page_name.txt"
    );
    assert_eq!(
        create_cache_page_path("Arch", PageFormat::Markdown, "c"),
        "c/Arch.md"
    );
    assert_eq!(
        create_cache_page_path("Arch", PageFormat::Html, "c"),
        "c/Arch.html"
    );
}

#[test]
fn test_cache_freshness() {
    assert!(is_cache_fresh(0, DEFAULT_CACHE_TTL_SECS, false));
    assert!(is_cache_fresh(DEFAULT_CACHE_TTL_SECS, DEFAULT_CACHE_TTL_SECS, false));
    assert!(!is_cache_fresh(DEFAULT_CACHE_TTL_SECS + 1, DEFAULT_CACHE_TTL_SECS, false));
    assert!(is_cache_fresh(u64::MAX, DEFAULT_CACHE_TTL_SECS, true));
}

#[test]
fn test_should_use_cache() {
    assert!(should_use_cache(true, false, 0, 100, false));
    assert!(!should_use_cache(false, false, 0, 100, false));
    assert!(!should_use_cache(true, true, 0, 100, false));
    assert!(!should_use_cache(true, false, 101, 100, false));
    assert!(should_use_cache(true, false, 101, 100, true));
}

#[test]
fn test_merge_swallows_single_failures() {
    let results = vec![
        CategoryFetchResult {
            name: "Foo".to_owned(),
            titles: None,
        },
        CategoryFetchResult {
            name: "Bar".to_owned(),
            titles: Some(vec!["X".to_owned(), "Y".to_owned()]),
        },
    ];
    let catalogue = merge_category_results(&results);
    assert_eq!(
        catalogue.get("Bar"),
        Some(&vec!["X".to_owned(), "Y".to_owned()])
    );
    assert_eq!(catalogue.get("Foo"), None);
    assert_eq!(catalogue.category_count(), 1);

    assert_eq!(failed_categories(&results), vec!["Foo".to_owned()]);
}

#[test]
fn test_merge_last_write_wins() {
    let results = vec![
        CategoryFetchResult {
            name: "Dup".to_owned(),
            titles: Some(vec!["old".to_owned()]),
        },
        CategoryFetchResult {
            name: "Dup".to_owned(),
            titles: Some(vec!["new".to_owned()]),
        },
    ];
    let catalogue = merge_category_results(&results);
    assert_eq!(catalogue.get("Dup"), Some(&vec!["new".to_owned()]));
    assert_eq!(catalogue.category_count(), 1);
}

#[test]
fn test_catalogue_insert_overwrites() {
    let mut catalogue = Catalogue::new();
    catalogue.insert("A".to_owned(), vec!["x".to_owned()]);
    catalogue.insert("B".to_owned(), vec!["y".to_owned()]);
    catalogue.insert("A".to_owned(), vec!["z".to_owned()]);
    assert_eq!(catalogue.get("A"), Some(&vec!["z".to_owned()]));
    assert_eq!(catalogue.get("B"), Some(&vec!["y".to_owned()]));
    assert_eq!(catalogue.get("C"), None);
    assert_eq!(catalogue.category_count(), 2);
}

#[test]
fn test_category_name_of_link() {
    assert_eq!(
        category_name_of_link("/index.php/Category:Audio"),
        "Category:Audio"
    );
    assert_eq!(category_name_of_link("plain"), "plain");
    assert_eq!(category_name_of_link("trailing/"), "");
}

#[test]
fn test_extract_category_links_skips_self_reference() {
    let doc = HtmlDocument {
        roots: vec![HtmlNode::Element {
            tag: "div".to_owned(),
            attrs: vec![],
            children: vec![
                anchor("/index"),
                anchor("/index/A"),
                HtmlNode::Text("noise".to_owned()),
                anchor("/index/B"),
            ],
        }],
    };
    let links = extract_category_links(&doc);
    assert_eq!(links, vec!["/index/A".to_owned(), "/index/B".to_owned()]);
}

#[test]
fn test_extract_category_links_empty_document() {
    let doc = HtmlDocument { roots: vec![] };
    assert_eq!(extract_category_links(&doc).len(), 0);
}
