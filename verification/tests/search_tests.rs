use archwiki_rs::error::InvalidApiResponse as IAR;
use archwiki_rs::error::WikiError;
use archwiki_rs::search::fmt_open_search_plain;
use archwiki_rs::search::fmt_text_search_plain;
use archwiki_rs::search::open_search_is_page_exact_match;
use archwiki_rs::search::open_search_to_page_names;
use archwiki_rs::search::open_search_to_page_url_pairs;
use archwiki_rs::search::OpenSearchItem;
use archwiki_rs::search::OpenSearchItemParsed;
use archwiki_rs::search::TextSearchItem;

#[test]
fn test_process_open_search() {
    let valid_input = vec![
        OpenSearchItem::Single("test".to_owned()),
        OpenSearchItem::Array(vec!["name 1".to_owned(), "name 2".to_owned()]),
        OpenSearchItem::Array(vec![]),
        OpenSearchItem::Array(vec!["url 1".to_owned(), "url 2".to_owned()]),
    ];

    let missing_elements = vec![OpenSearchItem::Single("test".to_owned())];
    let not_arrays = vec![
        OpenSearchItem::Single("test".to_owned()),
        OpenSearchItem::Array(vec!["name 1".to_owned(), "name 2".to_owned()]),
        OpenSearchItem::Array(vec![]),
        OpenSearchItem::Single("invalid".to_owned()),
    ];
    let different_lengths = vec![
        OpenSearchItem::Single("test".to_owned()),
        OpenSearchItem::Array(vec!["name 1".to_owned()]),
        OpenSearchItem::Array(vec![]),
        OpenSearchItem::Array(vec!["url 1".to_owned(), "url 2".to_owned()]),
    ];

    assert_eq!(
        open_search_to_page_url_pairs(&valid_input).unwrap(),
        vec![
            OpenSearchItemParsed {
                title: "name 1".to_owned(),
                url: "url 1".to_owned()
            },
            OpenSearchItemParsed {
                title: "name 2".to_owned(),
                url: "url 2".to_owned()
            },
        ]
    );

    match open_search_to_page_url_pairs(&missing_elements).unwrap_err() {
        WikiError::InvalidApiResponse(res) => {
            assert_eq!(res, IAR::OpenSearchMissingNthElement(1));
        }
        _ => panic!("expected error to be of type 'InvalidApiResponse'"),
    }

    match open_search_to_page_url_pairs(&not_arrays).unwrap_err() {
        WikiError::InvalidApiResponse(res) => {
            assert_eq!(res, IAR::OpenSearchNthElementShouldBeArray(3));
        }
        _ => panic!("expected error to be of type 'InvalidApiResponse'"),
    }

    match open_search_to_page_url_pairs(&different_lengths).unwrap_err() {
        WikiError::InvalidApiResponse(res) => {
            assert_eq!(res, IAR::OpenSearchArraysLengthMismatch);
        }
        _ => panic!("expected error to be of type 'InvalidApiResponse'"),
    }
}

#[test]
fn test_format_open_search_table() {
    let pairs = vec![
        OpenSearchItemParsed {
            title: "page 1".to_owned(),
            url: "url 1".to_owned(),
        },
        OpenSearchItemParsed {
            title: "page 2".to_owned(),
            url: "url 2".to_owned(),
        },
        OpenSearchItemParsed {
            title: "page 3".to_owned(),
            url: "url 3".to_owned(),
        },
    ];

    let res = fmt_open_search_plain(&pairs);
    let res_row_count = res.split('\n').collect::<Vec<_>>().len();
    let third_page = res
        .split('\n')
        .nth(3)
        .unwrap()
        .split('|')
        .next()
        .unwrap()
        .trim();

    assert_eq!(res_row_count, 4);
    assert_eq!(third_page, "page 3");
}

#[test]
fn test_format_text_search_table() {
    let items = vec![
        TextSearchItem {
            title: "page 1".to_owned(),
            snippet: "snippet 1".to_owned(),
        },
        TextSearchItem {
            title: "page 2".to_owned(),
            snippet: "snippet 2".to_owned(),
        },
        TextSearchItem {
            title: "page 3".to_owned(),
            snippet: "snippet 3".to_owned(),
        },
        TextSearchItem {
            title: "page 4".to_owned(),
            snippet: "snippet 4".to_owned(),
        },
    ];

    let res = fmt_text_search_plain(&items);
    let res_row_count = res.split('\n').collect::<Vec<_>>().len();
    let third_page = res
        .split('\n')
        .nth(3)
        .unwrap()
        .split('|')
        .nth(1)
        .unwrap()
        .trim();

    assert_eq!(res_row_count, 5);
    assert_eq!(third_page, "snippet 3");
}

#[test]
fn test_open_search_to_page_names() {
    let input = vec![
        OpenSearchItem::Single("query".to_owned()),
        OpenSearchItem::Array(vec!["One".to_owned(), "Two".to_owned()]),
    ];
    assert_eq!(
        open_search_to_page_names(&input).unwrap(),
        vec!["One".to_owned(), "Two".to_owned()]
    );

    let too_short: Vec<OpenSearchItem> = vec![];
    match open_search_to_page_names(&too_short).unwrap_err() {
        WikiError::InvalidApiResponse(res) => {
            assert_eq!(res, IAR::OpenSearchMissingNthElement(1));
        }
        _ => panic!("expected error to be of type 'InvalidApiResponse'"),
    }

    let not_array = vec![
        OpenSearchItem::Single("query".to_owned()),
        OpenSearchItem::Single("oops".to_owned()),
    ];
    match open_search_to_page_names(&not_array).unwrap_err() {
        WikiError::InvalidApiResponse(res) => {
            assert_eq!(res, IAR::OpenSearchNthElementShouldBeArray(1));
        }
        _ => panic!("expected error to be of type 'InvalidApiResponse'"),
    }
}

#[test]
fn test_open_search_exact_match() {
    let input = vec![
        OpenSearchItem::Single("Arch".to_owned()),
        OpenSearchItem::Array(vec!["Arch".to_owned(), "Arch Linux".to_owned()]),
    ];
    assert_eq!(open_search_is_page_exact_match("Arch", &input).unwrap(), Some("Arch"));
    assert_eq!(open_search_is_page_exact_match("arch", &input).unwrap(), None);

    let empty_names = vec![
        OpenSearchItem::Single("Arch".to_owned()),
        OpenSearchItem::Array(vec![]),
    ];
    assert_eq!(open_search_is_page_exact_match("Arch", &empty_names).unwrap(), None);
}

#[test]
fn test_open_search_table_header() {
    let res = fmt_open_search_plain(&[]);
    let first = res.split('\n').next().unwrap();
    assert!(first.starts_with("PAGE"));
    assert!(first.contains(" | "));
    assert!(first.contains("URL"));
}
