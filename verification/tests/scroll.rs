use rust_web_demo::people::{Pagination, Person};
use rust_web_demo::scroll::{page_url, pager_links, requested_pagination};
use rust_web_demo::typeahead::{result_element_id, typeahead_pagination};

fn person(n: i64) -> Person {
    Person {
        rowid: n,
        id: format!("p{n}"),
        first_name: "F".to_string(),
        last_name: "L".to_string(),
    }
}

#[test]
fn page_url_writes_decimal_numbers() {
    assert_eq!(page_url(2, 100), "/infinite-scroll/page?page=2&per_page=100");
    assert_eq!(page_url(0, 7), "/infinite-scroll/page?page=0&per_page=7");
    assert_eq!(page_url(-42, 10), "/infinite-scroll/page?page=-42&per_page=10");
    assert_eq!(
        page_url(i64::MIN, i64::MAX),
        "/infinite-scroll/page?page=-9223372036854775808&per_page=9223372036854775807"
    );
}

#[test]
fn last_row_of_full_page_links_next_page() {
    let p = Pagination { page: 1, per_page: 3, search: None };
    let records = vec![person(1), person(2), person(3)];
    let links = pager_links(&p, &records);
    assert_eq!(
        links,
        vec![None, None, Some("/infinite-scroll/page?page=2&per_page=3".to_string())]
    );
}

#[test]
fn short_page_links_nothing() {
    let p = Pagination { page: 5, per_page: 3, search: None };
    let records = vec![person(1), person(2)];
    assert_eq!(pager_links(&p, &records), vec![None, None]);
    assert!(pager_links(&p, &[]).is_empty());
}

#[test]
fn missing_pagination_means_first_page() {
    let p = requested_pagination(None);
    assert_eq!((p.page, p.per_page, p.search.is_none()), (1, 100, true));
    let asked = Pagination { page: 3, per_page: 20, search: None };
    let q = requested_pagination(Some(asked));
    assert_eq!((q.page, q.per_page), (3, 20));
}

#[test]
fn empty_query_searches_nothing() {
    assert!(typeahead_pagination(String::new()).is_none());
}

#[test]
fn typeahead_asks_for_first_ten() {
    let p = typeahead_pagination("jo".to_string()).unwrap();
    assert_eq!(p.page, 1);
    assert_eq!(p.per_page, 10);
    assert_eq!(p.search.as_deref(), Some("jo"));
}

#[test]
fn result_element_id_prefixes_id() {
    assert_eq!(result_element_id("V1StGXR8_Z5jdHi6B-myT"), "search_result_V1StGXR8_Z5jdHi6B-myT");
}
