use rust_web_demo::people::{
    highlight_results, search_query, with_name, Pagination, Person, SearchError, SearchResult,
};

fn person(n: i64) -> Person {
    Person {
        rowid: n,
        id: format!("id{n}"),
        first_name: "First".to_string(),
        last_name: "Last".to_string(),
    }
}

fn result(id: &str, name: &str) -> SearchResult {
    SearchResult { id: id.to_string(), name: name.to_string() }
}

#[test]
fn default_pagination_is_first_page_of_hundred() {
    let p = Pagination::default();
    assert_eq!(p.page, 1);
    assert_eq!(p.per_page, 100);
    assert!(p.search.is_none());
}

#[test]
fn offset_skips_earlier_pages() {
    let first = Pagination { page: 1, per_page: 100, search: None };
    assert_eq!(first.offset(), 0);
    let third = Pagination { page: 3, per_page: 25, search: None };
    assert_eq!(third.offset(), 50);
    let w = third.window();
    assert_eq!(w.limit, 25);
    assert_eq!(w.offset, 50);
}

#[test]
fn full_page_has_a_next_page() {
    let p = Pagination { page: 4, per_page: 3, search: None };
    let records = vec![person(1), person(2), person(3)];
    assert_eq!(p.next_page(&records), Some(5));
}

#[test]
fn short_page_is_the_last() {
    let p = Pagination { page: 4, per_page: 3, search: None };
    let records = vec![person(1), person(2)];
    assert_eq!(p.next_page(&records), None);
    assert_eq!(p.next_page(&[]), None);
}

#[test]
fn search_query_matches_prefixes() {
    let p = Pagination { page: 2, per_page: 10, search: Some("ann".to_string()) };
    let q = search_query(&p);
    assert_eq!(q.pattern, "ann*");
    assert_eq!(q.window.limit, 10);
    assert_eq!(q.window.offset, 10);
}

#[test]
fn highlight_marks_match_ignoring_case() {
    let results = vec![result("a1", "Abbot")];
    let out = highlight_results("abb", &results).unwrap();
    assert_eq!(out.len(), 1);
    assert_eq!(out[0].id, "a1");
    assert_eq!(out[0].name, "<mark>Abb</mark>ot");
}

#[test]
fn highlight_marks_every_occurrence() {
    let results = vec![result("x", "Ann, Joanne"), result("y", "Smith, Bob")];
    let out = highlight_results("ann", &results).unwrap();
    assert_eq!(out[0].name, "<mark>Ann</mark>, Jo<mark>ann</mark>e");
    assert_eq!(out[1].name, "Smith, Bob");
    assert_eq!(out[1].id, "y");
}

#[test]
fn highlight_rejects_invalid_pattern() {
    let results = vec![result("x", "Ann")];
    assert!(matches!(highlight_results("(", &results), Err(SearchError::InvalidPattern)));
}

#[test]
fn with_name_keeps_the_id() {
    let r = with_name(&result("id7", "Doe, Jane"), "<mark>Do</mark>e, Jane".to_string());
    assert_eq!(r.id, "id7");
    assert_eq!(r.name, "<mark>Do</mark>e, Jane");
}

#[test]
fn consecutive_pages_adjoin_on_concrete_pages() {
    let second = Pagination { page: 2, per_page: 40, search: None };
    let third = Pagination { page: 3, per_page: 40, search: None };
    assert_eq!(third.offset(), second.offset() + second.per_page);
}
