use vstd::prelude::*;
use vstd::string::*;

use crate::people::{Pagination, Person};
use crate::text::{append_decimal, decimal};

verus! {

/// The address that loads page `page` of `per_page` rows into the
/// infinite-scroll list.
pub open spec fn spec_page_url(page: int, per_page: int) -> Seq<char> {
    "/infinite-scroll/page?page="@ + decimal(page) + "&per_page="@ + decimal(per_page)
}

/// The address of page `page` of `per_page` rows.
pub fn page_url(page: i64, per_page: i64) -> (r: String)
    ensures
        r@ == spec_page_url(page as int, per_page as int),
{
    let mut url = String::from_str("/infinite-scroll/page?page=");
    append_decimal(&mut url, page);
    url.append("&per_page=");
    append_decimal(&mut url, per_page);
    url
}

/// The pagination that a page request asks for, or the first page when it
/// names none.
pub fn requested_pagination(requested: Option<Pagination>) -> (r: Pagination)
    ensures
        requested matches Some(p) ==> r == p,
        requested is None ==> r.page == 1 && r.per_page == 100 && r.search is None,
{
    match requested {
        Some(p) => p,
        None => Pagination::default(),
    }
}

/// What the pager puts on each row of a page: the last row of a full page
/// carries the address of the next page, which the browser loads once that row
/// scrolls into view; every other row carries none.
pub open spec fn row_link_spec(pagination: Pagination, len: int, i: int) -> Option<Seq<char>> {
    if i == len - 1 && len == pagination.per_page {
        Some(spec_page_url(pagination.page + 1, pagination.per_page as int))
    } else {
        None
    }
}

/// Only the last row of a full page carries a link, and it links the page
/// after this one with the same page size: a short page (the end of the list)
/// links nothing.
pub proof fn only_full_pages_link_onward(pagination: Pagination, len: int, i: int)
    ensures
        row_link_spec(pagination, len, i) is Some ==> len == pagination.per_page && i == len - 1,
        len != pagination.per_page ==> row_link_spec(pagination, len, i) is None,
        len == pagination.per_page && i == len - 1 ==> row_link_spec(pagination, len, i) == Some(
            spec_page_url(pagination.page + 1, pagination.per_page as int),
        ),
{
}

/// For each of `records`, the next-page address that its row carries, if any.
pub fn pager_links(pagination: &Pagination, records: &[Person]) -> (r: Vec<Option<String>>)
    requires
        records.len() == pagination.per_page ==> pagination.page < i64::MAX,
    ensures
        r.len() == records.len(),
        forall|i: int|
            0 <= i < records.len() ==> (match #[trigger] r@[i] {
                Some(s) => row_link_spec(*pagination, records.len() as int, i) == Some(s@),
                None => row_link_spec(*pagination, records.len() as int, i) is None,
            }),
        records.len() != pagination.per_page ==> forall|i: int|
            0 <= i < records.len() ==> #[trigger] r@[i] is None,
        forall|i: int| 0 <= i < records.len() - 1 ==> #[trigger] r@[i] is None,
        records.len() == pagination.per_page && records.len() > 0 ==> (r@[records.len() - 1] matches Some(
            s,
        ) && s@ == spec_page_url(pagination.page + 1, pagination.per_page as int)),
{
    let n = records.len();
    let mut links: Vec<Option<String>> = Vec::new();
    let mut i: usize = 0;
    while i < n
        invariant
            n == records.len(),
            i <= n,
            links.len() == i,
            records.len() == pagination.per_page ==> pagination.page < i64::MAX,
            forall|j: int|
                0 <= j < i ==> (match #[trigger] links@[j] {
                    Some(s) => row_link_spec(*pagination, n as int, j) == Some(s@),
                    None => row_link_spec(*pagination, n as int, j) is None,
                }),
        decreases n - i,
    {
        if i != n - 1 {
            links.push(None);
        } else {
            match pagination.next_page(records) {
                Some(next) => links.push(Some(page_url(next, pagination.per_page))),
                None => links.push(None),
            }
        }
        i = i + 1;
    }
    links
}

} // verus!
