use vstd::prelude::*;
use vstd::string::*;

use crate::people::Pagination;

verus! {

/// The search that the typeahead box runs for `query`: the first ten matches,
/// or no search at all while the box is empty.
pub fn typeahead_pagination(query: String) -> (r: Option<Pagination>)
    ensures
        query@.len() == 0 ==> r is None,
        query@.len() != 0 ==> (r matches Some(p) && p.page == 1 && p.per_page == 10
            && p.search == Some(query)),
{
    if query.as_str().unicode_len() != 0 {
        Some(Pagination { page: 1, per_page: 10, search: Some(query) })
    } else {
        None
    }
}

/// The element id of the list entry that shows the person `id`.
pub fn result_element_id(id: &str) -> (r: String)
    ensures
        r@ == "search_result_"@ + id@,
{
    let mut s = String::from_str("search_result_");
    s.append(id);
    s
}

} // verus!
