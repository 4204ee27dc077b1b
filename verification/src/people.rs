use vstd::prelude::*;
use vstd::string::*;

verus! {

/// Which page of the people directory is asked for, how large a page is, and
/// the optional search text.
#[derive(Clone, Debug)]
pub struct Pagination {
    pub page: i64,
    pub per_page: i64,
    pub search: Option<String>,
}

/// One row of the `people` table.
#[derive(Debug)]
pub struct Person {
    pub rowid: i64,
    pub id: String,
    pub first_name: String,
    pub last_name: String,
}

/// One hit of the full-text search: the person's id and display name.
#[derive(Debug)]
pub struct SearchResult {
    pub id: String,
    pub name: String,
}

/// The number of rows that come before page `page` when each page holds
/// `per_page` rows (pages count from 1).
pub open spec fn spec_offset(page: int, per_page: int) -> int {
    (page - 1) * per_page
}

/// Pages tile the list: the page after `page` starts right where `page`
/// ends, `per_page` rows later, so no row is skipped or shown twice.
pub proof fn consecutive_pages_adjoin(page: int, per_page: int)
    ensures
        spec_offset(page + 1, per_page) == spec_offset(page, per_page) + per_page,
{
    assert(page * per_page == (page - 1) * per_page + per_page) by (nonlinear_arith);
}

impl Pagination {
    /// The offset of this page fits in an `i64`.
    pub open spec fn offset_fits(&self) -> bool {
        &&& self.page > i64::MIN
        &&& i64::MIN <= spec_offset(self.page as int, self.per_page as int) <= i64::MAX
    }

    /// The number of rows to skip before this page starts.
    pub fn offset(&self) -> (r: i64)
        requires
            self.offset_fits(),
        ensures
            r == spec_offset(self.page as int, self.per_page as int),
    {
        (self.page - 1) * self.per_page
    }

    /// The page that follows, when the page just read was full.
    pub fn next_page(&self, records: &[Person]) -> (r: Option<i64>)
        requires
            records.len() == self.per_page ==> self.page < i64::MAX,
        ensures
            records.len() == self.per_page ==> r == Some((self.page + 1) as i64),
            records.len() != self.per_page ==> r is None,
    {
        if self.per_page >= 0 && records.len() as u64 == self.per_page as u64 {
            Some(self.page + 1)
        } else {
            None
        }
    }
}

/// How many rows a query takes and how many it skips first.
#[derive(Debug)]
pub struct PageWindow {
    pub limit: i64,
    pub offset: i64,
}

/// What the full-text search asks of the `people_fts` table: rows whose last or
/// first name matches `pattern` (the search text as a prefix pattern), ordered by
/// last then first name, within `window`.
#[derive(Debug)]
pub struct SearchQuery {
    pub pattern: String,
    pub window: PageWindow,
}

impl Pagination {
    /// The rows of this page: `per_page` rows after `offset()` of them.
    pub fn window(&self) -> (w: PageWindow)
        requires
            self.offset_fits(),
        ensures
            w.limit == self.per_page,
            w.offset == spec_offset(self.page as int, self.per_page as int),
    {
        PageWindow { limit: self.per_page, offset: self.offset() }
    }
}

/// The full-text query for a search: the search text followed by `*`, so that
/// it matches every name that starts with it, over this page's window.
pub fn search_query(pagination: &Pagination) -> (q: SearchQuery)
    requires
        pagination.search is Some,
        pagination.offset_fits(),
    ensures
        q.pattern@ == pagination.search->0@ + "*"@,
        q.window.limit == pagination.per_page,
        q.window.offset == spec_offset(pagination.page as int, pagination.per_page as int),
{
    let search = pagination.search.as_ref().unwrap();
    let mut pattern = String::from_str(search.as_str());
    pattern.append("*");
    SearchQuery { pattern, window: pagination.window() }
}

#[verifier::external_type_specification]
#[verifier::external_body]
pub struct ExRegex(regex::Regex);

#[verifier::external_type_specification]
#[verifier::external_body]
pub struct ExRegexError(regex::Error);

/// Whether `regex::Regex::new` accepts `pattern` (its syntax is valid and the
/// compiled program stays within the default size limit).
pub uninterp spec fn regex_compiles(pattern: Seq<char>) -> bool;

/// What `replace_all` of the regex compiled from `pattern` gives for
/// `haystack` and the replacement template `replacement`.
pub uninterp spec fn regex_replace_all(
    pattern: Seq<char>,
    haystack: Seq<char>,
    replacement: Seq<char>,
) -> Seq<char>;

/// A compiled regular expression together with the pattern it was compiled
/// from. Only `compile_regex` makes one, so `pattern()` is always the source of
/// `regex`.
pub struct CompiledRegex {
    regex: regex::Regex,
    pattern: Ghost<Seq<char>>,
}

impl CompiledRegex {
    /// The pattern this regex was compiled from.
    pub closed spec fn pattern(&self) -> Seq<char> {
        self.pattern@
    }
}

/// Compiles `pattern` with `regex::Regex::new`. Trusted: the result is `Ok`
/// exactly when `regex_compiles(pattern)`, and the compiled regex remembers
/// `pattern`. Which patterns compile is left to that name.
#[verifier::external_body]
fn compile_regex(pattern: &str) -> (r: Result<CompiledRegex, regex::Error>)
    ensures
        r is Ok <==> regex_compiles(pattern@),
        r matches Ok(c) ==> c.pattern() == pattern@,
{
    match regex::Regex::new(pattern) {
        Ok(regex) => Ok(CompiledRegex { regex, pattern: Ghost(pattern@) }),
        Err(e) => Err(e),
    }
}

/// Replaces every non-overlapping match of `re` in `haystack` with the
/// expansion of `replacement` (`Regex::replace_all`). Trusted: the result is
/// `regex_replace_all` of the pattern, the haystack and the replacement; what
/// that is takes the regex crate's semantics and is not stated.
#[verifier::external_body]
fn regex_replace(re: &CompiledRegex, haystack: &str, replacement: &str) -> (r: String)
    ensures
        r@ == regex_replace_all(re.pattern(), haystack@, replacement@),
{
    re.regex.replace_all(haystack, replacement).into_owned()
}

/// Why a search could not be highlighted.
#[derive(Debug, PartialEq, Eq, Structural)]
pub enum SearchError {
    /// The search text does not make a valid regular expression.
    InvalidPattern,
}

/// The case-insensitive pattern that finds the search text in a name, with the
/// whole match as group 1.
pub open spec fn highlight_pattern(search: Seq<char>) -> Seq<char> {
    "((?i)"@ + search + ")"@
}

/// The replacement that wraps each match in a `<mark>` element.
pub open spec fn highlight_template() -> Seq<char> {
    "<mark>$1</mark>"@
}

/// A name with every case-insensitive occurrence of the search text marked.
pub open spec fn highlighted(search: Seq<char>, name: Seq<char>) -> Seq<char> {
    regex_replace_all(highlight_pattern(search), name, highlight_template())
}

/// The highlighting pattern holds the whole search text, between the
/// case-insensitive group opener `((?i)` and the closing `)`, and each name
/// is rewritten by that pattern with the `<mark>` template.
pub proof fn highlight_uses_whole_search(search: Seq<char>, name: Seq<char>)
    ensures
        highlight_pattern(search).len() == search.len() + 6,
        highlight_pattern(search).subrange(5, 5 + search.len() as int) == search,
        highlight_pattern(search) == "((?i)"@ + search + ")"@,
        highlighted(search, name) == regex_replace_all(
            "((?i)"@ + search + ")"@,
            name,
            "<mark>$1</mark>"@,
        ),
{
    reveal_strlit("((?i)");
    reveal_strlit(")");
    assert(highlight_pattern(search).subrange(5, 5 + search.len() as int) =~= search);
}

/// The search result with its name replaced by `name`, the id kept.
pub fn with_name(result: &SearchResult, name: String) -> (r: SearchResult)
    ensures
        r.id@ == result.id@,
        r.name@ == name@,
{
    SearchResult { id: result.id.clone(), name }
}

/// Marks, in each result's name, every case-insensitive occurrence of the
/// search text with `<mark>`. Fails when the search text does not form a valid
/// pattern.
pub fn highlight_results(search: &str, results: &Vec<SearchResult>) -> (r: Result<
    Vec<SearchResult>,
    SearchError,
>)
    ensures
        r is Ok <==> regex_compiles(highlight_pattern(search@)),
        r matches Ok(v) ==> v.len() == results.len(),
        r matches Ok(v) ==> forall|i: int|
            #![trigger v@[i]]
            0 <= i < results.len() ==> v@[i].id@ == results@[i].id@ && v@[i].name@ == highlighted(
                search@,
                results@[i].name@,
            ),
        r matches Err(e) ==> e == SearchError::InvalidPattern,
        r is Ok <==> regex_compiles("((?i)"@ + search@ + ")"@),
        r matches Ok(v) ==> forall|i: int|
            #![trigger v@[i]]
            0 <= i < results.len() ==> v@[i].name@ == regex_replace_all(
                "((?i)"@ + search@ + ")"@,
                results@[i].name@,
                "<mark>$1</mark>"@,
            ),
{
    let mut pattern = String::from_str("((?i)");
    pattern.append(search);
    pattern.append(")");
    let re = match compile_regex(pattern.as_str()) {
        Ok(re) => re,
        Err(_) => {
            return Err(SearchError::InvalidPattern);
        },
    };
    let template = "<mark>$1</mark>";
    let mut out: Vec<SearchResult> = Vec::new();
    let mut i: usize = 0;
    while i < results.len()
        invariant
            i <= results.len(),
            out.len() == i,
            re.pattern() == highlight_pattern(search@),
            template@ == highlight_template(),
            forall|j: int|
                #![trigger out@[j]]
                0 <= j < i ==> out@[j].id@ == results@[j].id@ && out@[j].name@ == highlighted(
                    search@,
                    results@[j].name@,
                ),
        decreases results.len() - i,
    {
        let name = regex_replace(&re, results[i].name.as_str(), template);
        out.push(with_name(&results[i], name));
        i = i + 1;
    }
    Ok(out)
}

impl Default for Pagination {
    /// The first page of a hundred people, with no search.
    fn default() -> (r: Self)
        ensures
            r.page == 1,
            r.per_page == 100,
            r.search is None,
    {
        Pagination { page: 1, per_page: 100, search: None }
    }
}

} // verus!
