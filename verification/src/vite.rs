use vstd::prelude::*;
use vstd::string::*;

use crate::text::{
    lemma_seq_lt_irreflexive, lemma_seq_lt_transitive, seq_ends_with, seq_lt, str_ends_with, str_eq,
    str_lt,
};

verus! {

/// One chunk of the Vite build manifest: the emitted file, the stylesheets it
/// needs and the keys of the chunks it imports.
#[derive(Debug)]
pub struct ManifestChunk {
    pub file: String,
    pub css: Vec<String>,
    pub imports: Vec<String>,
}

/// A manifest key (the source file) with its chunk.
#[derive(Debug)]
pub struct ManifestEntry {
    pub key: String,
    pub chunk: ManifestChunk,
}

/// What a chunk holds, as text.
pub struct ChunkView {
    pub file: Seq<char>,
    pub css: Seq<Seq<char>>,
    pub imports: Seq<Seq<char>>,
}

/// A key and its chunk, as text.
pub struct EntryView {
    pub key: Seq<char>,
    pub chunk: ChunkView,
}

impl View for ManifestChunk {
    type V = ChunkView;

    open spec fn view(&self) -> ChunkView {
        ChunkView { file: self.file@, css: self.css.deep_view(), imports: self.imports.deep_view() }
    }
}

impl View for ManifestEntry {
    type V = EntryView;

    open spec fn view(&self) -> EntryView {
        EntryView { key: self.key@, chunk: self.chunk@ }
    }
}

/// The keys come in strictly increasing order, as a `BTreeMap` yields them.
pub open spec fn keys_ascending(entries: Seq<EntryView>) -> bool {
    forall|i: int| 0 <= i < entries.len() - 1 ==> seq_lt(#[trigger] entries[i].key, entries[i + 1].key)
}

/// The Vite build manifest: a map from source keys to chunks, held in the
/// map's key order.
pub struct Manifest {
    entries: Vec<ManifestEntry>,
}

impl View for Manifest {
    type V = Seq<EntryView>;

    closed spec fn view(&self) -> Seq<EntryView> {
        self.entries@.map_values(|e: ManifestEntry| e@)
    }
}

impl Manifest {
    #[verifier::type_invariant]
    spec fn keys_in_order(&self) -> bool {
        keys_ascending(self@)
    }

    /// The manifest of `entries`, provided their keys are in strictly
    /// increasing order (so that no key occurs twice).
    pub fn new(entries: Vec<ManifestEntry>) -> (r: Option<Manifest>)
        ensures
            r is Some <==> keys_ascending(entries@.map_values(|e: ManifestEntry| e@)),
            r matches Some(m) ==> m@ == entries@.map_values(|e: ManifestEntry| e@),
    {
        let ghost view = entries@.map_values(|e: ManifestEntry| e@);
        let n = entries.len();
        let mut i: usize = 1;
        while i < n
            invariant
                n == entries.len(),
                view == entries@.map_values(|e: ManifestEntry| e@),
                1 <= i,
                forall|j: int| 0 <= j < i - 1 && j < n - 1 ==> seq_lt(#[trigger] view[j].key, view[j + 1].key),
            decreases n - i,
        {
            if !str_lt(entries[i - 1].key.as_str(), entries[i].key.as_str()) {
                assert(!seq_lt(view[i - 1].key, view[i as int].key));
                return None;
            }
            i = i + 1;
        }
        Some(Manifest { entries })
    }

    /// The number of entries. Every manifest keeps its keys in strictly
    /// increasing order, which this also states.
    pub fn len(&self) -> (n: usize)
        ensures
            n == self@.len(),
            keys_ascending(self@),
    {
        proof {
            use_type_invariant(self);
        }
        self.entries.len()
    }
}

/// The first position, from `k` on, whose key is `key`.
pub open spec fn key_index_from(m: Seq<EntryView>, key: Seq<char>, k: nat) -> Option<nat>
    decreases m.len() - k,
{
    if k >= m.len() {
        None
    } else if m[k as int].key == key {
        Some(k)
    } else {
        key_index_from(m, key, k + 1)
    }
}

proof fn lemma_ascending_pairs(entries: Seq<EntryView>, i: int, j: int)
    requires
        keys_ascending(entries),
        0 <= i < j < entries.len(),
    ensures
        seq_lt(entries[i].key, entries[j].key),
    decreases j - i,
{
    if j > i + 1 {
        lemma_ascending_pairs(entries, i, j - 1);
        lemma_seq_lt_transitive(entries[i].key, entries[j - 1].key, entries[j].key);
    }
}

/// In a manifest no key occurs twice: the keys of any two distinct entries
/// differ.
pub proof fn manifest_keys_distinct(entries: Seq<EntryView>, i: int, j: int)
    requires
        keys_ascending(entries),
        0 <= i < entries.len(),
        0 <= j < entries.len(),
        i != j,
    ensures
        entries[i].key != entries[j].key,
{
    if i < j {
        lemma_ascending_pairs(entries, i, j);
        if entries[i].key == entries[j].key {
            lemma_seq_lt_irreflexive(entries[i].key);
        }
    } else {
        lemma_ascending_pairs(entries, j, i);
        if entries[i].key == entries[j].key {
            lemma_seq_lt_irreflexive(entries[i].key);
        }
    }
}

/// The position of the entry whose key is `key`.
pub open spec fn key_index(m: Seq<EntryView>, key: Seq<char>) -> Option<nat> {
    key_index_from(m, key, 0)
}

/// The entry's key or its file ends with `name`.
pub open spec fn loosely_matches(e: EntryView, name: Seq<char>) -> bool {
    seq_ends_with(e.key, name) || seq_ends_with(e.chunk.file, name)
}

/// The first position, from `k` on, whose entry loosely matches `name`.
pub open spec fn loose_index_from(m: Seq<EntryView>, name: Seq<char>, k: nat) -> Option<nat>
    decreases m.len() - k,
{
    if k >= m.len() {
        None
    } else if loosely_matches(m[k as int], name) {
        Some(k)
    } else {
        loose_index_from(m, name, k + 1)
    }
}

/// Where the entry for the source `name` stands: the entry with exactly that
/// key, or else the first entry in key order whose key or file ends with
/// `name`.
pub open spec fn find_key_spec(m: Seq<EntryView>, name: Seq<char>) -> Option<nat> {
    match key_index(m, name) {
        Some(i) => Some(i),
        None => loose_index_from(m, name, 0),
    }
}

/// The position of the entry with key `key`.
fn lookup(manifest: &Manifest, key: &str) -> (r: Option<usize>)
    ensures
        r matches Some(i) ==> key_index(manifest@, key@) == Some(i as nat) && i < manifest@.len(),
        r is None ==> key_index(manifest@, key@) is None,
{
    let n = manifest.entries.len();
    let mut i: usize = 0;
    while i < n
        invariant
            n == manifest@.len(),
            i <= n,
            key_index(manifest@, key@) == key_index_from(manifest@, key@, i as nat),
        decreases n - i,
    {
        if str_eq(manifest.entries[i].key.as_str(), key) {
            return Some(i);
        }
        i = i + 1;
    }
    None
}

/// Finds the manifest entry for the source file `source_name`: the entry
/// keyed by it, or else the first entry whose key or emitted file ends with
/// it.
pub fn find_key(manifest: &Manifest, source_name: &str) -> (r: Option<usize>)
    ensures
        r matches Some(i) ==> find_key_spec(manifest@, source_name@) == Some(i as nat),
        r is None ==> find_key_spec(manifest@, source_name@) is None,
        keys_ascending(manifest@),
{
    proof {
        use_type_invariant(manifest);
    }
    if let Some(i) = lookup(manifest, source_name) {
        return Some(i);
    }
    let n = manifest.entries.len();
    let mut i: usize = 0;
    while i < n
        invariant
            n == manifest@.len(),
            i <= n,
            find_key_spec(manifest@, source_name@) == loose_index_from(manifest@, source_name@, i as nat),
            keys_ascending(manifest@),
        decreases n - i,
    {
        let entry = &manifest.entries[i];
        if str_ends_with(entry.key.as_str(), source_name) || str_ends_with(
            entry.chunk.file.as_str(),
            source_name,
        ) {
            return Some(i);
        }
        i = i + 1;
    }
    None
}

proof fn lemma_key_index_from_in_range(m: Seq<EntryView>, key: Seq<char>, k: nat)
    ensures
        key_index_from(m, key, k) matches Some(i) ==> k <= i < m.len() && m[i as int].key == key,
    decreases m.len() - k,
{
    if k < m.len() && m[k as int].key != key {
        lemma_key_index_from_in_range(m, key, k + 1);
    }
}

proof fn lemma_loose_index_from_in_range(m: Seq<EntryView>, name: Seq<char>, k: nat)
    ensures
        loose_index_from(m, name, k) matches Some(i) ==> k <= i < m.len(),
    decreases m.len() - k,
{
    if k < m.len() && !loosely_matches(m[k as int], name) {
        lemma_loose_index_from_in_range(m, name, k + 1);
    }
}

proof fn lemma_find_key_in_range(m: Seq<EntryView>, name: Seq<char>)
    ensures
        find_key_spec(m, name) matches Some(i) ==> i < m.len(),
{
    lemma_key_index_from_in_range(m, name, 0);
    lemma_loose_index_from_in_range(m, name, 0);
}

/// `values` followed by each of `additions` that is not already there, in
/// order, each taken once.
pub open spec fn append_unique_spec(values: Seq<Seq<char>>, additions: Seq<Seq<char>>) -> Seq<
    Seq<char>,
>
    decreases additions.len(),
{
    if additions.len() == 0 {
        values
    } else {
        let v = append_unique_spec(values, additions.drop_last());
        if v.contains(additions.last()) {
            v
        } else {
            v.push(additions.last())
        }
    }
}

/// Whether `values` holds `s`.
fn contains_string(values: &Vec<String>, s: &String) -> (r: bool)
    ensures
        r == values.deep_view().contains(s@),
{
    let mut k: usize = 0;
    while k < values.len()
        invariant
            k <= values.len(),
            forall|j: int| 0 <= j < k ==> values.deep_view()[j] != s@,
        decreases values.len() - k,
    {
        if values[k] == *s {
            assert(values.deep_view()[k as int] == s@);
            return true;
        }
        k = k + 1;
    }
    false
}

/// Appends to `values` each of `additions` that it does not hold yet.
pub fn append_unique(values: &mut Vec<String>, additions: &Vec<String>)
    ensures
        final(values).deep_view() == append_unique_spec(old(values).deep_view(), additions.deep_view()),
{
    let ghost start = values.deep_view();
    let mut i: usize = 0;
    while i < additions.len()
        invariant
            i <= additions.len(),
            values.deep_view() == append_unique_spec(start, additions.deep_view().take(i as int)),
        decreases additions.len() - i,
    {
        proof {
            assert(additions.deep_view().take(i + 1).drop_last() =~= additions.deep_view().take(
                i as int,
            ));
        }
        if !contains_string(values, &additions[i]) {
            let ghost before = values.deep_view();
            values.push(additions[i].clone());
            assert(values.deep_view() =~= before.push(additions[i as int]@));
        }
        i = i + 1;
    }
    assert(additions.deep_view().take(additions.len() as int) =~= additions.deep_view());
}

/// What the walk over imported chunks has gathered so far: which manifest
/// entries it has entered, the stylesheets and the module preloads.
pub struct CollectState {
    pub visited: Seq<bool>,
    pub stylesheets: Seq<Seq<char>>,
    pub module_preloads: Seq<Seq<char>>,
}

/// How many entries are not visited yet.
pub open spec fn unvisited(v: Seq<bool>) -> nat
    decreases v.len(),
{
    if v.len() == 0 {
        0
    } else {
        unvisited(v.drop_last()) + (if v.last() {
            0nat
        } else {
            1nat
        })
    }
}

/// `b` has visited every entry that `a` has.
pub open spec fn visits_more(a: Seq<bool>, b: Seq<bool>) -> bool {
    &&& a.len() == b.len()
    &&& forall|k: int| 0 <= k < a.len() && a[k] ==> b[k]
}

/// Marking an unvisited entry leaves one fewer to visit.
pub proof fn lemma_unvisited_mark(v: Seq<bool>, i: int)
    requires
        0 <= i < v.len(),
        !v[i],
    ensures
        unvisited(v.update(i, true)) + 1 == unvisited(v),
    decreases v.len(),
{
    if i == v.len() - 1 {
        assert(v.update(i, true).drop_last() =~= v.drop_last());
    } else {
        lemma_unvisited_mark(v.drop_last(), i);
        assert(v.update(i, true).drop_last() =~= v.drop_last().update(i, true));
    }
}

proof fn lemma_unvisited_mono(a: Seq<bool>, b: Seq<bool>)
    requires
        visits_more(a, b),
    ensures
        unvisited(b) <= unvisited(a),
    decreases a.len(),
{
    if a.len() > 0 {
        lemma_unvisited_mono(a.drop_last(), b.drop_last());
    }
}

/// The `.js` suffix of script chunks.
pub open spec fn js_suffix() -> Seq<char> {
    ".js"@
}

/// After a chunk's imports are walked: its stylesheets are added (once each),
/// and its file, if it is a script, becomes a module preload.
pub open spec fn finish_chunk(c: ChunkView, st: CollectState) -> CollectState {
    CollectState {
        visited: st.visited,
        stylesheets: append_unique_spec(st.stylesheets, c.css),
        module_preloads: if seq_ends_with(c.file, js_suffix()) {
            st.module_preloads.push(c.file)
        } else {
            st.module_preloads
        },
    }
}

/// Walks the chunk under `key`, depth first: an entry already visited adds
/// nothing; otherwise it is marked, its imports are walked in order, then it is
/// finished. A key that the manifest lacks is an error that names it.
pub open spec fn collect_key(m: Seq<EntryView>, key: Seq<char>, st: CollectState) -> Result<
    CollectState,
    Seq<char>,
>
    decreases unvisited(st.visited), 0nat, 0int,
{
    match key_index(m, key) {
        None => Err(key),
        Some(i) => {
            if i < st.visited.len() && i < m.len() && !st.visited[i as int] {
                let st1 = CollectState { visited: st.visited.update(i as int, true), ..st };
                proof {
                    lemma_unvisited_mark(st.visited, i as int);
                }
                match collect_imports(m, m[i as int].chunk.imports, 0, st1) {
                    Err(e) => Err(e),
                    Ok(st2) => Ok(finish_chunk(m[i as int].chunk, st2)),
                }
            } else {
                Ok(st)
            }
        },
    }
}

/// Walks the imports from position `j` on, in order, stopping at the first
/// error.
pub open spec fn collect_imports(
    m: Seq<EntryView>,
    imports: Seq<Seq<char>>,
    j: nat,
    st: CollectState,
) -> Result<CollectState, Seq<char>>
    decreases unvisited(st.visited), 1nat, imports.len() - j,
{
    if j >= imports.len() {
        Ok(st)
    } else {
        match collect_key(m, imports[j as int], st) {
            Err(e) => Err(e),
            Ok(st2) => {
                if unvisited(st2.visited) <= unvisited(st.visited) {
                    collect_imports(m, imports, j + 1, st2)
                } else {
                    Ok(st2)
                }
            },
        }
    }
}

/// Every module preload is a script file.
pub open spec fn all_scripts(files: Seq<Seq<char>>) -> bool {
    forall|k: int| 0 <= k < files.len() ==> seq_ends_with(#[trigger] files[k], js_suffix())
}

proof fn lemma_append_unique_no_duplicates(values: Seq<Seq<char>>, additions: Seq<Seq<char>>)
    requires
        values.no_duplicates(),
    ensures
        append_unique_spec(values, additions).no_duplicates(),
    decreases additions.len(),
{
    if additions.len() > 0 {
        lemma_append_unique_no_duplicates(values, additions.drop_last());
        let v = append_unique_spec(values, additions.drop_last());
        if !v.contains(additions.last()) {
            assert forall|a: int, b: int|
                0 <= a < v.push(additions.last()).len() && 0 <= b < v.push(additions.last()).len()
                    && a != b implies v.push(additions.last())[a] != v.push(additions.last())[b] by {
                if a == v.len() {
                    assert(v[b] == v.push(additions.last())[b]);
                } else if b == v.len() {
                    assert(v[a] == v.push(additions.last())[a]);
                }
            }
        }
    }
}

/// What appending without repeats promises: the values already there stay,
/// in order, at the front; every addition ends up among the values; nothing
/// else is added; and values free of repeats stay free of repeats.
pub proof fn append_unique_laws(values: Seq<Seq<char>>, additions: Seq<Seq<char>>)
    ensures
        append_unique_spec(values, additions).len() >= values.len(),
        append_unique_spec(values, additions).subrange(0, values.len() as int) == values,
        forall|k: int|
            0 <= k < additions.len() ==> append_unique_spec(values, additions).contains(
                #[trigger] additions[k],
            ),
        forall|k: int|
            0 <= k < append_unique_spec(values, additions).len() ==> values.contains(
                #[trigger] append_unique_spec(values, additions)[k],
            ) || additions.contains(append_unique_spec(values, additions)[k]),
        values.no_duplicates() ==> append_unique_spec(values, additions).no_duplicates(),
    decreases additions.len(),
{
    if values.no_duplicates() {
        lemma_append_unique_no_duplicates(values, additions);
    }
    if additions.len() == 0 {
        assert(values.subrange(0, values.len() as int) =~= values);
    } else {
        let front = additions.drop_last();
        append_unique_laws(values, front);
        let v = append_unique_spec(values, front);
        let r = append_unique_spec(values, additions);
        assert(r.subrange(0, values.len() as int) =~= v.subrange(0, values.len() as int));
        assert forall|k: int| 0 <= k < additions.len() implies r.contains(#[trigger] additions[k]) by {
            if k < additions.len() - 1 {
                assert(front[k] == additions[k]);
                let w = choose|w: int| 0 <= w < v.len() && v[w] == front[k];
                assert(r[w] == additions[k]);
            } else if !v.contains(additions.last()) {
                assert(r[v.len() as int] == additions[k]);
            }
        }
        assert forall|k: int| 0 <= k < r.len() implies values.contains(#[trigger] r[k])
            || additions.contains(r[k]) by {
            if k < v.len() {
                assert(r[k] == v[k]);
                if front.contains(v[k]) {
                    let w = choose|w: int| 0 <= w < front.len() && front[w] == v[k];
                    assert(additions[w] == front[w]);
                }
            } else {
                assert(r[k] == additions[additions.len() - 1]);
            }
        }
    }
}

proof fn lemma_finish_chunk(c: ChunkView, st: CollectState)
    ensures
        finish_chunk(c, st).visited == st.visited,
        st.stylesheets.no_duplicates() ==> finish_chunk(c, st).stylesheets.no_duplicates(),
        all_scripts(st.module_preloads) ==> all_scripts(finish_chunk(c, st).module_preloads),
        is_prefix(st.stylesheets, finish_chunk(c, st).stylesheets),
        is_prefix(st.module_preloads, finish_chunk(c, st).module_preloads),
{
    append_unique_laws(st.stylesheets, c.css);
    let p = finish_chunk(c, st).module_preloads;
    assert(p.subrange(0, st.module_preloads.len() as int) =~= st.module_preloads);
}

/// `a` is the front of `b`.
pub open spec fn is_prefix(a: Seq<Seq<char>>, b: Seq<Seq<char>>) -> bool {
    a.len() <= b.len() && b.subrange(0, a.len() as int) == a
}

proof fn lemma_prefix_reflexive(a: Seq<Seq<char>>)
    ensures
        is_prefix(a, a),
{
    assert(a.subrange(0, a.len() as int) =~= a);
}

proof fn lemma_prefix_transitive(a: Seq<Seq<char>>, b: Seq<Seq<char>>, c: Seq<Seq<char>>)
    requires
        is_prefix(a, b),
        is_prefix(b, c),
    ensures
        is_prefix(a, c),
{
    assert(c.subrange(0, a.len() as int) =~= b.subrange(0, a.len() as int));
}

/// What the walk keeps: it only marks more entries, and it keeps the
/// stylesheets free of repeats and the module preloads all scripts.
pub open spec fn walk_keeps(st: CollectState, st2: CollectState) -> bool {
    &&& visits_more(st.visited, st2.visited)
    &&& is_prefix(st.stylesheets, st2.stylesheets)
    &&& is_prefix(st.module_preloads, st2.module_preloads)
    &&& st.stylesheets.no_duplicates() ==> st2.stylesheets.no_duplicates()
    &&& all_scripts(st.module_preloads) ==> all_scripts(st2.module_preloads)
}

proof fn lemma_collect_key(m: Seq<EntryView>, key: Seq<char>, st: CollectState)
    requires
        st.visited.len() == m.len(),
    ensures
        collect_key(m, key, st) matches Ok(st2) ==> walk_keeps(st, st2),
    decreases unvisited(st.visited), 0nat, 0int,
{
    lemma_prefix_reflexive(st.stylesheets);
    lemma_prefix_reflexive(st.module_preloads);
    match key_index(m, key) {
        None => {},
        Some(i) => {
            if i < st.visited.len() && i < m.len() && !st.visited[i as int] {
                let st1 = CollectState { visited: st.visited.update(i as int, true), ..st };
                lemma_unvisited_mark(st.visited, i as int);
                lemma_collect_imports(m, m[i as int].chunk.imports, 0, st1);
                match collect_imports(m, m[i as int].chunk.imports, 0, st1) {
                    Err(e) => {},
                    Ok(st2) => {
                        lemma_finish_chunk(m[i as int].chunk, st2);
                        let st3 = finish_chunk(m[i as int].chunk, st2);
                        lemma_prefix_transitive(st.stylesheets, st2.stylesheets, st3.stylesheets);
                        lemma_prefix_transitive(
                            st.module_preloads,
                            st2.module_preloads,
                            st3.module_preloads,
                        );
                    },
                }
            }
        },
    }
}

proof fn lemma_collect_imports(m: Seq<EntryView>, imports: Seq<Seq<char>>, j: nat, st: CollectState)
    requires
        st.visited.len() == m.len(),
    ensures
        collect_imports(m, imports, j, st) matches Ok(st2) ==> walk_keeps(st, st2),
    decreases unvisited(st.visited), 1nat, imports.len() - j,
{
    lemma_prefix_reflexive(st.stylesheets);
    lemma_prefix_reflexive(st.module_preloads);
    if j < imports.len() {
        lemma_collect_key(m, imports[j as int], st);
        match collect_key(m, imports[j as int], st) {
            Err(e) => {},
            Ok(st2) => {
                lemma_unvisited_mono(st.visited, st2.visited);
                lemma_collect_imports(m, imports, j + 1, st2);
                if let Ok(st3) = collect_imports(m, imports, j + 1, st2) {
                    lemma_prefix_transitive(st.stylesheets, st2.stylesheets, st3.stylesheets);
                    lemma_prefix_transitive(
                        st.module_preloads,
                        st2.module_preloads,
                        st3.module_preloads,
                    );
                }
            },
        }
    }
}

/// Why the manifest could not be resolved into the page's assets.
#[derive(Debug)]
pub enum ManifestError {
    /// No entry for the page template `base.html`.
    MissingEntry,
    /// No entry for the icon `favicon.ico`.
    MissingFavicon,
    /// A chunk imports this key, which the manifest lacks.
    MissingImport(String),
}

/// The failures of manifest resolution, as text.
pub enum ManifestFailure {
    MissingEntry,
    MissingFavicon,
    MissingImport(Seq<char>),
}

impl View for ManifestError {
    type V = ManifestFailure;

    open spec fn view(&self) -> ManifestFailure {
        match self {
            ManifestError::MissingEntry => ManifestFailure::MissingEntry,
            ManifestError::MissingFavicon => ManifestFailure::MissingFavicon,
            ManifestError::MissingImport(k) => ManifestFailure::MissingImport(k@),
        }
    }
}

/// The walk state held by the three vectors.
pub open spec fn state_of(visited: Seq<bool>, stylesheets: Seq<Seq<char>>, module_preloads: Seq<Seq<char>>) -> CollectState {
    CollectState { visited, stylesheets, module_preloads }
}

/// Walks the chunk under `key` and, depth first, every chunk it imports that
/// has not been visited, gathering their stylesheets (once each) and script
/// files. Fails, naming the key, when a chunk imports a key that the manifest
/// lacks.
pub fn collect_imported_assets(
    key: &str,
    manifest: &Manifest,
    visited: &mut Vec<bool>,
    stylesheets: &mut Vec<String>,
    module_preloads: &mut Vec<String>,
) -> (r: Result<(), ManifestError>)
    requires
        old(visited)@.len() == manifest@.len(),
    ensures
        match collect_key(
            manifest@,
            key@,
            state_of(old(visited)@, old(stylesheets).deep_view(), old(module_preloads).deep_view()),
        ) {
            Ok(st) => r is Ok && st == state_of(
                final(visited)@,
                final(stylesheets).deep_view(),
                final(module_preloads).deep_view(),
            ),
            Err(k) => r matches Err(e) && e@ == ManifestFailure::MissingImport(k),
        },
    decreases unvisited(old(visited)@),
{
    let ghost m = manifest@;
    let ghost st0 = state_of(visited@, stylesheets.deep_view(), module_preloads.deep_view());
    let i = match lookup(manifest, key) {
        None => {
            return Err(ManifestError::MissingImport(String::from_str(key)));
        },
        Some(i) => i,
    };
    if visited[i] {
        return Ok(());
    }
    proof {
        lemma_unvisited_mark(visited@, i as int);
    }
    visited.set(i, true);
    let ghost st1 = state_of(visited@, stylesheets.deep_view(), module_preloads.deep_view());
    let chunk = &manifest.entries[i].chunk;
    assert(chunk@ == m[i as int].chunk);
    let n = chunk.imports.len();
    let mut j: usize = 0;
    while j < n
        invariant
            m == manifest@,
            key_index(m, key@) == Some(i as nat),
            i < m.len(),
            st0.visited.len() == m.len(),
            !st0.visited[i as int],
            st0 == state_of(old(visited)@, old(stylesheets).deep_view(), old(module_preloads).deep_view()),
            st1 == (CollectState { visited: st0.visited.update(i as int, true), ..st0 }),
            n == chunk.imports.len(),
            chunk@ == m[i as int].chunk,
            j <= n,
            visited@.len() == m.len(),
            unvisited(visited@) < unvisited(old(visited)@),
            collect_imports(m, chunk@.imports, 0, st1) == collect_imports(
                m,
                chunk@.imports,
                j as nat,
                state_of(visited@, stylesheets.deep_view(), module_preloads.deep_view()),
            ),
        decreases n - j,
    {
        let ghost cur = state_of(visited@, stylesheets.deep_view(), module_preloads.deep_view());
        proof {
            lemma_collect_key(m, chunk@.imports[j as int], cur);
        }
        let res = collect_imported_assets(
            chunk.imports[j].as_str(),
            manifest,
            visited,
            stylesheets,
            module_preloads,
        );
        match res {
            Err(e) => {
                return Err(e);
            },
            Ok(()) => {},
        }
        proof {
            let next = state_of(visited@, stylesheets.deep_view(), module_preloads.deep_view());
            lemma_unvisited_mono(cur.visited, next.visited);
        }
        j = j + 1;
    }
    let ghost st2 = state_of(visited@, stylesheets.deep_view(), module_preloads.deep_view());
    append_unique(stylesheets, &chunk.css);
    if str_ends_with(chunk.file.as_str(), ".js") {
        let ghost before = module_preloads.deep_view();
        module_preloads.push(chunk.file.clone());
        assert(module_preloads.deep_view() =~= before.push(chunk.file@));
    }
    assert(state_of(visited@, stylesheets.deep_view(), module_preloads.deep_view()) == finish_chunk(m[i as int].chunk, st2));
    Ok(())
}

/// The assets that every page links: the stylesheets, the script modules to
/// preload, the icon and the entry script.
#[derive(Debug)]
pub struct ViteAssets {
    pub stylesheets: Vec<String>,
    pub module_preloads: Vec<String>,
    pub favicon: String,
    pub script: String,
}

/// The page assets, as text.
pub struct AssetsView {
    pub stylesheets: Seq<Seq<char>>,
    pub module_preloads: Seq<Seq<char>>,
    pub favicon: Seq<char>,
    pub script: Seq<char>,
}

impl View for ViteAssets {
    type V = AssetsView;

    open spec fn view(&self) -> AssetsView {
        AssetsView {
            stylesheets: self.stylesheets.deep_view(),
            module_preloads: self.module_preloads.deep_view(),
            favicon: self.favicon@,
            script: self.script@,
        }
    }
}

/// The source of the page template, the entry chunk.
pub open spec fn entry_source() -> Seq<char> {
    "base.html"@
}

/// The source of the site icon.
pub open spec fn favicon_source() -> Seq<char> {
    "favicon.ico"@
}

/// The walk starts with nothing visited and with the entry chunk's own
/// stylesheets.
pub open spec fn start_state(m: Seq<EntryView>, entry: nat) -> CollectState {
    CollectState {
        visited: Seq::new(m.len(), |k: int| false),
        stylesheets: append_unique_spec(Seq::empty(), m[entry as int].chunk.css),
        module_preloads: Seq::empty(),
    }
}

/// The assets of the manifest: the entry is the chunk found for `base.html`,
/// the icon the file of the chunk found for `favicon.ico`; the stylesheets and
/// preloads are the entry's stylesheets followed by what the walk over its
/// imports gathers.
pub open spec fn resolve_spec(m: Seq<EntryView>) -> Result<AssetsView, ManifestFailure> {
    match find_key_spec(m, entry_source()) {
        None => Err(ManifestFailure::MissingEntry),
        Some(e) => match find_key_spec(m, favicon_source()) {
            None => Err(ManifestFailure::MissingFavicon),
            Some(f) => match collect_imports(m, m[e as int].chunk.imports, 0, start_state(m, e)) {
                Err(k) => Err(ManifestFailure::MissingImport(k)),
                Ok(st) => Ok(
                    AssetsView {
                        stylesheets: st.stylesheets,
                        module_preloads: st.module_preloads,
                        favicon: m[f as int].chunk.file,
                        script: m[e as int].chunk.file,
                    },
                ),
            },
        },
    }
}

/// Resolves the assets that the page layout links from the Vite manifest.
pub fn resolve_assets(manifest: &Manifest) -> (r: Result<ViteAssets, ManifestError>)
    ensures
        match resolve_spec(manifest@) {
            Ok(a) => r matches Ok(x) && x@ == a,
            Err(e) => r matches Err(x) && x@ == e,
        },
{
    let ghost m = manifest@;
    let entry_index = match find_key(manifest, "base.html") {
        Some(i) => i,
        None => {
            return Err(ManifestError::MissingEntry);
        },
    };
    let favicon_index = match find_key(manifest, "favicon.ico") {
        Some(i) => i,
        None => {
            return Err(ManifestError::MissingFavicon);
        },
    };
    proof {
        lemma_find_key_in_range(m, entry_source());
        lemma_find_key_in_range(m, favicon_source());
    }
    let entry = &manifest.entries[entry_index].chunk;
    assert(entry@ == m[entry_index as int].chunk);
    let mut stylesheets: Vec<String> = Vec::new();
    let mut module_preloads: Vec<String> = Vec::new();
    let mut visited: Vec<bool> = Vec::new();
    let n = manifest.len();
    let mut k: usize = 0;
    while k < n
        invariant
            n == m.len(),
            k <= n,
            visited@ == Seq::new(k as nat, |x: int| false),
        decreases n - k,
    {
        visited.push(false);
        k = k + 1;
    }
    assert(stylesheets.deep_view() =~= Seq::<Seq<char>>::empty());
    assert(module_preloads.deep_view() =~= Seq::<Seq<char>>::empty());
    append_unique(&mut stylesheets, &entry.css);
    let ghost st0 = state_of(visited@, stylesheets.deep_view(), module_preloads.deep_view());
    assert(st0 == start_state(m, entry_index as nat));
    let imports = &entry.imports;
    let count = imports.len();
    let mut j: usize = 0;
    while j < count
        invariant
            m == manifest@,
            find_key_spec(m, entry_source()) == Some(entry_index as nat),
            find_key_spec(m, favicon_source()) == Some(favicon_index as nat),
            st0 == start_state(m, entry_index as nat),
            count == imports.len(),
            imports.deep_view() == m[entry_index as int].chunk.imports,
            j <= count,
            visited@.len() == m.len(),
            collect_imports(m, imports.deep_view(), 0, st0) == collect_imports(
                m,
                imports.deep_view(),
                j as nat,
                state_of(visited@, stylesheets.deep_view(), module_preloads.deep_view()),
            ),
        decreases count - j,
    {
        let ghost cur = state_of(visited@, stylesheets.deep_view(), module_preloads.deep_view());
        proof {
            lemma_collect_key(m, imports.deep_view()[j as int], cur);
        }
        let res = collect_imported_assets(
            imports[j].as_str(),
            manifest,
            &mut visited,
            &mut stylesheets,
            &mut module_preloads,
        );
        match res {
            Err(e) => {
                return Err(e);
            },
            Ok(()) => {},
        }
        proof {
            let next = state_of(visited@, stylesheets.deep_view(), module_preloads.deep_view());
            lemma_unvisited_mono(cur.visited, next.visited);
        }
        j = j + 1;
    }
    let favicon = manifest.entries[favicon_index].chunk.file.clone();
    let script = entry.file.clone();
    Ok(ViteAssets { stylesheets, module_preloads, favicon, script })
}

proof fn lemma_key_index_from_finds(m: Seq<EntryView>, key: Seq<char>, k: nat, i: int)
    requires
        keys_ascending(m),
        k <= i < m.len(),
        m[i].key == key,
    ensures
        key_index_from(m, key, k) == Some(i as nat),
    decreases i - k,
{
    if k < i {
        manifest_keys_distinct(m, k as int, i);
        lemma_key_index_from_finds(m, key, k + 1, i);
    }
}

/// Looking up a key finds the entry that has it: the one entry whose key is
/// exactly the source name is the one `find_key` gives, whatever other
/// entries end with that name.
pub proof fn find_key_prefers_exact_key(m: Seq<EntryView>, name: Seq<char>, i: int)
    requires
        keys_ascending(m),
        0 <= i < m.len(),
        m[i].key == name,
    ensures
        key_index(m, name) == Some(i as nat),
        find_key_spec(m, name) == Some(i as nat),
{
    lemma_key_index_from_finds(m, name, 0, i);
}

/// What the resolved assets promise: no stylesheet is linked twice, every
/// module preload is a script file, and every stylesheet of the entry chunk
/// is linked.
pub proof fn resolved_assets_laws(m: Seq<EntryView>)
    ensures
        resolve_spec(m) matches Ok(a) ==> {
            &&& a.stylesheets.no_duplicates()
            &&& all_scripts(a.module_preloads)
            &&& find_key_spec(m, entry_source()) matches Some(e) && forall|k: int|
                0 <= k < m[e as int].chunk.css.len() ==> a.stylesheets.contains(
                    #[trigger] m[e as int].chunk.css[k],
                )
        },
{
    if let Some(e) = find_key_spec(m, entry_source()) {
        if let Some(f) = find_key_spec(m, favicon_source()) {
            let st0 = start_state(m, e);
            append_unique_laws(Seq::empty(), m[e as int].chunk.css);
            assert(Seq::<Seq<char>>::empty().no_duplicates());
            lemma_collect_imports(m, m[e as int].chunk.imports, 0, st0);
            if let Ok(st) = collect_imports(m, m[e as int].chunk.imports, 0, st0) {
                assert forall|k: int| 0 <= k < m[e as int].chunk.css.len() implies st.stylesheets.contains(
                    #[trigger] m[e as int].chunk.css[k],
                ) by {
                    let css = m[e as int].chunk.css[k];
                    assert(st0.stylesheets.contains(css));
                    let w = choose|w: int| 0 <= w < st0.stylesheets.len() && st0.stylesheets[w] == css;
                    assert(st.stylesheets.subrange(0, st0.stylesheets.len() as int)[w] == css);
                }
            }
        }
    }
}

/// The address under which the server hands out the built file `file`.
pub fn asset_href(file: &str) -> (r: String)
    ensures
        r@ == "/dist/"@ + file@,
{
    let mut href = String::from_str("/dist/");
    href.append(file);
    href
}

/// Every import of chunk `i` names an entry of the manifest that `walked`
/// marks.
pub open spec fn imports_walked(m: Seq<EntryView>, i: int, walked: Seq<bool>) -> bool {
    forall|k: int|
        0 <= k < m[i].chunk.imports.len() ==> key_walked(m, #[trigger] m[i].chunk.imports[k], walked)
}

/// Some entry of the manifest has the key `key`, and `walked` marks it.
pub open spec fn key_walked(m: Seq<EntryView>, key: Seq<char>, walked: Seq<bool>) -> bool {
    exists|j: int| 0 <= j < m.len() && #[trigger] m[j].key == key && walked[j]
}

/// Chunk `i` has its stylesheets among `stylesheets` and, when its file is a
/// script, that file among `preloads`.
pub open spec fn chunk_recorded(
    m: Seq<EntryView>,
    i: int,
    stylesheets: Seq<Seq<char>>,
    preloads: Seq<Seq<char>>,
) -> bool {
    &&& forall|k: int|
        0 <= k < m[i].chunk.css.len() ==> stylesheets.contains(#[trigger] m[i].chunk.css[k])
    &&& seq_ends_with(m[i].chunk.file, ".js"@) ==> preloads.contains(m[i].chunk.file)
}

spec fn done_in(m: Seq<EntryView>, i: int, st: CollectState) -> bool {
    imports_walked(m, i, st.visited) && chunk_recorded(m, i, st.stylesheets, st.module_preloads)
}

spec fn new_done(m: Seq<EntryView>, st: CollectState, st2: CollectState) -> bool {
    forall|i: int|
        0 <= i < m.len() && !st.visited[i] && #[trigger] st2.visited[i] ==> done_in(m, i, st2)
}

proof fn lemma_prefix_contains(a: Seq<Seq<char>>, b: Seq<Seq<char>>, x: Seq<char>)
    requires
        is_prefix(a, b),
        a.contains(x),
    ensures
        b.contains(x),
{
    let w = choose|w: int| 0 <= w < a.len() && a[w] == x;
    assert(b.subrange(0, a.len() as int)[w] == x);
}

proof fn lemma_done_persists(m: Seq<EntryView>, i: int, s: CollectState, s2: CollectState)
    requires
        0 <= i < m.len(),
        s.visited.len() == m.len(),
        walk_keeps(s, s2),
        done_in(m, i, s),
    ensures
        done_in(m, i, s2),
{
    assert forall|k: int| 0 <= k < m[i].chunk.imports.len() implies key_walked(
        m,
        #[trigger] m[i].chunk.imports[k],
        s2.visited,
    ) by {
        let key = m[i].chunk.imports[k];
        assert(key_walked(m, key, s.visited));
        let j = choose|j: int| 0 <= j < m.len() && #[trigger] m[j].key == key && s.visited[j];
        assert(m[j].key == key && s2.visited[j]);
    }

    assert forall|k: int| 0 <= k < m[i].chunk.css.len() implies s2.stylesheets.contains(
        #[trigger] m[i].chunk.css[k],
    ) by {
        lemma_prefix_contains(s.stylesheets, s2.stylesheets, m[i].chunk.css[k]);
    }
    if seq_ends_with(m[i].chunk.file, ".js"@) {
        lemma_prefix_contains(s.module_preloads, s2.module_preloads, m[i].chunk.file);
    }
}

proof fn lemma_key_records(m: Seq<EntryView>, key: Seq<char>, st: CollectState)
    requires
        st.visited.len() == m.len(),
    ensures
        collect_key(m, key, st) matches Ok(st2) ==> {
            &&& new_done(m, st, st2)
            &&& key_index(m, key) matches Some(j) && j < m.len() && m[j as int].key == key
                && st2.visited[j as int]
        },
    decreases unvisited(st.visited), 0nat, 0int,
{
    lemma_key_index_from_in_range(m, key, 0);
    match key_index(m, key) {
        None => {},
        Some(i) => {
            if !st.visited[i as int] {
                let st1 = CollectState { visited: st.visited.update(i as int, true), ..st };
                lemma_unvisited_mark(st.visited, i as int);
                let imports = m[i as int].chunk.imports;
                lemma_imports_records(m, imports, 0, st1);
                lemma_collect_imports(m, imports, 0, st1);
                if let Ok(st2) = collect_imports(m, imports, 0, st1) {
                    let c = m[i as int].chunk;
                    let st3 = finish_chunk(c, st2);
                    lemma_finish_chunk(c, st2);
                    append_unique_laws(st2.stylesheets, c.css);
                    assert(walk_keeps(st2, st3));
                    assert forall|x: int|
                        0 <= x < m.len() && !st.visited[x] && #[trigger] st3.visited[x] implies done_in(
                        m,
                        x,
                        st3,
                    ) by {
                        if x == i {
                            assert forall|k: int| 0 <= k < imports.len() implies key_walked(
                                m,
                                #[trigger] imports[k],
                                st3.visited,
                            ) by {
                                assert(0 <= k < imports.len());
                                lemma_key_index_from_in_range(m, imports[k], 0);
                                let y = key_index(m, imports[k])->0;
                                assert(m[y as int].key == imports[k] && st3.visited[y as int]);
                            }
                            if seq_ends_with(c.file, ".js"@) {
                                assert(st3.module_preloads.last() == c.file);
                                assert(st3.module_preloads.contains(c.file));
                            }
                        } else {
                            assert(!st1.visited[x]);
                            assert(done_in(m, x, st2));
                            lemma_done_persists(m, x, st2, st3);
                        }
                    }
                }
            }
        },
    }
}

proof fn lemma_imports_records(
    m: Seq<EntryView>,
    imports: Seq<Seq<char>>,
    j: nat,
    st: CollectState,
)
    requires
        st.visited.len() == m.len(),
    ensures
        collect_imports(m, imports, j, st) matches Ok(st2) ==> {
            &&& new_done(m, st, st2)
            &&& forall|k: int|
                j <= k < imports.len() ==> (key_index(m, #[trigger] imports[k]) matches Some(x) && x
                    < m.len() && st2.visited[x as int])
        },
    decreases unvisited(st.visited), 1nat, imports.len() - j,
{
    if j < imports.len() {
        lemma_key_records(m, imports[j as int], st);
        lemma_collect_key(m, imports[j as int], st);
        if let Ok(st2) = collect_key(m, imports[j as int], st) {
            lemma_unvisited_mono(st.visited, st2.visited);
            lemma_imports_records(m, imports, j + 1, st2);
            lemma_collect_imports(m, imports, j + 1, st2);
            if let Ok(st3) = collect_imports(m, imports, j + 1, st2) {
                assert forall|x: int|
                    0 <= x < m.len() && !st.visited[x] && #[trigger] st3.visited[x] implies done_in(
                    m,
                    x,
                    st3,
                ) by {
                    if st2.visited[x] {
                        lemma_done_persists(m, x, st2, st3);
                    }
                }
                let y = key_index(m, imports[j as int])->0;
                assert(st3.visited[y as int]);
            }
        }
    }
}

/// Every import is walked: there is a set of walked chunks that holds every
/// import of the entry chunk and, with each chunk, every chunk it imports (all
/// of them manifest entries); and every walked chunk has all its stylesheets
/// among the resolved stylesheets and, when its file is a script, that file
/// among the module preloads.
pub proof fn resolve_walks_every_import(m: Seq<EntryView>)
    ensures
        resolve_spec(m) matches Ok(a) ==> (find_key_spec(m, "base.html"@) matches Some(e)
            && exists|walked: Seq<bool>|
            {
                &&& walked.len() == m.len()
                &&& forall|k: int|
                    0 <= k < m[e as int].chunk.imports.len() ==> key_walked(
                        m,
                        #[trigger] m[e as int].chunk.imports[k],
                        walked,
                    )
                &&& forall|i: int|
                    0 <= i < m.len() && #[trigger] walked[i] ==> imports_walked(m, i, walked)
                        && chunk_recorded(m, i, a.stylesheets, a.module_preloads)
            }),
{
    if let Some(e) = find_key_spec(m, entry_source()) {
        if let Some(f) = find_key_spec(m, favicon_source()) {
            let st0 = start_state(m, e);
            let imports = m[e as int].chunk.imports;
            lemma_imports_records(m, imports, 0, st0);
            if let Ok(st) = collect_imports(m, imports, 0, st0) {
                let walked = st.visited;
                lemma_collect_imports(m, imports, 0, st0);
                assert forall|k: int| 0 <= k < imports.len() implies key_walked(
                    m,
                    #[trigger] imports[k],
                    walked,
                ) by {
                    let y = key_index(m, imports[k])->0;
                    lemma_key_index_from_in_range(m, imports[k], 0);
                    assert(m[y as int].key == imports[k] && walked[y as int]);
                }
                assert forall|i: int| 0 <= i < m.len() && #[trigger] walked[i] implies imports_walked(
                    m,
                    i,
                    walked,
                ) && chunk_recorded(m, i, st.stylesheets, st.module_preloads) by {
                    assert(!st0.visited[i]);
                }
            }
        }
    }
}

} // verus!
