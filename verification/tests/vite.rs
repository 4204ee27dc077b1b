use rust_web_demo::vite::{
    append_unique, asset_href, find_key, resolve_assets, Manifest, ManifestChunk, ManifestEntry,
    ManifestError,
};

fn chunk(file: &str, css: &[&str], imports: &[&str]) -> ManifestChunk {
    ManifestChunk {
        file: file.to_string(),
        css: css.iter().map(|s| s.to_string()).collect(),
        imports: imports.iter().map(|s| s.to_string()).collect(),
    }
}

fn entry(key: &str, c: ManifestChunk) -> ManifestEntry {
    ManifestEntry { key: key.to_string(), chunk: c }
}

fn strings(v: &[&str]) -> Vec<String> {
    v.iter().map(|s| s.to_string()).collect()
}

/// A manifest like Vite writes it: the page imports two shared chunks that
/// import each other, and both bring the same stylesheet.
fn sample() -> Manifest {
    Manifest::new(vec![
        entry("_shared-a.js", chunk("assets/shared-a.js", &["assets/common.css"], &["_shared-b.js"])),
        entry("_shared-b.js", chunk("assets/shared-b.js", &["assets/common.css", "assets/b.css"], &["_shared-a.js"])),
        entry("favicon.ico", chunk("assets/favicon-123.ico", &[], &[])),
        entry("ui/base.html", chunk("assets/base-9f.js", &["assets/base.css"], &["_shared-a.js"])),
    ])
    .unwrap()
}

#[test]
fn manifest_needs_keys_in_order() {
    assert!(Manifest::new(vec![
        entry("b", chunk("b.js", &[], &[])),
        entry("a", chunk("a.js", &[], &[])),
    ])
    .is_none());
    assert!(Manifest::new(vec![
        entry("a", chunk("a.js", &[], &[])),
        entry("a", chunk("b.js", &[], &[])),
    ])
    .is_none());
    assert!(Manifest::new(vec![]).is_some());
    assert_eq!(sample().len(), 4);
}

#[test]
fn find_key_prefers_exact_key_then_suffix() {
    let m = sample();
    assert_eq!(find_key(&m, "favicon.ico"), Some(2));
    assert_eq!(find_key(&m, "base.html"), Some(3));
    assert_eq!(find_key(&m, "b.js"), Some(1));
    assert_eq!(find_key(&m, "missing.txt"), None);
}

#[test]
fn find_key_matches_emitted_file() {
    let m = Manifest::new(vec![entry("src/main.ts", chunk("assets/main-1.js", &[], &[]))]).unwrap();
    assert_eq!(find_key(&m, "main-1.js"), Some(0));
}

#[test]
fn resolve_walks_imports_once_each() {
    let assets = resolve_assets(&sample()).unwrap();
    assert_eq!(assets.stylesheets, strings(&["assets/base.css", "assets/common.css", "assets/b.css"]));
    assert_eq!(assets.module_preloads, strings(&["assets/shared-b.js", "assets/shared-a.js"]));
    assert_eq!(assets.favicon, "assets/favicon-123.ico");
    assert_eq!(assets.script, "assets/base-9f.js");
}

#[test]
fn resolve_requires_entry() {
    let m = Manifest::new(vec![entry("favicon.ico", chunk("f.ico", &[], &[]))]).unwrap();
    assert!(matches!(resolve_assets(&m), Err(ManifestError::MissingEntry)));
}

#[test]
fn resolve_requires_favicon() {
    let m = Manifest::new(vec![entry("base.html", chunk("base.js", &[], &[]))]).unwrap();
    assert!(matches!(resolve_assets(&m), Err(ManifestError::MissingFavicon)));
}

#[test]
fn resolve_reports_missing_import() {
    let m = Manifest::new(vec![
        entry("base.html", chunk("base.js", &[], &["_gone.js"])),
        entry("favicon.ico", chunk("f.ico", &[], &[])),
    ])
    .unwrap();
    match resolve_assets(&m) {
        Err(ManifestError::MissingImport(k)) => assert_eq!(k, "_gone.js"),
        other => panic!("unexpected {other:?}"),
    }
}

#[test]
fn entry_revisited_through_a_cycle_adds_its_script() {
    let m = Manifest::new(vec![
        entry("_a.js", chunk("a.js", &[], &["base.html"])),
        entry("base.html", chunk("base.js", &["x.css"], &["_a.js"])),
        entry("favicon.ico", chunk("f.ico", &[], &[])),
    ])
    .unwrap();
    let assets = resolve_assets(&m).unwrap();
    assert_eq!(assets.stylesheets, strings(&["x.css"]));
    assert_eq!(assets.module_preloads, strings(&["base.js", "a.js"]));
}

#[test]
fn append_unique_skips_repeats() {
    let mut values = strings(&["a", "b"]);
    append_unique(&mut values, &strings(&["b", "c", "c", "a", "d"]));
    assert_eq!(values, strings(&["a", "b", "c", "d"]));
}

#[test]
fn asset_href_points_into_dist() {
    assert_eq!(asset_href("assets/base.css"), "/dist/assets/base.css");
}
