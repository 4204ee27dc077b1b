use rust_web_demo::assets::{asset_media_type, path_extension};

#[test]
fn extension_of_last_segment() {
    assert_eq!(path_extension("assets/base-9f.css"), Some("css"));
    assert_eq!(path_extension("a.b/c"), None);
    assert_eq!(path_extension("archive.tar.gz"), Some("gz"));
    assert_eq!(path_extension("notes."), Some(""));
    assert_eq!(path_extension("dir/.hidden"), None);
    assert_eq!(path_extension("dir/.config.json"), Some("json"));
    assert_eq!(path_extension("favicon"), None);
    assert_eq!(path_extension(".."), None);
    assert_eq!(path_extension(""), None);
}

#[test]
fn known_extensions_get_their_media_type() {
    assert_eq!(asset_media_type("assets/base-9f.css"), "text/css; charset=utf-8");
    assert_eq!(asset_media_type("assets/main.js"), "text/javascript");
    assert_eq!(asset_media_type("STYLE.CSS"), "text/css; charset=utf-8");
}

#[test]
fn unknown_files_are_bytes() {
    assert_eq!(asset_media_type("assets/data.unknownext"), "application/octet-stream");
    assert_eq!(asset_media_type("LICENSE"), "application/octet-stream");
    assert_eq!(asset_media_type("assets/.hidden"), "application/octet-stream");
}
