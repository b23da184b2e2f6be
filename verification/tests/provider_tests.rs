use fs_api::api::{ChildInfo, API};
use fs_api::config::{Config, Mimetype, Mimetypes};
use fs_api::directory::Directory;
use fs_api::file::{File, FileError};
use fs_api::http::HTTP;
use std::sync::Arc;

fn cfg_with(entries: Vec<Mimetype>) -> Arc<Config> {
    Arc::new(Config {
        api: None,
        mimetypes: Some(Mimetypes(entries)),
        paths: None,
        root_directory: None,
    })
}

fn mt(ext: &str, mime: &str, icon: &str) -> Mimetype {
    Mimetype { extension: ext.to_string(), icon: icon.to_string(), mimetype: mime.to_string() }
}

fn bare_cfg() -> Arc<Config> {
    Arc::new(Config { api: None, mimetypes: None, paths: None, root_directory: None })
}

#[test]
fn file_read_invalid_utf8_json() {
    let f = File::new(bare_cfg(), "data.json".into(), "/data.json".into(), ".".into());
    let r = f.read(Some(vec![0xff, 0xfe, 0xfd]));
    assert_eq!(r, Err(FileError::InvalidText));
}

#[test]
fn file_read_valid_utf8_json_roundtrip() {
    let bytes = b"{\"a\": 1}".to_vec();
    let f = File::new(bare_cfg(), "data.json".into(), "/data.json".into(), ".".into());
    let r = f.read(Some(bytes.clone()));
    assert_eq!(r, Ok(bytes));
}

#[test]
fn file_read_binary_passthrough() {
    let bytes = vec![0xff, 0xfe, 0x00, 0x01];
    let f = File::new(bare_cfg(), "blob.bin".into(), "/blob.bin".into(), ".".into());
    let r = f.read(Some(bytes.clone()));
    assert_eq!(r, Ok(bytes));
}

#[test]
fn file_read_uppercase_extension_is_gated() {
    let f = File::new(bare_cfg(), "NOTES.TXT".into(), "/NOTES.TXT".into(), ".".into());
    let r = f.read(Some(vec![0xff]));
    assert_eq!(r, Err(FileError::InvalidText));
}

#[test]
fn file_read_no_extension_passthrough() {
    let f = File::new(bare_cfg(), "README".into(), "/README".into(), ".".into());
    let r = f.read(Some(vec![0xff]));
    assert_eq!(r, Ok(vec![0xff]));
}

#[test]
fn file_read_missing() {
    let f = File::new(bare_cfg(), "gone.txt".into(), "/gone.txt".into(), ".".into());
    assert_eq!(f.read(None), Err(FileError::NotFound));
}

#[test]
fn file_error_messages() {
    assert_eq!(FileError::NotFound.message(), "[File not found]");
    assert_eq!(FileError::InvalidText.message(), "[Invalid UTF-8]");
}

#[test]
fn file_mimetype_lowercased_lookup() {
    let cfg = cfg_with(vec![mt("txt", "text/plain", "T")]);
    let f = File::new(cfg, "dir/NOTES.TXT".into(), "/NOTES.TXT".into(), ".".into());
    assert_eq!(f.mimetype(), "text/plain");
}

#[test]
fn file_mimetype_unregistered_defaults() {
    let cfg = cfg_with(vec![mt("txt", "text/plain", "T")]);
    let f = File::new(cfg, "image.png".into(), "/image.png".into(), ".".into());
    assert_eq!(f.mimetype(), "application/octet-stream");
    let g = File::new(bare_cfg(), "noext".into(), "/noext".into(), ".".into());
    assert_eq!(g.mimetype(), "application/octet-stream");
}

#[test]
fn file_mimetype_last_entry_wins() {
    let cfg = cfg_with(vec![mt("txt", "text/plain", "T"), mt("txt", "text/x-log", "L")]);
    let f = File::new(cfg, "a.txt".into(), "/a.txt".into(), ".".into());
    assert_eq!(f.mimetype(), "text/x-log");
}

#[test]
fn file_mimetype_ignores_trailing_separator() {
    let cfg = cfg_with(vec![mt("txt", "text/plain", "T")]);
    let f = File::new(cfg, "dir/notes.txt/".into(), "/notes.txt/".into(), ".".into());
    assert_eq!(f.mimetype(), "text/plain");
}

#[test]
fn directory_shell_is_path_independent() {
    let shell = b"<html><body>shell</body></html>".to_vec();
    let d1 = Directory::new(bare_cfg(), "root/a".into(), "/a".into(), "root".into());
    let d2 = Directory::new(bare_cfg(), "root/b/c".into(), "/b/c".into(), "root".into());
    let out1 = d1.listing(Some(shell.clone()));
    let out2 = d2.listing(Some(shell.clone()));
    assert_eq!(out1, out2);
    assert_eq!(out1, "<html><body>shell</body></html>");
    assert_eq!(d1.content_type(), "text/html");
}

#[test]
fn directory_shell_placeholder() {
    let d = Directory::new(bare_cfg(), "root/a".into(), "/a".into(), "root".into());
    assert_eq!(d.listing(None), "[File not found or invalid UTF-8]");
    assert_eq!(d.listing(Some(vec![0xff, 0x00])), "[File not found or invalid UTF-8]");
}

#[test]
fn api_listing_entries() {
    let cfg = cfg_with(vec![mt("txt", "text/plain", "T")]);
    let api = API::new(cfg, "root/sub".into(), "/files/sub".into(), "root".into());
    let children = vec![
        ChildInfo { name: "a.txt".to_string(), is_dir: false },
        ChildInfo { name: "sub".to_string(), is_dir: true },
    ];
    let entries = api.listing(&children);
    assert_eq!(entries.len(), 2);
    assert_eq!(entries[0].name, "a.txt");
    assert_eq!(entries[0].mimetype, "text/plain");
    assert_eq!(entries[0].mimetype_icon, "T");
    assert!(!entries[0].is_dir);
    assert_eq!(entries[0].request, "/files/sub");
    assert_eq!(entries[1].name, "sub");
    assert_eq!(entries[1].mimetype, "application/directory");
    assert_eq!(entries[1].mimetype_icon, "📂");
    assert!(entries[1].is_dir);
    assert_eq!(entries[1].request, "/files/sub");
}

#[test]
fn api_listing_extension_on_directory_still_counts() {
    let cfg = cfg_with(vec![mt("txt", "text/plain", "T")]);
    let api = API::new(cfg, "root".into(), "/".into(), "root".into());
    let children = vec![ChildInfo { name: "odd.txt".to_string(), is_dir: true }];
    let entries = api.listing(&children);
    assert_eq!(entries[0].mimetype, "text/plain");
    assert!(entries[0].is_dir);
}

#[test]
fn api_listing_lookup_is_case_sensitive() {
    let cfg = cfg_with(vec![mt("txt", "text/plain", "T")]);
    let api = API::new(cfg, "root".into(), "/".into(), "root".into());
    let children = vec![ChildInfo { name: "A.TXT".to_string(), is_dir: false }];
    let entries = api.listing(&children);
    assert_eq!(entries[0].mimetype, "application/directory");
}

#[test]
fn api_json_exact() {
    let cfg = cfg_with(vec![mt("txt", "text/plain", "T")]);
    let api = API::new(cfg, "root".into(), "/d".into(), "root".into());
    let children = vec![ChildInfo { name: "a.txt".to_string(), is_dir: false }];
    let json = api.json(Some(&children));
    assert_eq!(
        json,
        "[{\"name\":\"a.txt\",\"mimetype\":\"text/plain\",\"mimetype_icon\":\"T\",\"is_dir\":false,\"request\":\"/d\"}]"
    );
}

#[test]
fn api_json_empty() {
    let api = API::new(bare_cfg(), "root".into(), "/d".into(), "root".into());
    let json = api.json(Some(&Vec::new()));
    assert_eq!(json, "[]");
}

#[test]
fn api_json_unreadable_directory_degrades_to_empty() {
    let api = API::new(bare_cfg(), "root".into(), "/d".into(), "root".into());
    assert_eq!(api.json(None), "[]");
}

#[test]
fn api_json_escapes_and_parses() {
    let api = API::new(bare_cfg(), "root".into(), "/d\"q".into(), "root".into());
    let children = vec![ChildInfo { name: "we\"ird\\na\nme.txt".to_string(), is_dir: false }];
    let json = api.json(Some(&children));
    let parsed: serde_json::Value = serde_json::from_str(&json).unwrap();
    let arr = parsed.as_array().unwrap();
    assert_eq!(arr.len(), 1);
    assert_eq!(arr[0]["name"], "we\"ird\\na\nme.txt");
    assert_eq!(arr[0]["request"], "/d\"q");
    assert_eq!(arr[0]["is_dir"], serde_json::Value::Bool(false));
    assert_eq!(api.content_type(), "application/json");
}

#[test]
fn api_json_matches_serde_shape() {
    let cfg = cfg_with(vec![mt("txt", "text/plain", "T")]);
    let api = API::new(cfg, "root".into(), "/d".into(), "root".into());
    let children = vec![
        ChildInfo { name: "a\ttab.txt".to_string(), is_dir: false },
        ChildInfo { name: "plain".to_string(), is_dir: true },
    ];
    let json = api.json(Some(&children));
    let parsed: serde_json::Value = serde_json::from_str(&json).unwrap();
    let expected: serde_json::Value = serde_json::from_str(
        "[{\"name\":\"a\\ttab.txt\",\"mimetype\":\"text/plain\",\"mimetype_icon\":\"T\",\"is_dir\":false,\"request\":\"/d\"},{\"name\":\"plain\",\"mimetype\":\"application/directory\",\"mimetype_icon\":\"📂\",\"is_dir\":true,\"request\":\"/d\"}]",
    )
    .unwrap();
    assert_eq!(parsed, expected);
}

#[test]
fn http_not_found() {
    let r = HTTP::not_found();
    assert_eq!(r.status, 404);
    assert_eq!(r.content_type, "");
    assert_eq!(r.body, b"Not Found".to_vec());
}

#[test]
fn http_respond_file_ok() {
    let cfg = cfg_with(vec![mt("txt", "text/plain", "T")]);
    let f = File::new(cfg, "a.txt".into(), "/a.txt".into(), ".".into());
    let r = HTTP::respond_file(&f, Some(b"hello".to_vec()));
    assert_eq!(r.status, 200);
    assert_eq!(r.content_type, "text/plain");
    assert_eq!(r.body, b"hello".to_vec());
}

#[test]
fn http_respond_file_missing_and_invalid() {
    let f = File::new(bare_cfg(), "a.txt".into(), "/a.txt".into(), ".".into());
    let gone = HTTP::respond_file(&f, None);
    assert_eq!(gone.status, 404);
    assert_eq!(gone.body, b"Not Found".to_vec());
    let bad = HTTP::respond_file(&f, Some(vec![0xff]));
    assert_eq!(bad.status, 500);
    assert_eq!(bad.body, b"[Invalid UTF-8]".to_vec());
}

#[test]
fn http_respond_directory() {
    let d = Directory::new(bare_cfg(), "root/a".into(), "/a".into(), "root".into());
    let r = HTTP::respond_directory(&d, Some(b"<html/>".to_vec()));
    assert_eq!(r.status, 200);
    assert_eq!(r.content_type, "text/html");
    assert_eq!(r.body, b"<html/>".to_vec());
}

#[test]
fn http_respond_api() {
    let api = API::new(bare_cfg(), "root".into(), "/d".into(), "root".into());
    let children = vec![ChildInfo { name: "x".to_string(), is_dir: true }];
    let r = HTTP::respond_api(&api, Some(&children));
    assert_eq!(r.status, 200);
    assert_eq!(r.content_type, "application/json");
    let parsed: serde_json::Value = serde_json::from_str(std::str::from_utf8(&r.body).unwrap())
        .unwrap();
    assert_eq!(parsed[0]["name"], "x");
    let degraded = HTTP::respond_api(&api, None);
    assert_eq!(degraded.status, 200);
    assert_eq!(degraded.body, b"[]".to_vec());
}
