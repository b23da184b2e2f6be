use fs_api::config::{Config, Mimetype, Mimetypes, PathMapping, Paths, Provider};
use fs_api::path::FSPath;
use fs_api::resolver::Resolver;
use std::sync::Arc;

fn route(pattern: &str, path: Option<&str>, provider: Option<Provider>) -> PathMapping {
    PathMapping { pattern: pattern.to_string(), path: path.map(|p| p.to_string()), provider }
}

fn resolver(routes: Vec<PathMapping>, root: Option<&str>) -> Resolver {
    Resolver::new(Arc::new(Config {
        api: None,
        mimetypes: None,
        paths: Some(Paths(routes)),
        root_directory: root.map(|r| r.to_string()),
    }))
}

#[test]
fn resolve_no_matching_route_is_not_found() {
    let r = resolver(vec![route("^/docs/(?P<path>.*)$", Some("src"), None)], Some("."));
    assert!(r.resolve("/elsewhere").is_none());
}

#[test]
fn resolve_without_route_table_is_not_found() {
    let r = Resolver::new(Arc::new(Config {
        api: None,
        mimetypes: None,
        paths: None,
        root_directory: Some(".".to_string()),
    }));
    assert!(r.resolve("/anything").is_none());
}

#[test]
fn resolve_invalid_pattern_fails_closed() {
    // The second route would match and validate, but the broken first
    // pattern aborts the whole resolution.
    let r = resolver(
        vec![
            route("(", Some("src"), None),
            route("^/docs/(?P<path>.*)$", Some("src"), None),
        ],
        Some("."),
    );
    assert!(r.resolve("/docs/lib.rs").is_none());
}

#[test]
fn resolve_captured_subpath_joins_under_mapped_root() {
    let r = resolver(vec![route("^/docs/(?P<path>.*)$", Some("src"), None)], Some("."));
    match r.resolve("/docs/lib.rs") {
        Some(FSPath::File(f)) => {
            assert_eq!(f.endpoint, "./src/lib.rs");
            assert_eq!(f.path, "/docs/lib.rs");
            assert_eq!(f.root_dir, "./src");
        },
        _ => panic!("expected a file target"),
    }
}

#[test]
fn resolve_captured_directory_becomes_shell_target() {
    let r = resolver(vec![route("^/files/(?P<path>.*)$", Some("."), None)], Some("."));
    match r.resolve("/files/src") {
        Some(FSPath::Directory(d)) => {
            assert_eq!(d.endpoint, "././src");
            assert_eq!(d.path, "/files/src");
            assert_eq!(d.root_dir, "./.");
        },
        _ => panic!("expected a directory target"),
    }
}

#[test]
fn resolve_api_route_requires_directory() {
    let r = resolver(
        vec![route("^/api/(?P<path>.*)$", Some("."), Some(Provider::Api))],
        Some("."),
    );
    match r.resolve("/api/src") {
        Some(FSPath::API(a)) => {
            assert_eq!(a.endpoint, "././src");
            assert_eq!(a.path, "/api/src");
            assert_eq!(a.root_dir, "./.");
        },
        _ => panic!("expected a listing target"),
    }
    // An existing plain file under an Api route is refused.
    assert!(r.resolve("/api/src/lib.rs").is_none());
}

#[test]
fn resolve_fixed_route_serves_mapped_path() {
    let r = resolver(vec![route("^/$", Some("src"), None)], Some("."));
    match r.resolve("/") {
        Some(FSPath::Directory(d)) => {
            assert_eq!(d.endpoint, "./src");
            assert_eq!(d.path, "/");
            assert_eq!(d.root_dir, ".");
        },
        _ => panic!("expected the mapped directory"),
    }
}

#[test]
fn resolve_fixed_route_uses_configured_provider() {
    // A zero-capture-group match is served by the route's provider, a
    // listing here, not unconditionally by the filesystem provider.
    let r = resolver(vec![route("^/$", Some("src"), Some(Provider::Api))], Some("."));
    match r.resolve("/") {
        Some(FSPath::API(a)) => {
            assert_eq!(a.endpoint, "./src");
            assert_eq!(a.path, "/");
            assert_eq!(a.root_dir, ".");
        },
        _ => panic!("expected a listing target"),
    }
}

#[test]
fn resolve_first_route_wins() {
    let r = resolver(
        vec![
            route("^/x/(?P<path>.*)$", Some("src"), None),
            route("^/x/(?P<path>.*)$", Some("tests"), None),
        ],
        Some("."),
    );
    match r.resolve("/x/lib.rs") {
        Some(FSPath::File(f)) => assert_eq!(f.endpoint, "./src/lib.rs"),
        _ => panic!("expected the first route's target"),
    }
}

#[test]
fn resolve_no_fallthrough_after_first_match() {
    // The first route matches but its target does not exist; the second
    // would resolve, yet it is never evaluated.
    let r = resolver(
        vec![
            route("^/x/(?P<path>.*)$", Some("no-such-dir"), None),
            route("^/x/(?P<path>.*)$", Some("src"), None),
        ],
        Some("."),
    );
    assert!(r.resolve("/x/lib.rs").is_none());
}

#[test]
fn resolve_missing_target_is_not_found() {
    let r = resolver(vec![route("^/docs/(?P<path>.*)$", Some("src"), None)], Some("."));
    assert!(r.resolve("/docs/absent.rs").is_none());
}

#[test]
fn resolve_match_without_path_group_skips_route() {
    // A pattern with a group not named "path" matches, decides nothing, and
    // the next route takes over.
    let r = resolver(
        vec![
            route("^/(?P<other>docs)/.*$", Some("tests"), None),
            route("^/docs/(?P<path>.*)$", Some("src"), None),
        ],
        Some("."),
    );
    match r.resolve("/docs/lib.rs") {
        Some(FSPath::File(f)) => assert_eq!(f.endpoint, "./src/lib.rs"),
        _ => panic!("expected the second route's target"),
    }
}

#[test]
fn resolve_file_carries_configuration() {
    let resolver = Resolver::new(Arc::new(Config {
        api: None,
        mimetypes: Some(Mimetypes(vec![Mimetype {
            extension: "rs".to_string(),
            icon: "R".to_string(),
            mimetype: "text/x-rust".to_string(),
        }])),
        paths: Some(Paths(vec![route("^/docs/(?P<path>.*)$", Some("src"), None)])),
        root_directory: Some(".".to_string()),
    }));
    match resolver.resolve("/docs/lib.rs") {
        Some(FSPath::File(f)) => assert_eq!(f.mimetype(), "text/x-rust"),
        _ => panic!("expected a file target"),
    }
}

#[test]
fn captured_subpath_target_construction() {
    // The shape a captured route computes: the capture joined under the
    // root directory and the mapped path, with one leading separator
    // stripped from the subpath.
    let effective_root = fs_api::text::path_join_under("root_directory", "content");
    assert_eq!(effective_root, "root_directory/content");
    let target = fs_api::text::path_join(&effective_root, "readme.txt");
    assert_eq!(target, "root_directory/content/readme.txt");
    let stripped = fs_api::text::path_join(&effective_root, "/readme.txt");
    assert_eq!(stripped, "root_directory/content/readme.txt");
}

#[test]
fn root_directory_joins_under_cwd() {
    let rel = resolver(vec![], Some("site"));
    assert_eq!(rel.root_directory("/work"), "/work/site");
    let abs = resolver(vec![], Some("/srv/files"));
    assert_eq!(abs.root_directory("/work"), "/srv/files");
    let none = resolver(vec![], None);
    assert_eq!(none.root_directory("/work"), "/work/default/path");
}

#[test]
fn fs_and_api_validate_targets() {
    let r = resolver(vec![], Some("."));
    match r.fs("/req", "src", ".".to_string()) {
        Some(FSPath::Directory(d)) => {
            assert_eq!(d.endpoint, "./src");
            assert_eq!(d.path, "/req");
        },
        _ => panic!("expected a directory"),
    }
    match r.fs("/req", "/src/lib.rs", ".".to_string()) {
        Some(FSPath::File(f)) => assert_eq!(f.endpoint, "./src/lib.rs"),
        _ => panic!("expected a file"),
    }
    assert!(r.fs("/req", "missing", ".".to_string()).is_none());
    assert!(r.api("/req", "src/lib.rs", ".".to_string()).is_none());
    match r.api("/req", "src", ".".to_string()) {
        Some(FSPath::API(a)) => assert_eq!(a.endpoint, "./src"),
        _ => panic!("expected a listing target"),
    }
}
