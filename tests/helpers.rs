use densky::adapter::{import, import_filename, update_payload, CloudFile, LogLevel, WatchEvent, WatchKind};
use densky::node::DenskyError;
use densky::path::{join_paths, normalize_path, parent_path, strip_leading_slash, strip_prefix_if_can};
use densky::strategy::{split_extension, with_extension};
use densky::update::CloudManifestUpdate;
use densky::url_matcher::{decimal, UrlMatcher, UrlMatcherSegment};
use densky::walker::{WalkerContainer, WalkerLeaf, WalkerTree};

#[test]
fn path_helpers() {
    assert_eq!(strip_prefix_if_can("a/b/c", "a/b"), "/c");
    assert_eq!(strip_prefix_if_can("a/b/c", "x"), "a/b/c");
    assert_eq!(strip_leading_slash("/a"), "a");
    assert_eq!(strip_leading_slash("a"), "a");
    assert_eq!(parent_path("a/b/c"), "a/b");
    assert_eq!(parent_path("abc"), "");
}

#[test]
fn join_and_normalize() {
    assert_eq!(join_paths("_index", "out/http"), "out/http/_index");
    assert_eq!(join_paths("/abs/x", "base"), "/abs/x");
    assert_eq!(join_paths("./a/../b", "base/"), "base/b");
    assert_eq!(join_paths("../c", "x/y"), "x/c");
    assert_eq!(normalize_path("a/./b/../c"), "/a/c");
    assert_eq!(normalize_path("/x/y"), "/x/y");
}

#[test]
fn extensions() {
    assert_eq!(with_extension("d", "ts"), "d.ts");
    assert_eq!(with_extension("", "ts"), "");
    let (stem, ext) = split_extension("a/b/c.ts");
    assert_eq!((stem.as_str(), ext.as_str()), ("a/b/c", "ts"));
    let (stem, ext) = split_extension("a.x/.env");
    assert_eq!((stem.as_str(), ext.as_str()), ("a.x/.env", ""));
}

#[test]
fn helpers_of_plugins() {
    let f = CloudFile::new("/full/a.ts", "a.ts", "/out/a.ts");
    assert_eq!(f.relative_path, "a.ts");
    assert_eq!(import("{ x }", "./a.ts"), "import { x } from \"./a.ts\";");
    assert_eq!(import_filename("./a.ts"), "./a.ts");
    assert!(matches!(LogLevel::from_name("dbg"), LogLevel::Debug));
    assert!(matches!(LogLevel::from_name("none"), LogLevel::Off));
    assert!(matches!(LogLevel::from_name("bogus"), LogLevel::Info));
    let events = vec![
        WatchEvent { kind: WatchKind::Create, path: "a.ts".into() },
        WatchEvent { kind: WatchKind::Modify, path: "b.ts".into() },
    ];
    assert_eq!(update_payload(&events), "[[\"create\",\"a.ts\"],[\"modify\",\"b.ts\"]]");
}

#[test]
fn manifest_updates_merge() {
    let mut a = CloudManifestUpdate::new()
        .add_import("{ A }".into(), "x.ts".into())
        .add_argument("req".into(), "HTTPRequest".into())
        .append_content("one;");
    let b = CloudManifestUpdate::new_content("two;".into())
        .add_import("{ B }".into(), "x.ts".into())
        .add_argument("req".into(), "HTTPRequest".into());
    assert!(a.merge(&b).is_ok());
    assert_eq!(a.content().unwrap(), "one;two;");
    assert_eq!(a.imports().get(&"x.ts".into()).unwrap(), "{ A }{ B }");
    let c = CloudManifestUpdate::new().add_argument("req".into(), "Other".into());
    assert!(matches!(a.merge(&c), Err(DenskyError::ArgumentConflict)));
    assert_eq!(a.arguments().get(&"req".into()).unwrap(), "HTTPRequest");
}

#[test]
fn url_matchers() {
    let m = UrlMatcher::new("api/$id/x".to_string());
    assert!(m.has_variables);
    assert_eq!(m.segments.len(), 3);
    assert!(m.segments[1].is_var());
    assert!(m.segments[0].is_static());
    assert_eq!(
        m.serial_inline(),
        "[{ raw: \"api\", isVar: false },{ raw: \"$id\", isVar: true, varname: \"id\" },{ raw: \"x\", isVar: false }]"
    );
    assert_eq!(m.start_decl("req"), "__matcher_matcher_START(req.__accumulator__.segments, req.params, new Map())");
    assert_eq!(m.exact_decl("req", true), "req.__accumulator__.segments.length === 0");
    let s = UrlMatcher::new("a/b".to_string());
    assert!(!s.has_variables);
    assert_eq!(s.exact_decl("r", false), "r.__accumulator__.path === 'a/b'");
    assert_eq!(s.start_inline("r"), "r.__accumulator__.path.startsWith('a/b')");
    assert_eq!(s.serial_decl(), "");
    assert_eq!(
        s.update_decl("r"),
        "// @ts-ignore\nr.__accumulator__.segments = r.__accumulator__.segments.slice(2);\n// @ts-ignore\nr.__accumulator__.path = r.__accumulator__.segments.join(\"/\");"
    );
    assert!(UrlMatcherSegment::Var("x".into()).to_json().contains("varname"));
    assert_eq!(decimal(0), "0");
    assert_eq!(decimal(1207), "1207");
}

#[test]
fn walker_tables() {
    let mut c = WalkerContainer::new("out");
    assert!(c.get_root().is_none());
    let root = c.create_root();
    assert_eq!(c.get_root_id(), Some(root));
    assert_eq!(c.get_root().unwrap().output_path, "out/_index");
    assert!(c.get_tree(0).is_none());
    assert!(c.get_tree(2).is_none());
    let l = c.add_leaf(WalkerLeaf::new("/a".into(), "a.ts".into(), "o/a.ts".into()));
    assert_eq!(l, 1);
    assert_eq!(c.get_leaf(1).unwrap().path, "/a");
    assert_eq!(c.id_tree(), 2);
    let t = c.add_tree(WalkerTree::new_detailed("/x", "x", "o/x"));
    assert_eq!(c.get_tree_locked(t).unwrap().id, t);
}

#[test]
fn walker_common_paths() {
    let t = WalkerTree::new_detailed("path", "a/b/c/and/more", "out");
    assert_eq!(t.get_common_path("a/b/some/other".into()), Some("a/b".to_string()));
    assert_eq!(t.get_common_path("x/y".into()), None);
    assert_eq!(t.get_common_path("a/b/c".into()), Some("a/b/c".to_string()));
    assert_eq!(t.get_common_path("a//b".into()), None);
    assert!(WalkerTree::new_detailed("/a/_fallback", "", "").is_convention());
    assert!(!WalkerTree::new_detailed("/a/b", "", "").is_convention());
}
