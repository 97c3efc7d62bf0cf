use densky::adapter::{must_show, LogFilter, LogLevel};
use densky::strategy::is_route_source;
use densky::config::{CloudEntry, CloudVersion, ConfigFile};
use densky::http_router::{
    cloud_before_manifest, cloud_file_resolve, cloud_manifest, ends_with, passes_filters, HTTPMethod,
};
use densky::manifest::OptimizedTreeLeaf;
use densky::node::{CloudFileResolve, DenskyError};
use densky::path::{dir_path, dotted, relative_path};
use densky::walker::{HttpLeaf, HttpTree, WalkerLeaf, WalkerTree};

fn dynamic_parts(r: Result<CloudFileResolve, DenskyError>) -> (String, String, String) {
    match r {
        Ok(CloudFileResolve::Dynamic(a, b, c)) => (a, b, c),
        _ => panic!("expected a variable path"),
    }
}

#[test]
fn router_classifies_files() {
    assert_eq!(
        dynamic_parts(cloud_file_resolve("a/b/$c/d.ts")),
        ("a/b".to_string(), "$c".to_string(), "d".to_string())
    );
    assert_eq!(
        dynamic_parts(cloud_file_resolve("api/$version/swagger.ts")),
        ("api".to_string(), "$version".to_string(), "swagger".to_string())
    );
    assert_eq!(dynamic_parts(cloud_file_resolve("$id.ts")), ("".to_string(), "$id".to_string(), "".to_string()));
    assert!(matches!(cloud_file_resolve("_index.ts"), Ok(CloudFileResolve::Index)));
    assert!(matches!(cloud_file_resolve("a/_middleware.ts"), Ok(CloudFileResolve::SingleThorn(n)) if n == "middleware"));
    assert!(matches!(cloud_file_resolve("a/_fallback.ts"), Ok(CloudFileResolve::SingleThorn(n)) if n == "fallback"));
    assert!(matches!(cloud_file_resolve("a/_draft.ts"), Ok(CloudFileResolve::Ignore)));
    assert!(matches!(cloud_file_resolve("a/b.ts"), Ok(CloudFileResolve::Pass)));
    assert!(matches!(cloud_file_resolve("a/"), Err(DenskyError::PathResolve)));
}

#[test]
fn host_filters() {
    assert!(passes_filters("a.ts", None, Some(".ts")));
    assert!(!passes_filters("a.html", None, Some(".ts")));
    assert!(!passes_filters("a.ts", Some("_"), None));
    assert!(ends_with("abc", "bc"));
    assert!(!ends_with("c", "bc"));
}

fn leaf(pathname: &str, rel: &str, index: Option<&str>, root: bool, is_static: bool, var: Option<&str>) -> OptimizedTreeLeaf {
    OptimizedTreeLeaf {
        pathname: pathname.into(),
        relative_pathname: rel.into(),
        index: index.map(|s| s.to_string()),
        single_thorns: vec![("middleware".into(), vec!["m1.ts".into(), "m0.ts".into()])],
        is_root: root,
        is_static,
        varname: var.map(|s| s.to_string()),
    }
}

#[test]
fn router_generates_code() {
    let before = cloud_before_manifest();
    assert_eq!(before.imports().get(&"densky/http-router.ts".into()).unwrap(), "{ type HTTPRequest }");
    assert_eq!(before.arguments().get(&"req".into()).unwrap(), "HTTPRequest");

    let s = cloud_manifest(leaf("/a", "a", Some("x.ts"), false, true, None), "".into(), "".into(), "".into())
        .ok()
        .unwrap();
    assert_eq!(
        s.content().unwrap(),
        "// /a\nreturn {\nmiddlewares: [\"m1.ts\",\"m0.ts\",],\nfallbacks: [],\ncontroller: \"x.ts\"\n};"
    );
    assert!(matches!(
        cloud_manifest(leaf("/a", "a", None, false, true, None), "".into(), "".into(), "".into()),
        Err(DenskyError::Fatal)
    ));
    let r = cloud_manifest(leaf("/", "", None, true, false, None), "\"a\": () => {x},".into(), "C".into(), "D".into())
        .ok()
        .unwrap();
    let text = r.content().unwrap();
    assert!(text.starts_with("{\nconst __DENSKY_static_children = { \"a\": () => {x}, };"));
    assert!(text.ends_with("// /\n\nD\nreturn null;"));
    let v = cloud_manifest(leaf("/a/$id", "$id", None, false, false, Some("$id")), "".into(), "".into(), "".into())
        .ok()
        .unwrap();
    assert!(v.content().unwrap().contains("req.params.set(\"id\", __var_id);"));
    let i = cloud_manifest(leaf("/a/b", "a/b", None, false, false, None), "".into(), "".into(), "".into())
        .ok()
        .unwrap();
    assert!(i.content().unwrap().contains("segments.slice(2);"));
}

#[test]
fn relative_imports() {
    assert_eq!(relative_path("/a/b/c", "/a").unwrap(), "./b/c");
    assert_eq!(relative_path("/a/x", "/a/b").unwrap(), "../x");
    assert_eq!(dotted("b"), "./b");
    assert_eq!(dotted("../b"), "../b");
    assert_eq!(dir_path("a/b.ts"), Some("a".to_string()));
    assert_eq!(dir_path("/"), None);
    let l = WalkerLeaf::new("/p".into(), "/src/routes/a/index.ts".into(), "/out/http/a/index.ts".into());
    assert_eq!(HttpLeaf::resolve_import(&l, "./util.ts").unwrap(), "../../../src/routes/a/util.ts");
    assert_eq!(HttpLeaf::resolve_import(&l, "npm:x").unwrap(), "npm:x");
    let t = WalkerTree::new_detailed("/a", "a", "/out/http/a/_index.ts");
    assert_eq!(HttpTree::resolve_import(&t, "/out/http/b.ts").unwrap(), "../b.ts");
    assert_eq!(HttpTree::resolve_import(&t, "x.ts").unwrap(), "x.ts");
}

#[test]
fn configuration() {
    assert!(matches!(CloudVersion::from_text("^1.0.0".into()), CloudVersion::Semver(s) if s == "^1.0.0"));
    assert!(matches!(CloudVersion::from_text("./clouds/router".into()), CloudVersion::Path(_)));
    let c = ConfigFile::assemble(
        "/proj",
        None,
        None,
        vec![Some("vendor".into()), None],
        vec![
            ("http-router".into(), CloudEntry::Version("^1".into())),
            ("views".into(), CloudEntry::Table(None)),
        ],
    )
    .ok()
    .unwrap();
    assert!(!c.verbose);
    assert_eq!(c.output, "/proj/.densky");
    assert_eq!(c.vendor, ["/proj/vendor"]);
    assert_eq!(c.dependencies.len(), 2);
    assert!(matches!(&c.dependencies[1].version, CloudVersion::Semver(s) if s == "*"));
    let bad = ConfigFile::assemble("/p", Some(true), None, Vec::new(), vec![("x".into(), CloudEntry::Invalid)]);
    assert!(matches!(bad, Err(DenskyError::Config)));
}


#[test]
fn http_methods() {
    assert!(matches!(HTTPMethod::from_string("get".into()), Some(HTTPMethod::GET)));
    assert!(matches!(HTTPMethod::from_string("Options".into()), Some(HTTPMethod::OPTIONS)));
    assert!(HTTPMethod::from_string("fetch".into()).is_none());
    assert!(matches!(HTTPMethod::from_upper("ANY"), Some(HTTPMethod::ANY)));
    assert!(HTTPMethod::from_upper("any").is_none());
}

#[test]
fn log_filters() {
    assert!(matches!(LogFilter::from_setting(None), LogFilter::All));
    assert!(matches!(LogFilter::from_setting(Some("None")), LogFilter::Off));
    let f = LogFilter::from_setting(Some("OTree,CLOUD"));
    match &f {
        LogFilter::List(l) => assert_eq!(l, &["OTree".to_string(), "CLOUD".to_string()]),
        _ => panic!("expected a list"),
    }
    assert!(must_show(&LogLevel::Info, &LogLevel::Debug, &f, "OTreeNode"));
    assert!(!must_show(&LogLevel::Info, &LogLevel::Debug, &f, "SingleContainer"));
    assert!(!must_show(&LogLevel::Trace, &LogLevel::Info, &LogFilter::All, "x"));
    assert!(!must_show(&LogLevel::Error, &LogLevel::Info, &LogFilter::Off, "x"));
}

#[test]
fn route_sources_and_fallback() {
    assert!(is_route_source("a/b.ts"));
    assert!(!is_route_source("a/b.html"));
    assert!(!is_route_source("a/ts"));
    assert!(matches!(CloudFileResolve::or_pass(None), CloudFileResolve::Pass));
    assert!(matches!(CloudFileResolve::or_pass(Some(CloudFileResolve::Index)), CloudFileResolve::Index));
}
