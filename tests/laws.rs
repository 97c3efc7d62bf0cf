use densky::children::ChildMap;
use densky::node::{CloudFileResolve, DenskyError, OptimizedTreeNodeInsertResult};
use densky::path::get_common_path;
use densky::store::OptimizedTreeContainer;
use densky::thorn::SingleThornContainer;

fn common(a: &str, b: &str) -> Option<String> {
    get_common_path(&a.to_string(), &b.to_string())
}

fn then_common(a: &str, p: Option<String>) -> Option<String> {
    p.and_then(|p| common(a, &p))
}

/// Inserts a file at the root and follows every action, classifying again with `classify`.
fn insert_file(
    container: &mut OptimizedTreeContainer,
    root: u64,
    path: &str,
    first: CloudFileResolve,
    classify: &dyn Fn(&str) -> CloudFileResolve,
) -> u64 {
    let leaf = container
        .add_file(path.to_string(), format!("FILE/{path}.ts"), format!("OUT/{path}.ts"))
        .ok()
        .unwrap();
    let mut target = root;
    let mut res = first;
    loop {
        let action = match container.insert_at(target, leaf, res) {
            Ok(a) => a,
            Err(_) => panic!("insert failed"),
        };
        match container.apply_action(leaf, action) {
            Some((next, suffix)) => {
                assert!(container.nodes.get(next).is_some());
                target = next;
                res = classify(&suffix);
            }
            None => return leaf,
        }
    }
}

/// A classifier like the http router's: a `$` segment makes a variable path.
fn classify(rel: &str) -> CloudFileResolve {
    let parts: Vec<&str> = rel.split('/').collect();
    match parts.iter().position(|p| p.starts_with('$')) {
        Some(i) => CloudFileResolve::Dynamic(
            parts[..i].join("/"),
            parts[i].to_string(),
            parts[i + 1..].join("/"),
        ),
        None => CloudFileResolve::Pass,
    }
}

#[test]
fn pass_leaves_reachable_by_path() {
    let mut c = OptimizedTreeContainer::new("out");
    let root = c.create_root();
    let paths = ["a/b", "a/c", "b", "x/y/z"];
    let mut leaves = vec![];
    for p in paths {
        leaves.push(insert_file(&mut c, root, p, CloudFileResolve::Pass, &classify));
    }
    let r = c.nodes.get(root).unwrap();
    for (p, l) in paths.iter().zip(leaves) {
        assert_eq!(r.static_children.get(&p.to_string()), Some(l));
    }
}

#[test]
fn dynamic_runs_keep_static_keys_plain() {
    let mut c = OptimizedTreeContainer::new("out");
    let root = c.create_root();
    for p in ["a/$x", "a/$x/edit", "a/b/$y/z", "q/$id"] {
        let first = classify(p);
        insert_file(&mut c, root, p, first, &classify);
    }
    let order = c.generation_order(root, 64).unwrap();
    for id in order {
        let n = c.nodes.get(id).unwrap();
        for i in 0..n.static_children.len() {
            assert!(!n.static_children.entry(i).0.starts_with('$'));
        }
    }
}

#[test]
fn common_prefix_symmetric_and_associative() {
    let triples = [
        ("a/b/c/d", "a/b/x", "a/b/c"),
        ("a/b", "x/y", "a"),
        ("a/b", "a/b/c", "a/b/d"),
        ("ab/c", "a/c", "ab"),
    ];
    for (a, b, c) in triples {
        assert_eq!(common(a, b), common(b, a));
        assert_eq!(then_common(a, common(b, c)), common(a, b).and_then(|q| common(&q, c)));
    }
}

#[test]
fn common_prefix_examples() {
    assert_eq!(common("a/b/c/d", "a/b/x"), Some("a/b".to_string()));
    assert_eq!(common("a/b", "x/y"), None);
    assert_eq!(common("a/b", "a/b/c"), Some("a/b".to_string()));
    assert_eq!(common("a//b", "a/b"), None);
    assert_eq!(common("/a", "/a"), None);
    assert_eq!(common("ab", "a/x"), None);
}

#[test]
fn thorn_lookup_goes_outward() {
    let mut t = SingleThornContainer::new();
    assert!(t.insert("middleware".into(), "".into(), 10));
    assert!(t.insert("middleware".into(), "a".into(), 11));
    assert!(t.insert("middleware".into(), "a/b/c".into(), 13));
    assert!(t.insert("fallback".into(), "a/b".into(), 20));
    assert_eq!(t.get_all(&"middleware".into(), &"a/b/c/d".into()), [13, 11, 10]);
    assert_eq!(t.get_all(&"fallback".into(), &"a/b/c".into()), [20]);
    let all = t.get_all_of(&"a/b/c".into());
    assert_eq!(all.len(), 2);
}

#[test]
fn assembly_is_deterministic_under_shuffled_discovery() {
    let build = |order: &[&str]| {
        let mut c = OptimizedTreeContainer::new("out");
        let root = c.create_root();
        for p in order {
            insert_file(&mut c, root, p, CloudFileResolve::Pass, &classify);
        }
        let ids = c.generation_order(root, 32).unwrap();
        let mut done: Vec<(u64, String)> = vec![];
        for id in ids {
            let (s, ch, v) = c.node_sources(id, &done).ok().unwrap();
            let leaf = c.nodes.get(id).unwrap().into_leaf(&c).ok().unwrap();
            done.push((id, format!("<{}|{}|{}|{}>", leaf.pathname, s, ch, v)));
        }
        done.last().unwrap().1.clone()
    };
    let one = build(&["b", "a", "c/d"]);
    let two = build(&["c/d", "b", "a"]);
    assert_eq!(one, two);
    assert_eq!(one, build(&["b", "a", "c/d"]));
    assert!(one.contains("\"a\": () => {"));
}

#[test]
fn actions_name_existing_nodes() {
    let mut c = OptimizedTreeContainer::new("out");
    let root = c.create_root();
    for p in ["api/$v/swagger", "api/$v/docs", "api/x/$id", "_index"] {
        let first = if p == "_index" { CloudFileResolve::Index } else { classify(p) };
        insert_file(&mut c, root, p, first, &classify);
    }
    assert!(c.nodes.get(root).unwrap().index.is_some());
}

#[test]
fn index_lifts_to_its_directory() {
    let mut c = OptimizedTreeContainer::new("out");
    let root = c.create_root();
    let leaf = c
        .add_file("api/v1/_index".into(), "FILE/api/v1/_index.ts".into(), "OUT/x".into())
        .ok()
        .unwrap();
    let sentinel = c.nodes.get(leaf).unwrap().index.unwrap();
    let action = c.insert_at(root, leaf, CloudFileResolve::Index).ok().unwrap();
    match &action {
        OptimizedTreeNodeInsertResult::Resolve(p, s) => {
            assert_eq!(*p, root);
            assert_eq!(s, "api/v1");
        }
        _ => panic!("expected Resolve"),
    }
    let (next, suffix) = c.apply_action(leaf, action).unwrap();
    assert_eq!(c.nodes.get(leaf).unwrap().pathname, "api/v1");
    let done = c.insert_at(next, leaf, classify(&suffix)).ok().unwrap();
    assert!(matches!(done, OptimizedTreeNodeInsertResult::Done));
    let r = c.nodes.get(root).unwrap();
    let node = r.static_children.get(&"api/v1".to_string()).unwrap();
    assert_eq!(c.nodes.get(node).unwrap().index, Some(sentinel));
    for i in 0..r.static_children.len() {
        assert_ne!(r.static_children.entry(i).0, "_index");
    }
}

#[test]
fn top_level_index_is_removed() {
    let mut c = OptimizedTreeContainer::new("out");
    let root = c.create_root();
    let leaf = c.add_file("_index".into(), "FILE/_index.ts".into(), "OUT/x".into()).ok().unwrap();
    let sentinel = c.nodes.get(leaf).unwrap().index;
    let action = c.insert_at(root, leaf, CloudFileResolve::Index).ok().unwrap();
    assert!(matches!(action, OptimizedTreeNodeInsertResult::RemoveNode));
    assert!(c.apply_action(leaf, action).is_none());
    assert!(c.nodes.get(leaf).is_none());
    assert_eq!(c.nodes.get(root).unwrap().index, sentinel);
}

#[test]
fn thorn_conflict_is_reported() {
    let mut c = OptimizedTreeContainer::new("out");
    let root = c.create_root();
    let first = c.add_file("a/_middleware".into(), "F1".into(), "O1".into()).ok().unwrap();
    let r1 = c.insert_at(root, first, CloudFileResolve::SingleThorn("middleware".into()));
    assert!(matches!(r1, Ok(OptimizedTreeNodeInsertResult::Done)));
    let second = c.add_file("a/_middleware".into(), "F2".into(), "O2".into()).ok().unwrap();
    let r2 = c.insert_at(root, second, CloudFileResolve::SingleThorn("middleware".into()));
    assert!(matches!(r2, Err(DenskyError::ThornConflict)));
    assert_eq!(c.single_thorn.get(&"middleware".into(), &"a".into()), Some(first));
}

#[test]
fn multi_thorns_may_repeat() {
    let mut c = OptimizedTreeContainer::new("out");
    let root = c.create_root();
    for _ in 0..2 {
        let l = c.add_file("a/_h".into(), "F".into(), "O".into()).ok().unwrap();
        let r = c.insert_at(root, l, CloudFileResolve::MultiThorn("handler".into()));
        assert!(matches!(r, Ok(OptimizedTreeNodeInsertResult::Done)));
    }
    assert_eq!(c.single_thorn.get_multi(&"handler".into(), &"a".into()).len(), 2);
    assert!(c.single_thorn.get_all_on(&"a".into()).is_empty());
}

#[test]
fn insert_on_missing_node_is_fatal() {
    let mut c = OptimizedTreeContainer::new("out");
    let root = c.create_root();
    let l = c.add_file("a".into(), "F".into(), "O".into()).ok().unwrap();
    assert!(matches!(c.insert_at(999, l, CloudFileResolve::Pass), Err(DenskyError::Fatal)));
    assert!(matches!(c.insert_at(root, root, CloudFileResolve::Pass), Err(DenskyError::Fatal)));
    assert!(matches!(c.insert_at(root, l, CloudFileResolve::Ignore), Ok(OptimizedTreeNodeInsertResult::Done)));
}

#[test]
fn child_map_order_is_by_key() {
    let mut m = ChildMap::new();
    m.insert("b".into(), 2);
    m.insert("a".into(), 1);
    m.insert("c".into(), 3);
    m.insert("a".into(), 4);
    assert_eq!(m.len(), 3);
    let keys: Vec<String> = (0..m.len()).map(|i| m.entry(i).0.clone()).collect();
    assert_eq!(keys, ["a", "b", "c"]);
    assert_eq!(m.get(&"a".into()), Some(4));
    assert_eq!(m.remove(&"b".into()), Some(2));
    assert_eq!(m.get(&"b".into()), None);
}

#[test]
fn node_ids_are_unique_and_hash_is_stable() {
    let mut c = OptimizedTreeContainer::new("out");
    let a = c.create_root();
    let b = c.add_file("x".into(), "F".into(), "O".into()).ok().unwrap();
    assert_ne!(a, b);
    assert_eq!(c.nodes.hash(7), c.nodes.hash(7));
    assert_ne!(c.nodes.hash(7), 7);
}

#[test]
fn variable_file_goes_under_existing_variable_child() {
    let mut c = OptimizedTreeContainer::new("out");
    let root = c.create_root();
    let first = insert_file(&mut c, root, "a/$x/edit", classify("a/$x/edit"), &classify);
    let mid = c.nodes.get(root).unwrap().dynamic_children.get(&"a".to_string()).unwrap();
    let var = c.nodes.get(mid).unwrap().dynamic.as_ref().unwrap().0;
    let leaf = c.add_file("a/$x".into(), "F".into(), "O".into()).ok().unwrap();
    let action = c
        .insert_at(root, leaf, CloudFileResolve::Dynamic("a".into(), "$x".into(), "".into()))
        .ok()
        .unwrap();
    match action {
        OptimizedTreeNodeInsertResult::Resolve(p, s) => {
            assert_eq!(p, var);
            assert_eq!(s, "");
        }
        _ => panic!("expected Resolve under the variable child"),
    }
    assert!(c.nodes.get(first).is_some());
}

#[test]
fn static_files_need_no_intermediate_nodes() {
    let mut c = OptimizedTreeContainer::new("out");
    let root = c.create_root();
    for p in ["a/b", "a/shared-prefix", "other/path"] {
        insert_file(&mut c, root, p, CloudFileResolve::Pass, &classify);
    }
    let r = c.nodes.get(root).unwrap();
    assert_eq!(r.static_children.len(), 3);
    assert_eq!(r.dynamic_children.len(), 0);
}
