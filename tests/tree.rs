use densky::node::{CloudFileResolve, DenskyError, OptimizedTreeNodeInsertResult};
use densky::store::OptimizedTreeContainer;
use densky::thorn::SingleThornContainer;

fn create_dummy_leaf(container: &mut OptimizedTreeContainer, path: &str, file_name: &str) -> u64 {
    let file_path = format!("FILE/{file_name}");
    let output_path = format!("OUTPUT/{file_name}");
    container
        .add_file(path.to_string(), file_path, output_path)
        .ok()
        .expect("room for two ids")
}

fn insert_dummy_leaf(
    container: &mut OptimizedTreeContainer,
    root: u64,
    path: &str,
    file_name: &str,
    resolved: CloudFileResolve,
) -> (u64, Result<OptimizedTreeNodeInsertResult, DenskyError>) {
    let leaf = create_dummy_leaf(container, path, file_name);
    let insert_result = container.insert_at(root, leaf, resolved);
    (leaf, insert_result)
}

fn is_done(r: &Result<OptimizedTreeNodeInsertResult, DenskyError>) -> bool {
    matches!(r, Ok(OptimizedTreeNodeInsertResult::Done))
}

#[test]
fn simple_static_insert() {
    let mut container = OptimizedTreeContainer::new("OUTPUT_DIR");
    let root = container.create_root();

    let (static_leaf, insert_result) =
        insert_dummy_leaf(&mut container, root, "/a/b", "a/b.ts", CloudFileResolve::Pass);
    assert!(is_done(&insert_result));

    let root_node = container.nodes.get(root).unwrap();
    assert!(
        root_node.static_children.len() == 1,
        "root should insert 1 node, but it inserts {} nodes",
        root_node.static_children.len()
    );
    assert_eq!(
        root_node.static_children.get(&"a/b".to_string()),
        Some(static_leaf),
        "root should insert leaf as \"a/b\", but it inserts it as {:?}",
        root_node.static_children.entry(0).0
    );
}

#[test]
fn multi_static_insert() {
    let mut container = OptimizedTreeContainer::new("OUTPUT_DIR");
    let root = container.create_root();

    let (leaf1, r1) = insert_dummy_leaf(&mut container, root, "/a/b", "a/b.ts", CloudFileResolve::Pass);
    assert!(is_done(&r1));
    let (leaf2, r2) = insert_dummy_leaf(
        &mut container,
        root,
        "/a/shared-prefix",
        "a/shared-prefix.ts",
        CloudFileResolve::Pass,
    );
    assert!(is_done(&r2));
    let (leaf3, r3) = insert_dummy_leaf(
        &mut container,
        root,
        "/other/path",
        "other/path.ts",
        CloudFileResolve::Pass,
    );
    assert!(is_done(&r3));

    let children = &container.nodes.get(root).unwrap().static_children;
    assert!(
        children.len() == 3,
        "root should insert 1 node, but it inserts {} nodes",
        children.len()
    );
    assert_eq!(
        children.get(&"a/b".to_string()),
        Some(leaf1),
        "root should insert leaf 1 as \"a/b\""
    );
    assert_eq!(
        children.get(&"a/shared-prefix".to_string()),
        Some(leaf2),
        "root should insert leaf 2 as \"a/shared-prefix\""
    );
    assert_eq!(
        children.get(&"other/path".to_string()),
        Some(leaf3),
        "root should insert leaf 3 as \"other/path\""
    );
}

#[test]
fn simple_dynamic_insert() {
    let mut container = OptimizedTreeContainer::new("OUTPUT_DIR");
    let root = container.create_root();

    let (leaf, insert_result) = insert_dummy_leaf(
        &mut container,
        root,
        "/a/$b",
        "a/b.ts",
        CloudFileResolve::Dynamic("a".into(), "b".into(), "".into()),
    );
    assert!(is_done(&insert_result));

    let children = &container.nodes.get(root).unwrap().dynamic_children;
    assert!(
        children.len() == 1,
        "root should insert 1 node, but it inserts {} nodes",
        children.len()
    );
    let a = children.get(&"a".to_string());
    assert!(a.is_some(), "root should insert leaf as \"a\"");
    let a_node = container.nodes.get(a.unwrap()).unwrap();
    assert_eq!(a_node.dynamic.as_ref().map(|d| (d.0, d.1.clone())), Some((leaf, "b".to_string())));
}

#[test]
fn multi_dynamic_insert() {
    let mut container = OptimizedTreeContainer::new("OUTPUT_DIR");
    let root = container.create_root();

    let (leaf, result) = insert_dummy_leaf(
        &mut container,
        root,
        "a/b/$c/d",
        "a/b/$c/d.ts",
        CloudFileResolve::Dynamic("a/b".into(), "$c".into(), "d".into()),
    );
    let result = result.ok().unwrap();
    println!("{:?}", matches!(result, OptimizedTreeNodeInsertResult::Resolve(_, _)));
    let OptimizedTreeNodeInsertResult::Resolve(_, ref new_relative) = result else {
        panic!("Insert result should be OptimizedTreeNodeInsertResult::Resolve");
    };
    assert_eq!(new_relative, "d");
    let (new_parent, _) = container.apply_action(leaf, result).unwrap();
    let a = container.insert_at(new_parent, leaf, CloudFileResolve::Pass);
    assert!(is_done(&a));

    let (leaf, result) = insert_dummy_leaf(
        &mut container,
        root,
        "a/$b/c",
        "a/$b/c.ts",
        CloudFileResolve::Dynamic("a".into(), "$b".into(), "c".into()),
    );
    let result = result.ok().unwrap();
    let OptimizedTreeNodeInsertResult::MergeNodes(_, ref new_relative) = result else {
        panic!("Insert result should be OptimizedTreeNodeInsertResult::MergeNodes");
    };
    assert_eq!(new_relative, "$b/c");
    let (new_parent, _) = container.apply_action(leaf, result).unwrap();

    let result = container
        .insert_at(
            new_parent,
            leaf,
            CloudFileResolve::Dynamic("".into(), "$b".into(), "c".into()),
        )
        .ok()
        .unwrap();
    let OptimizedTreeNodeInsertResult::Resolve(_, ref new_relative) = result else {
        panic!("Insert result should be OptimizedTreeNodeInsertResult::Resolve");
    };
    assert_eq!(new_relative, "c");
    let (new_parent, _) = container.apply_action(leaf, result).unwrap();
    let a = container.insert_at(new_parent, leaf, CloudFileResolve::Pass);
    assert!(is_done(&a));

    // one intermediate "a" under the root, holding "b" and the variable "$b"
    let root_node = container.nodes.get(root).unwrap();
    assert_eq!(root_node.dynamic_children.len(), 1);
    let mid = root_node.dynamic_children.get(&"a".to_string()).unwrap();
    let mid_node = container.nodes.get(mid).unwrap();
    assert_eq!(mid_node.relative_pathname, "a");
    assert!(mid_node.dynamic_children.get(&"b".to_string()).is_some());
    assert_eq!(mid_node.dynamic.as_ref().unwrap().1, "$b");
}

#[test]
fn single_thorn_container() {
    let mut container = SingleThornContainer::new();
    container.insert("middleware".into(), "a/b/c".into(), 1);
    container.insert("middleware".into(), "a".into(), 3);
    container.insert("middleware".into(), "a/b".into(), 2);
    container.insert("fallback".into(), "a/b".into(), 4);

    assert!(container.paths().len() == 3);

    let middlewares = container.get_all(&"middleware".into(), &"a/b/c".into());
    assert_eq!(middlewares, [1, 2, 3]);
}
