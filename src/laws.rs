//! Properties of whole runs of insertions.
use vstd::prelude::*;

use crate::insert::insert_post;
use crate::node::{CloudFileResolve, DenskyError, OptimizedTreeNode, OptimizedTreeNodeInsertResult};
use crate::path::strip_slash_spec;
use crate::thorn::SingleThornContainer;

verus! {

/// The key a leaf gets as a static child: its relative pathname without a leading slash.
pub open spec fn static_key(store: Map<u64, OptimizedTreeNode>, leaf: u64) -> Seq<char> {
    strip_slash_spec(store[leaf].relative_pathname@)
}

/// A run of insertions into one node: step `i` takes the node from `nodes[i]` to
/// `nodes[i + 1]` and the rest of the tree from `stores[i]` to `stores[i + 1]`,
/// inserting `leaves[i]` as `resolutions[i]` says, with result `results[i]`.
pub open spec fn is_run(
    nodes: Seq<OptimizedTreeNode>,
    stores: Seq<Map<u64, OptimizedTreeNode>>,
    nexts: Seq<u64>,
    thorns: Seq<SingleThornContainer>,
    leaves: Seq<u64>,
    resolutions: Seq<CloudFileResolve>,
    results: Seq<Result<OptimizedTreeNodeInsertResult, DenskyError>>,
) -> bool {
    &&& nodes.len() == leaves.len() + 1
    &&& stores.len() == leaves.len() + 1
    &&& thorns.len() == leaves.len() + 1
    &&& nexts.len() == leaves.len()
    &&& resolutions.len() == leaves.len()
    &&& results.len() == leaves.len()
    &&& forall|i: int|
        0 <= i < leaves.len() ==> insert_post(
            #[trigger] nodes[i],
            nodes[i + 1],
            stores[i],
            stores[i + 1],
            nexts[i],
            thorns[i],
            thorns[i + 1],
            leaves[i],
            resolutions[i],
            results[i],
        )
}

/// After a run of `Pass` insertions of leaves with distinct paths, every leaf is
/// reached from the node through its path: the static child under the leaf's path
/// (without a leading slash) is that leaf.
pub proof fn lemma_pass_run_reaches_every_leaf(
    nodes: Seq<OptimizedTreeNode>,
    stores: Seq<Map<u64, OptimizedTreeNode>>,
    nexts: Seq<u64>,
    thorns: Seq<SingleThornContainer>,
    leaves: Seq<u64>,
    resolutions: Seq<CloudFileResolve>,
    results: Seq<Result<OptimizedTreeNodeInsertResult, DenskyError>>,
)
    requires
        is_run(nodes, stores, nexts, thorns, leaves, resolutions, results),
        forall|i: int| 0 <= i < leaves.len() ==> #[trigger] resolutions[i] is Pass,
        forall|i: int, j: int|
            0 <= i < j < leaves.len() ==> #[trigger] static_key(stores[i], leaves[i]) != #[trigger] static_key(
                stores[j],
                leaves[j],
            ),
    ensures
        forall|i: int|
            0 <= i < leaves.len() ==> nodes.last().static_children@.contains_key(
                #[trigger] static_key(stores[i], leaves[i]),
            ) && nodes.last().static_children@[static_key(stores[i], leaves[i])] == leaves[i],
{
    lemma_pass_prefix(nodes, stores, nexts, thorns, leaves, resolutions, results, leaves.len() as int);
}

proof fn lemma_pass_prefix(
    nodes: Seq<OptimizedTreeNode>,
    stores: Seq<Map<u64, OptimizedTreeNode>>,
    nexts: Seq<u64>,
    thorns: Seq<SingleThornContainer>,
    leaves: Seq<u64>,
    resolutions: Seq<CloudFileResolve>,
    results: Seq<Result<OptimizedTreeNodeInsertResult, DenskyError>>,
    n: int,
)
    requires
        is_run(nodes, stores, nexts, thorns, leaves, resolutions, results),
        0 <= n <= leaves.len(),
        forall|i: int| 0 <= i < leaves.len() ==> #[trigger] resolutions[i] is Pass,
        forall|i: int, j: int|
            0 <= i < j < leaves.len() ==> #[trigger] static_key(stores[i], leaves[i]) != #[trigger] static_key(
                stores[j],
                leaves[j],
            ),
    ensures
        forall|i: int|
            0 <= i < n ==> nodes[n].static_children@.contains_key(
                #[trigger] static_key(stores[i], leaves[i]),
            ) && nodes[n].static_children@[static_key(stores[i], leaves[i])] == leaves[i],
    decreases n,
{
    if n > 0 {
        lemma_pass_prefix(nodes, stores, nexts, thorns, leaves, resolutions, results, n - 1);
        let k = n - 1;
        assert(insert_post(
            nodes[k],
            nodes[k + 1],
            stores[k],
            stores[k + 1],
            nexts[k],
            thorns[k],
            thorns[k + 1],
            leaves[k],
            resolutions[k],
            results[k],
        ));
        assert(resolutions[k] is Pass);
        assert forall|i: int| 0 <= i < n implies nodes[n].static_children@.contains_key(
            #[trigger] static_key(stores[i], leaves[i]),
        ) && nodes[n].static_children@[static_key(stores[i], leaves[i])] == leaves[i] by {
            if i < k {
                assert(static_key(stores[i], leaves[i]) != static_key(stores[k], leaves[k]));
            }
        }
    }
}

/// No static child key of `n` starts with `$`.
pub open spec fn no_variable_static_key(n: OptimizedTreeNode) -> bool {
    forall|k: Seq<char>| #[trigger] n.static_children@.contains_key(k) ==> !(k.len() > 0 && k[0] == '$')
}

/// Every node of `store` has no static child key starting with `$`.
pub open spec fn store_has_no_variable_static_key(store: Map<u64, OptimizedTreeNode>) -> bool {
    forall|id: u64| #[trigger] store.contains_key(id) ==> no_variable_static_key(store[id])
}

/// A `Dynamic` insertion keeps every node free of static child keys that start with `$`
/// (each node has at most one variable child, the single `dynamic` slot).
pub proof fn lemma_dynamic_keeps_static_keys(
    os: OptimizedTreeNode,
    fs: OptimizedTreeNode,
    onodes: Map<u64, OptimizedTreeNode>,
    fnodes: Map<u64, OptimizedTreeNode>,
    next: u64,
    othorns: SingleThornContainer,
    fthorns: SingleThornContainer,
    leaf_id: u64,
    res: CloudFileResolve,
    r: Result<OptimizedTreeNodeInsertResult, DenskyError>,
)
    requires
        insert_post(os, fs, onodes, fnodes, next, othorns, fthorns, leaf_id, res, r),
        res is Dynamic,
        no_variable_static_key(os),
        store_has_no_variable_static_key(onodes),
    ensures
        no_variable_static_key(fs),
        store_has_no_variable_static_key(fnodes),
{
    assert forall|id: u64| #[trigger] fnodes.contains_key(id) implies no_variable_static_key(fnodes[id]) by {
        if onodes.contains_key(id) {
            assert(no_variable_static_key(onodes[id]));
        }
    }
}

/// After a run of `Dynamic` insertions into one node, no node of the tree, that node
/// included, has a static child key that starts with `$`, given none had one before.
pub proof fn lemma_dynamic_run_keeps_static_keys(
    nodes: Seq<OptimizedTreeNode>,
    stores: Seq<Map<u64, OptimizedTreeNode>>,
    nexts: Seq<u64>,
    thorns: Seq<SingleThornContainer>,
    leaves: Seq<u64>,
    resolutions: Seq<CloudFileResolve>,
    results: Seq<Result<OptimizedTreeNodeInsertResult, DenskyError>>,
)
    requires
        is_run(nodes, stores, nexts, thorns, leaves, resolutions, results),
        forall|i: int| 0 <= i < leaves.len() ==> #[trigger] resolutions[i] is Dynamic,
        no_variable_static_key(nodes[0]),
        store_has_no_variable_static_key(stores[0]),
    ensures
        no_variable_static_key(nodes.last()),
        store_has_no_variable_static_key(stores.last()),
{
    lemma_dynamic_prefix(nodes, stores, nexts, thorns, leaves, resolutions, results, leaves.len() as int);
}

proof fn lemma_dynamic_prefix(
    nodes: Seq<OptimizedTreeNode>,
    stores: Seq<Map<u64, OptimizedTreeNode>>,
    nexts: Seq<u64>,
    thorns: Seq<SingleThornContainer>,
    leaves: Seq<u64>,
    resolutions: Seq<CloudFileResolve>,
    results: Seq<Result<OptimizedTreeNodeInsertResult, DenskyError>>,
    n: int,
)
    requires
        is_run(nodes, stores, nexts, thorns, leaves, resolutions, results),
        0 <= n <= leaves.len(),
        forall|i: int| 0 <= i < leaves.len() ==> #[trigger] resolutions[i] is Dynamic,
        no_variable_static_key(nodes[0]),
        store_has_no_variable_static_key(stores[0]),
    ensures
        no_variable_static_key(nodes[n]),
        store_has_no_variable_static_key(stores[n]),
    decreases n,
{
    if n > 0 {
        let k = n - 1;
        lemma_dynamic_prefix(nodes, stores, nexts, thorns, leaves, resolutions, results, k);
        assert(insert_post(
            nodes[k],
            nodes[k + 1],
            stores[k],
            stores[k + 1],
            nexts[k],
            thorns[k],
            thorns[k + 1],
            leaves[k],
            resolutions[k],
            results[k],
        ));
        assert(resolutions[k] is Dynamic);
        lemma_dynamic_keeps_static_keys(
            nodes[k],
            nodes[k + 1],
            stores[k],
            stores[k + 1],
            nexts[k],
            thorns[k],
            thorns[k + 1],
            leaves[k],
            resolutions[k],
            results[k],
        );
    }
}


/// `n` has no static child.
pub open spec fn no_static_child(n: OptimizedTreeNode) -> bool {
    forall|k: Seq<char>| !(#[trigger] n.static_children@.contains_key(k))
}

/// No node of `store` has a static child.
pub open spec fn store_has_no_static_child(store: Map<u64, OptimizedTreeNode>) -> bool {
    forall|id: u64| #[trigger] store.contains_key(id) ==> no_static_child(store[id])
}

/// No key of `n` is both a static and a dynamic child key, and none of its static keys
/// starts with `$`.
pub open spec fn keys_kept_apart(n: OptimizedTreeNode) -> bool {
    &&& no_variable_static_key(n)
    &&& forall|k: Seq<char>| !(#[trigger] n.static_children@.contains_key(k) && n.dynamic_children@.contains_key(k))
}

/// A `Dynamic` insertion makes no static child anywhere.
pub proof fn lemma_dynamic_makes_no_static_child(
    os: OptimizedTreeNode,
    fs: OptimizedTreeNode,
    onodes: Map<u64, OptimizedTreeNode>,
    fnodes: Map<u64, OptimizedTreeNode>,
    next: u64,
    othorns: SingleThornContainer,
    fthorns: SingleThornContainer,
    leaf_id: u64,
    res: CloudFileResolve,
    r: Result<OptimizedTreeNodeInsertResult, DenskyError>,
)
    requires
        insert_post(os, fs, onodes, fnodes, next, othorns, fthorns, leaf_id, res, r),
        res is Dynamic,
        no_static_child(os),
        store_has_no_static_child(onodes),
    ensures
        no_static_child(fs),
        store_has_no_static_child(fnodes),
{
    assert forall|id: u64| #[trigger] fnodes.contains_key(id) implies no_static_child(fnodes[id]) by {
        if onodes.contains_key(id) {
            assert(no_static_child(onodes[id]));
        }
    }
}

/// Building a tree with `Dynamic` insertions only, from nodes without static children:
/// afterwards every node, the one inserted into included, has no static key that
/// starts with `$` and no key that is both a static and a dynamic child key. (Each
/// node has at most one variable child: the single `dynamic` slot.)
pub proof fn lemma_dynamic_run_keeps_keys_apart(
    nodes: Seq<OptimizedTreeNode>,
    stores: Seq<Map<u64, OptimizedTreeNode>>,
    nexts: Seq<u64>,
    thorns: Seq<SingleThornContainer>,
    leaves: Seq<u64>,
    resolutions: Seq<CloudFileResolve>,
    results: Seq<Result<OptimizedTreeNodeInsertResult, DenskyError>>,
)
    requires
        is_run(nodes, stores, nexts, thorns, leaves, resolutions, results),
        forall|i: int| 0 <= i < leaves.len() ==> #[trigger] resolutions[i] is Dynamic,
        no_static_child(nodes[0]),
        store_has_no_static_child(stores[0]),
    ensures
        keys_kept_apart(nodes.last()),
        forall|id: u64| #[trigger] stores.last().contains_key(id) ==> keys_kept_apart(stores.last()[id]),
{
    lemma_static_free_prefix(nodes, stores, nexts, thorns, leaves, resolutions, results, leaves.len() as int);
    let n = nodes.last();
    assert(no_static_child(n));
    assert forall|id: u64| #[trigger] stores.last().contains_key(id) implies keys_kept_apart(stores.last()[id]) by {
        assert(no_static_child(stores.last()[id]));
    }
}

proof fn lemma_static_free_prefix(
    nodes: Seq<OptimizedTreeNode>,
    stores: Seq<Map<u64, OptimizedTreeNode>>,
    nexts: Seq<u64>,
    thorns: Seq<SingleThornContainer>,
    leaves: Seq<u64>,
    resolutions: Seq<CloudFileResolve>,
    results: Seq<Result<OptimizedTreeNodeInsertResult, DenskyError>>,
    n: int,
)
    requires
        is_run(nodes, stores, nexts, thorns, leaves, resolutions, results),
        0 <= n <= leaves.len(),
        forall|i: int| 0 <= i < leaves.len() ==> #[trigger] resolutions[i] is Dynamic,
        no_static_child(nodes[0]),
        store_has_no_static_child(stores[0]),
    ensures
        no_static_child(nodes[n]),
        store_has_no_static_child(stores[n]),
    decreases n,
{
    if n > 0 {
        let k = n - 1;
        lemma_static_free_prefix(nodes, stores, nexts, thorns, leaves, resolutions, results, k);
        assert(insert_post(
            nodes[k],
            nodes[k + 1],
            stores[k],
            stores[k + 1],
            nexts[k],
            thorns[k],
            thorns[k + 1],
            leaves[k],
            resolutions[k],
            results[k],
        ));
        assert(resolutions[k] is Dynamic);
        lemma_dynamic_makes_no_static_child(
            nodes[k],
            nodes[k + 1],
            stores[k],
            stores[k + 1],
            nexts[k],
            thorns[k],
            thorns[k + 1],
            leaves[k],
            resolutions[k],
            results[k],
        );
    }
}

} // verus!
