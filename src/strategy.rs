//! Building a route tree file by file: making the root, adding a discovered file, and
//! driving one insertion step. Classifying a file is the plugin's work, done by the
//! caller between two steps.
use vstd::prelude::*;
use vstd::string::*;

use crate::insert::insert_post;
use crate::node::{CloudFileResolve, DenskyError, OptimizedTreeNode, OptimizedTreeNodeInsertResult};
use crate::path::{join_paths, join_spec, last_slash_before, to_chars, string_from_chars};
use crate::store::OptimizedTreeContainer;
use crate::thorn::SingleThornContainer;

verus! {

/// The node an action sends the leaf on to, if any.
pub open spec fn action_target(a: OptimizedTreeNodeInsertResult) -> Option<u64> {
    match a {
        OptimizedTreeNodeInsertResult::Resolve(p, _) => Some(p),
        OptimizedTreeNodeInsertResult::MergeNodes(p, _) => Some(p),
        _ => None,
    }
}

/// An action of `insert` that sends the leaf on names the node it ran on, or a node
/// that the tree holds after the insertion.
pub proof fn lemma_insert_targets_exist(
    os: OptimizedTreeNode,
    fs: OptimizedTreeNode,
    onodes: Map<u64, OptimizedTreeNode>,
    fnodes: Map<u64, OptimizedTreeNode>,
    next: u64,
    othorns: SingleThornContainer,
    fthorns: SingleThornContainer,
    leaf_id: u64,
    res: CloudFileResolve,
    r: Result<OptimizedTreeNodeInsertResult, DenskyError>,
)
    requires
        insert_post(os, fs, onodes, fnodes, next, othorns, fthorns, leaf_id, res, r),
    ensures
        r matches Ok(a) ==> (action_target(a) matches Some(p) ==> p == os.id || fnodes.contains_key(p)),
{
    if r is Ok {
        match res {
            CloudFileResolve::Dynamic(prefix, var, suffix) => {
                if prefix@.len() != 0 {
                    match crate::insert::chosen_key(os, prefix@) {
                        Some(k) => {
                            let cid = os.dynamic_children@[k];
                            if onodes.contains_key(cid) && !crate::insert::goes_into(prefix@, k) {
                                assert(fnodes.dom().contains(next));
                            }
                        },
                        None => {
                            if suffix@.len() != 0 {
                                assert(fnodes.dom().contains(next));
                            }
                        },
                    }
                } else if suffix@.len() != 0 && os.dynamic is None {
                    assert(fnodes.dom().contains(next));
                }
            },
            _ => {},
        }
    }
}

impl OptimizedTreeContainer {
    /// Makes the root node (pathname empty, output `_index` in the output directory)
    /// and returns its id.
    pub fn create_root(&mut self) -> (r: u64)
        requires
            old(self).wf(),
            old(self).nodes.room() >= 1,
        ensures
            final(self).wf(),
            r == old(self).nodes.next_id(),
            final(self).nodes.next_id() == old(self).nodes.next_id() + 1,
            final(self).root == Some(r),
            final(self).nodes@.dom() == old(self).nodes@.dom().insert(r),
            forall|k: u64| #[trigger] old(self).nodes@.contains_key(k) ==> final(self).nodes@[k] == old(self).nodes@[k],
            final(self).nodes@[r].pathname@.len() == 0,
            final(self).nodes@[r].is_root,
            final(self).nodes@[r].static_children@.len() == 0,
            final(self).nodes@[r].dynamic_children@.len() == 0,
            final(self).nodes@[r].dynamic is None,
            final(self).nodes@[r].index is None,
            final(self).nodes@[r].output_path matches Some(o) && o@ == join_spec(
                "_index"@,
                old(self).output_dir@,
            ),
            final(self).single_thorn == old(self).single_thorn,
            final(self).output_dir == old(self).output_dir,
    {
        let output = join_paths("_index", self.output_dir.as_str());
        let mut root = OptimizedTreeNode::new(String::new(), None, output);
        root.is_root = true;
        let id = self.nodes.add(root);
        self.root = Some(id);
        id
    }

    /// The root node, once made.
    pub fn get_root(&self) -> (r: Option<&OptimizedTreeNode>)
        ensures
            r matches Some(n) ==> self.root matches Some(id) && self.nodes@.contains_key(id)
                && *n == self.nodes@[id],
            r is None ==> self.root is None || !self.nodes@.contains_key(self.root.unwrap()),
    {
        match self.root {
            Some(id) => self.nodes.get(id),
            None => None,
        }
    }

    /// Stores a discovered file: a sentinel node (its default leaf) and the leaf itself,
    /// whose index is the sentinel. Returns the leaf's id; `Fatal` when fewer than two
    /// ids are left.
    pub fn add_file(&mut self, path: String, file_path: String, output_path: String) -> (r: Result<
        u64,
        DenskyError,
    >)
        requires
            old(self).wf(),
        ensures
            final(self).wf(),
            final(self).root == old(self).root,
            final(self).output_dir == old(self).output_dir,
            final(self).single_thorn == old(self).single_thorn,
            old(self).nodes.room() < 2 ==> r == Err::<u64, DenskyError>(DenskyError::Fatal)
                && *final(self) == *old(self),
            old(self).nodes.room() >= 2 ==> ({
                let d = old(self).nodes.next_id();
                let l = (d + 1) as u64;
                let leaf = final(self).nodes@[l];
                &&& r == Ok::<u64, DenskyError>(l)
                &&& final(self).nodes.next_id() == l + 1
                &&& final(self).nodes@.dom() == old(self).nodes@.dom().insert(d).insert(l)
                &&& forall|k: u64| #[trigger] old(self).nodes@.contains_key(k)
                    ==> final(self).nodes@[k] == old(self).nodes@[k]
                &&& final(self).nodes@[d].input_path == Some(file_path)
                &&& leaf.pathname@ == path@
                &&& leaf.relative_pathname@ == path@
                &&& leaf.input_path == Some(file_path)
                &&& leaf.output_path == Some(output_path)
                &&& leaf.index == Some(d)
                &&& leaf.dynamic is None
                &&& leaf.static_children@.len() == 0
                &&& leaf.dynamic_children@.len() == 0
            }),
    {
        if self.nodes.remaining_ids() < 2 {
            return Err(DenskyError::Fatal);
        }
        let dotted = path.clone().concat(".dummy");
        let dummy = OptimizedTreeNode::new_leaf(dotted, Some(file_path.clone()), output_path.clone());
        let mut leaf = OptimizedTreeNode::new_leaf(path, Some(file_path), output_path);
        let d = self.nodes.add(dummy);
        leaf.index = Some(d);
        let l = self.nodes.add(leaf);
        Ok(l)
    }

    /// Runs [`OptimizedTreeNode::insert`] on the node `node_id` of this tree, taking it
    /// out for the insertion and putting it back after. `Fatal` when the node or the
    /// leaf is missing, or when they are the same node.
    ///
    /// An action that sends the leaf on names a node this tree holds.
    pub fn insert_at(&mut self, node_id: u64, leaf_id: u64, file_resolved: CloudFileResolve) -> (r:
        Result<OptimizedTreeNodeInsertResult, DenskyError>)
        requires
            old(self).wf(),
        ensures
            final(self).wf(),
            final(self).root == old(self).root,
            final(self).output_dir == old(self).output_dir,
            final(self).nodes.next_id() >= old(self).nodes.next_id(),
            r is Err ==> final(self).nodes@ == old(self).nodes@ && final(self).single_thorn
                == old(self).single_thorn && final(self).nodes.next_id() == old(self).nodes.next_id(),
            node_id != leaf_id && old(self).nodes@.contains_key(node_id) && old(self).nodes@.contains_key(
                leaf_id,
            ) && old(self).nodes.room() >= 2 ==> final(self).nodes.next_id() == old(self).nodes.next_id()
                + crate::insert::ids_taken(
                old(self).nodes@[node_id],
                old(self).nodes@.remove(node_id),
                file_resolved,
                r,
            ),
            node_id == leaf_id || !old(self).nodes@.contains_key(node_id) || !old(self).nodes@.contains_key(
                leaf_id,
            ) || old(self).nodes.room() < 2 ==> r == Err::<OptimizedTreeNodeInsertResult, DenskyError>(
                DenskyError::Fatal,
            ),
            node_id != leaf_id && old(self).nodes@.contains_key(node_id) && old(self).nodes@.contains_key(
                leaf_id,
            ) && old(self).nodes.room() >= 2 ==> final(self).nodes@.contains_key(node_id) && insert_post(
                old(self).nodes@[node_id],
                final(self).nodes@[node_id],
                old(self).nodes@.remove(node_id),
                final(self).nodes@.remove(node_id),
                old(self).nodes.next_id(),
                old(self).single_thorn,
                final(self).single_thorn,
                leaf_id,
                file_resolved,
                r,
            ),
            r matches Ok(a) ==> (action_target(a) matches Some(p) ==> final(self).nodes@.contains_key(p)),
    {
        if node_id == leaf_id || self.nodes.get(leaf_id).is_none() || self.nodes.get(node_id).is_none()
            || self.nodes.remaining_ids() < 2 {
            return Err(DenskyError::Fatal);
        }
        let ghost o = self.nodes@;
        let mut node = match self.nodes.take(node_id) {
            Some(n) => n,
            None => return Err(DenskyError::Fatal),
        };
        let ghost os = node;
        let ghost res = file_resolved;
        let r = node.insert(leaf_id, file_resolved, self);
        let ghost fs = node;
        let ghost mid = self.nodes@;
        self.nodes.put(node);
        proof {
            assert(self.nodes@.remove(node_id) =~= mid);
            if r is Err {
                assert(self.nodes@ =~= o);
            } else if self.nodes.room() >= 2 {
                lemma_insert_targets_exist(
                    os,
                    fs,
                    o.remove(node_id),
                    mid,
                    old(self).nodes.next_id(),
                    old(self).single_thorn,
                    self.single_thorn,
                    leaf_id,
                    res,
                    r,
                );
            }
        }
        r
    }

    /// Carries out the part of an action that needs no plugin: for `Resolve` and
    /// `MergeNodes`, renames the leaf to the given suffix and returns the node to insert
    /// it into next with that suffix; for `RemoveNode`, drops the leaf.
    pub fn apply_action(&mut self, leaf_id: u64, action: OptimizedTreeNodeInsertResult) -> (r: Option<
        (u64, String),
    >)
        requires
            old(self).wf(),
        ensures
            final(self).wf(),
            final(self).root == old(self).root,
            final(self).output_dir == old(self).output_dir,
            final(self).single_thorn == old(self).single_thorn,
            final(self).nodes.next_id() == old(self).nodes.next_id(),
            match action {
                OptimizedTreeNodeInsertResult::Done => r is None && *final(self) == *old(self),
                OptimizedTreeNodeInsertResult::RemoveNode => r is None && final(self).nodes@
                    == old(self).nodes@.remove(leaf_id),
                OptimizedTreeNodeInsertResult::Resolve(p, s) => renamed_to(
                    old(self).nodes@,
                    final(self).nodes@,
                    leaf_id,
                    s@,
                ) && (r matches Some(t) && t.0 == p && t.1@ == s@),
                OptimizedTreeNodeInsertResult::MergeNodes(p, s) => renamed_to(
                    old(self).nodes@,
                    final(self).nodes@,
                    leaf_id,
                    s@,
                ) && (r matches Some(t) && t.0 == p && t.1@ == s@),
            },
    {
        match action {
            OptimizedTreeNodeInsertResult::Done => None,
            OptimizedTreeNodeInsertResult::RemoveNode => {
                self.nodes.remove(leaf_id);
                None
            },
            OptimizedTreeNodeInsertResult::Resolve(p, s) => {
                self.rename(leaf_id, s.clone());
                Some((p, s))
            },
            OptimizedTreeNodeInsertResult::MergeNodes(p, s) => {
                self.rename(leaf_id, s.clone());
                Some((p, s))
            },
        }
    }

    fn rename(&mut self, leaf_id: u64, rel: String)
        requires
            old(self).wf(),
        ensures
            final(self).wf(),
            final(self).root == old(self).root,
            final(self).output_dir == old(self).output_dir,
            final(self).single_thorn == old(self).single_thorn,
            final(self).nodes.next_id() == old(self).nodes.next_id(),
            renamed_to(old(self).nodes@, final(self).nodes@, leaf_id, rel@),
    {
        let ghost o = self.nodes@;
        match self.nodes.take(leaf_id) {
            Some(mut leaf) => {
                leaf.relative_pathname = rel;
                self.nodes.put(leaf);
            },
            None => {
                assert(self.nodes@ =~= o);
            },
        }
    }
}

/// The leaf, if stored, has the relative pathname `rel`; nothing else changed.
pub open spec fn renamed_to(
    o: Map<u64, OptimizedTreeNode>,
    n: Map<u64, OptimizedTreeNode>,
    leaf_id: u64,
    rel: Seq<char>,
) -> bool {
    if o.contains_key(leaf_id) {
        &&& n.dom() == o.dom()
        &&& crate::insert::renamed(o[leaf_id], n[leaf_id], rel)
        &&& forall|k: u64| #[trigger] o.contains_key(k) && k != leaf_id ==> n[k] == o[k]
    } else {
        n == o
    }
}

/// The name a renamed leaf is classified under again: `stem.ext`, or the stem alone
/// when either part is empty.
pub open spec fn with_extension_spec(stem: Seq<char>, ext: Seq<char>) -> Seq<char> {
    if stem.len() == 0 || ext.len() == 0 {
        stem
    } else {
        stem + seq!['.'] + ext
    }
}

/// The relative path handed to the plugin when a leaf is classified again.
pub fn with_extension(stem: &str, ext: &str) -> (r: String)
    ensures
        r@ == with_extension_spec(stem@, ext@),
{
    if stem.unicode_len() == 0 || ext.unicode_len() == 0 {
        return String::from_str(stem);
    }
    let dot = ".";
    proof {
        reveal_strlit(".");
    }
    assert(dot@ =~= seq!['.']);
    String::from_str(stem).concat(dot).concat(ext)
}

/// Index of the dot that starts the extension of the last segment of `p`, if any:
/// the last dot after the last slash, not first in its segment.
pub open spec fn extension_dot(p: Seq<char>) -> Option<int> {
    let s = last_slash_before(p, p.len() as int);
    let d = last_dot_after(p, p.len() as int, s);
    if d > s + 1 {
        Some(d)
    } else {
        None
    }
}

/// Index of the last dot of `p` below `n` and above `floor`, or `floor`.
pub open spec fn last_dot_after(p: Seq<char>, n: int, floor: int) -> int
    decreases n,
{
    if n <= floor + 1 || n <= 0 {
        floor
    } else if p[n - 1] == '.' {
        n - 1
    } else {
        last_dot_after(p, n - 1, floor)
    }
}

proof fn lemma_last_dot_bounds(p: Seq<char>, n: int, floor: int)
    requires
        -1 <= floor,
        n <= p.len(),
    ensures
        last_dot_after(p, n, floor) == floor || (floor < last_dot_after(p, n, floor) < n
            && p[last_dot_after(p, n, floor)] == '.'),
    decreases n,
{
    if !(n <= floor + 1 || n <= 0) && p[n - 1] != '.' {
        lemma_last_dot_bounds(p, n - 1, floor);
    }
}

/// A relative file path split into its stem and its extension (without the dot).
pub fn split_extension(p: &str) -> (r: (String, String))
    ensures
        extension_dot(p@) matches Some(d) ==> r.0@ == p@.take(d) && r.1@ == p@.skip(d + 1),
        extension_dot(p@) is None ==> r.0@ == p@ && r.1@.len() == 0,
{
    let c = to_chars(p);
    let n = c.len();
    let mut s: usize = n;
    while s > 0 && c[s - 1] != '/'
        invariant
            c@ == p@,
            n == p@.len(),
            s <= n,
            last_slash_before(p@, n as int) == last_slash_before(p@, s as int),
        decreases s,
    {
        s = s - 1;
    }
    let ghost slash = last_slash_before(p@, n as int);
    assert(slash == s - 1);
    let mut d: usize = n;
    while d > s && c[d - 1] != '.'
        invariant
            c@ == p@,
            n == p@.len(),
            s <= d <= n,
            slash == s - 1,
            last_dot_after(p@, n as int, slash) == last_dot_after(p@, d as int, slash),
        decreases d,
    {
        d = d - 1;
    }
    proof {
        lemma_last_dot_bounds(p@, n as int, slash);
    }
    if d > s && d - s > 1 {
        let mut stem: Vec<char> = Vec::new();
        let mut ext: Vec<char> = Vec::new();
        let mut i: usize = 0;
        while i < d - 1
            invariant
                c@ == p@,
                n == c@.len(),
                s < d <= n,
                d - s > 1,
                i <= d - 1,
                stem@ == p@.take(i as int),
            decreases d - 1 - i,
        {
            stem.push(c[i]);
            i = i + 1;
            assert(stem@ =~= p@.take(i as int));
        }
        let mut j: usize = d;
        while j < n
            invariant
                c@ == p@,
                d <= j <= n,
                n == p@.len(),
                ext@ == p@.subrange(d as int, j as int),
            decreases n - j,
        {
            ext.push(c[j]);
            j = j + 1;
            assert(ext@ =~= p@.subrange(d as int, j as int));
        }
        assert(ext@ =~= p@.skip(d as int));
        (string_from_chars(&stem), string_from_chars(&ext))
    } else {
        (String::from_str(p), String::new())
    }
}


/// Whether a discovered file is a route source: its extension is `ts`.
pub fn is_route_source(p: &str) -> (r: bool)
    ensures
        r == (extension_dot(p@) matches Some(d) && p@.skip(d + 1) == "ts"@),
{
    let (_, ext) = split_extension(p);
    proof {
        reveal_strlit("ts");
    }
    crate::adapter::str_eq(ext.as_str(), "ts")
}

} // verus!
