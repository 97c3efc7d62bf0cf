//! Inserting a leaf into a route tree node: the rewrite rules of the tree.
use vstd::prelude::*;
use vstd::string::*;

use crate::node::{
    child_pathname, CloudFileResolve, DenskyError, OptimizedTreeNode,
    OptimizedTreeNodeInsertResult,
};
use crate::path::{
    common_prefix_spec, get_common_path, parent_path, parent_spec, strip_leading_slash,
    strip_prefix_if_can, strip_prefix_spec, strip_slash_spec,
};
use crate::store::OptimizedTreeContainer;
use crate::thorn::SingleThornContainer;

verus! {

/// The fields that no insertion changes are equal.
pub open spec fn same_frame(o: OptimizedTreeNode, n: OptimizedTreeNode) -> bool {
    &&& n.id == o.id
    &&& n.input_path == o.input_path
    &&& n.output_path == o.output_path
    &&& n.is_root == o.is_root
}

/// `n` is `o` with another relative pathname, `rel`.
pub open spec fn renamed(o: OptimizedTreeNode, n: OptimizedTreeNode, rel: Seq<char>) -> bool {
    &&& same_frame(o, n)
    &&& n.pathname == o.pathname
    &&& n.relative_pathname@ == rel
    &&& n.static_children == o.static_children
    &&& n.dynamic_children == o.dynamic_children
    &&& n.index == o.index
    &&& n.dynamic == o.dynamic
    &&& n.is_static == o.is_static
    &&& n.varname == o.varname
}

/// `n` is `o` turned into a static leaf named `rel`.
pub open spec fn made_static(o: OptimizedTreeNode, n: OptimizedTreeNode, rel: Seq<char>) -> bool {
    &&& same_frame(o, n)
    &&& n.pathname == o.pathname
    &&& n.relative_pathname@ == rel
    &&& n.static_children == o.static_children
    &&& n.dynamic_children == o.dynamic_children
    &&& n.index == o.index
    &&& n.dynamic == o.dynamic
    &&& n.is_static
    &&& n.varname is None
}

/// `n` is `o` with another pathname, `path`.
pub open spec fn repathed(o: OptimizedTreeNode, n: OptimizedTreeNode, path: Seq<char>) -> bool {
    &&& same_frame(o, n)
    &&& n.pathname@ == path
    &&& n.relative_pathname == o.relative_pathname
    &&& n.static_children == o.static_children
    &&& n.dynamic_children == o.dynamic_children
    &&& n.index == o.index
    &&& n.dynamic == o.dynamic
    &&& n.is_static == o.is_static
    &&& n.varname == o.varname
}

/// `n` is `o` with other static children, index and variable slot at most.
pub open spec fn same_but_slots(o: OptimizedTreeNode, n: OptimizedTreeNode) -> bool {
    &&& same_frame(o, n)
    &&& n.pathname == o.pathname
    &&& n.relative_pathname == o.relative_pathname
    &&& n.is_static == o.is_static
    &&& n.varname == o.varname
    &&& n.wf()
}

/// `n` is a new intermediate node with id `id`, named `rel` below a parent at `parent`.
pub open spec fn made_child(n: OptimizedTreeNode, id: u64, parent: Seq<char>, rel: Seq<char>) -> bool {
    &&& n.wf()
    &&& n.id == id
    &&& n.pathname@ == child_pathname(parent, rel)
    &&& n.relative_pathname@ == rel
    &&& n.input_path is None
    &&& n.output_path is None
    &&& n.static_children@ == Map::<Seq<char>, u64>::empty()
    &&& n.index is None
    &&& !n.is_root
    &&& !n.is_static
}

/// A result action with its id and string.
pub open spec fn is_resolve(r: OptimizedTreeNodeInsertResult, id: u64, s: Seq<char>) -> bool {
    r matches OptimizedTreeNodeInsertResult::Resolve(i, t) && i == id && t@ == s
}

pub open spec fn is_merge(r: OptimizedTreeNodeInsertResult, id: u64, s: Seq<char>) -> bool {
    r matches OptimizedTreeNodeInsertResult::MergeNodes(i, t) && i == id && t@ == s
}

/// Entry `i` is the first of `sv` whose key shares a whole segment with `p`.
pub open spec fn first_sharing_at(sv: Seq<(Seq<char>, u64)>, p: Seq<char>, i: int) -> bool {
    &&& 0 <= i < sv.len()
    &&& common_prefix_spec(p, sv[i].0) is Some
    &&& forall|j: int| 0 <= j < i ==> common_prefix_spec(p, #[trigger] sv[j].0) is None
}

/// The key of the dynamic child that a prefixed variable path goes to: the key equal to
/// `p` if there is one, else the first key in order that shares a segment with `p`.
pub open spec fn chosen_key(n: OptimizedTreeNode, p: Seq<char>) -> Option<Seq<char>> {
    let sv = n.dynamic_children.sorted_view();
    if n.dynamic_children@.contains_key(p) {
        Some(p)
    } else if exists|i: int| first_sharing_at(sv, p, i) {
        Some(sv[choose|i: int| first_sharing_at(sv, p, i)].0)
    } else {
        None
    }
}

/// A variable path whose prefix is `p` resolves into the existing child keyed `k`
/// (rather than splitting it): `k` is `p`, or a whole-segment prefix of `p`.
pub open spec fn goes_into(p: Seq<char>, k: Seq<char>) -> bool {
    k == p || common_prefix_spec(p, k) == Some(k)
}

/// The common part of `p` and `k`, when it is not `k`.
pub open spec fn split_point(p: Seq<char>, k: Seq<char>) -> Seq<char> {
    common_prefix_spec(p, k).unwrap()
}

/// How many ids a `Dynamic(prefix, _, suffix)` insertion takes from the counter: one
/// for a new variable child, one for a new intermediate node, two for both.
pub open spec fn dynamic_ids_taken(
    os: OptimizedTreeNode,
    onodes: Map<u64, OptimizedTreeNode>,
    prefix: Seq<char>,
    suffix: Seq<char>,
    r: Result<OptimizedTreeNodeInsertResult, DenskyError>,
) -> int {
    if r is Err {
        0
    } else if prefix.len() == 0 {
        if suffix.len() != 0 && os.dynamic is None {
            1
        } else {
            0
        }
    } else {
        match chosen_key(os, prefix) {
            Some(k) => if onodes.contains_key(os.dynamic_children@[k]) && !goes_into(prefix, k) {
                1
            } else {
                0
            },
            None => if suffix.len() == 0 {
                1
            } else {
                2
            },
        }
    }
}

/// How many ids an insertion takes from the counter (none unless it makes nodes).
pub open spec fn ids_taken(
    os: OptimizedTreeNode,
    onodes: Map<u64, OptimizedTreeNode>,
    res: CloudFileResolve,
    r: Result<OptimizedTreeNodeInsertResult, DenskyError>,
) -> int {
    match res {
        CloudFileResolve::Dynamic(prefix, _, suffix) => dynamic_ids_taken(os, onodes, prefix@, suffix@, r),
        _ => 0,
    }
}

/// The nodes not in `changed` are kept, and no node other than `added` appears.
pub open spec fn kept_nodes(
    o: Map<u64, OptimizedTreeNode>,
    n: Map<u64, OptimizedTreeNode>,
    changed: Set<u64>,
    added: Set<u64>,
) -> bool {
    &&& n.dom() == o.dom().union(added)
    &&& forall|k: u64| o.contains_key(k) && !changed.contains(k) ==> #[trigger] n[k] == o[k]
}

impl OptimizedTreeNode {
    /// What `insert` requires: a well-formed tree, the leaf stored in it, and this node
    /// taken out of it (it is put back by the caller), with an id from the tree's counter.
    pub open spec fn insert_ready(&self, leaf_id: u64, c: OptimizedTreeContainer) -> bool {
        &&& c.wf()
        &&& self.wf()
        &&& c.nodes@.contains_key(leaf_id)
        &&& leaf_id != self.id
        &&& !c.nodes@.contains_key(self.id)
        &&& 1 <= self.id < c.nodes.next_id()
    }

    /// Inserts the node `leaf_id` below this node, as `file_resolved` says, and returns
    /// what the caller does next (see [`OptimizedTreeNodeInsertResult`]).
    ///
    /// The rules, by resolution:
    /// - `Ignore`: nothing changes.
    /// - `Pass`: the leaf becomes a static child, keyed by its relative pathname without
    ///   a leading slash.
    /// - `SingleThorn(name)`: binds `name` on the leaf's directory (the part of its
    ///   pathname before the last slash); `ThornConflict` if one is bound there already.
    /// - `MultiThorn(name)`: appends `name` on the leaf's directory.
    /// - `Index`: at the top level the leaf's index becomes this node's and the leaf is
    ///   dropped; deeper, the leaf takes its directory as pathname and is resolved again
    ///   here.
    /// - `Dynamic(prefix, var, suffix)`: see [`insert_dynamic_post`].
    ///
    /// `Fatal` when fewer than two ids are left, before anything changes.
    pub fn insert(
        &mut self,
        leaf_id: u64,
        file_resolved: CloudFileResolve,
        container: &mut OptimizedTreeContainer,
    ) -> (r: Result<OptimizedTreeNodeInsertResult, DenskyError>)
        requires
            old(self).insert_ready(leaf_id, *old(container)),
        ensures
            final(container).wf(),
            final(self).wf(),
            final(self).id == old(self).id,
            final(container).nodes.next_id() == old(container).nodes.next_id() + ids_taken(*old(self), old(container).nodes@, file_resolved, r),
            final(container).root == old(container).root,
            final(container).output_dir == old(container).output_dir,
            r is Err ==> *final(self) == *old(self) && *final(container) == *old(container),
            !final(container).nodes@.contains_key(old(self).id),
            r is Err ==> *final(self) == *old(self) && *final(container) == *old(container),
            old(container).nodes.room() < 2 ==> r == Err::<OptimizedTreeNodeInsertResult, DenskyError>(DenskyError::Fatal),
            old(container).nodes.room() >= 2 ==> insert_post(
                *old(self),
                *final(self),
                old(container).nodes@,
                final(container).nodes@,
                old(container).nodes.next_id(),
                old(container).single_thorn,
                final(container).single_thorn,
                leaf_id,
                file_resolved,
                r,
            ),
    {
        if container.nodes.remaining_ids() < 2 {
            return Err(DenskyError::Fatal);
        }
        match file_resolved {
            CloudFileResolve::Ignore => Ok(OptimizedTreeNodeInsertResult::Done),
            CloudFileResolve::Pass => self.insert_pass(leaf_id, container),
            CloudFileResolve::SingleThorn(name) => self.insert_thorn(leaf_id, name, container),
            CloudFileResolve::MultiThorn(name) => self.insert_multi(leaf_id, name, container),
            CloudFileResolve::Index => self.insert_index(leaf_id, container),
            CloudFileResolve::Dynamic(prefix, var, suffix) => {
                if prefix.unicode_len() == 0 {
                    self.insert_variable(leaf_id, var, suffix, container)
                } else {
                    self.insert_prefixed(leaf_id, prefix, var, suffix, container)
                }
            },
        }
    }

    fn insert_pass(&mut self, leaf_id: u64, container: &mut OptimizedTreeContainer) -> (r: Result<
        OptimizedTreeNodeInsertResult,
        DenskyError,
    >)
        requires
            old(self).insert_ready(leaf_id, *old(container)),
        ensures
            final(container).wf(),
            final(container).nodes.next_id() == old(container).nodes.next_id(),
            final(container).root == old(container).root,
            final(container).output_dir == old(container).output_dir,
            r is Err ==> *final(self) == *old(self) && *final(container) == *old(container),
            insert_pass_post(*old(self), *final(self), old(container).nodes@, final(container).nodes@, old(container).nodes.next_id(), old(container).single_thorn, final(container).single_thorn, leaf_id, r),
    {
        let mut leaf = match container.nodes.take(leaf_id) {
            Some(l) => l,
            None => return Err(DenskyError::Fatal),
        };
        let key = strip_leading_slash(leaf.relative_pathname.as_str());
        leaf.relative_pathname = key.clone();
        leaf.is_static = true;
        leaf.varname = None;
        container.nodes.put(leaf);
        self.static_children.insert(key, leaf_id);
        proof {
            let o = old(container).nodes@;
            let n = container.nodes@;
            assert(n.dom() =~= o.dom().union(Set::empty()));
        }
        Ok(OptimizedTreeNodeInsertResult::Done)
    }

    fn insert_thorn(&mut self, leaf_id: u64, name: String, container: &mut OptimizedTreeContainer) -> (r:
        Result<OptimizedTreeNodeInsertResult, DenskyError>)
        requires
            old(self).insert_ready(leaf_id, *old(container)),
        ensures
            final(container).wf(),
            final(container).nodes == old(container).nodes,
            final(container).root == old(container).root,
            final(container).output_dir == old(container).output_dir,
            r is Err ==> *final(self) == *old(self) && *final(container) == *old(container),
            insert_thorn_post(*old(self), *final(self), old(container).nodes@, final(container).nodes@, old(container).nodes.next_id(), old(container).single_thorn, final(container).single_thorn, leaf_id, name@, r),
    {
        let dir = match container.nodes.get(leaf_id) {
            Some(l) => parent_path(l.pathname.as_str()),
            None => return Err(DenskyError::Fatal),
        };
        if container.single_thorn.insert(name, dir, leaf_id) {
            Ok(OptimizedTreeNodeInsertResult::Done)
        } else {
            Err(DenskyError::ThornConflict)
        }
    }

    fn insert_multi(&mut self, leaf_id: u64, name: String, container: &mut OptimizedTreeContainer) -> (r:
        Result<OptimizedTreeNodeInsertResult, DenskyError>)
        requires
            old(self).insert_ready(leaf_id, *old(container)),
        ensures
            final(container).wf(),
            final(container).nodes == old(container).nodes,
            final(container).root == old(container).root,
            final(container).output_dir == old(container).output_dir,
            r is Err ==> *final(self) == *old(self) && *final(container) == *old(container),
            insert_multi_post(*old(self), *final(self), old(container).nodes@, final(container).nodes@, old(container).nodes.next_id(), old(container).single_thorn, final(container).single_thorn, leaf_id, name@, r),
    {
        let dir = match container.nodes.get(leaf_id) {
            Some(l) => parent_path(l.pathname.as_str()),
            None => return Err(DenskyError::Fatal),
        };
        container.single_thorn.insert_multi(name, dir, leaf_id);
        Ok(OptimizedTreeNodeInsertResult::Done)
    }

    fn insert_index(&mut self, leaf_id: u64, container: &mut OptimizedTreeContainer) -> (r: Result<
        OptimizedTreeNodeInsertResult,
        DenskyError,
    >)
        requires
            old(self).insert_ready(leaf_id, *old(container)),
        ensures
            final(container).wf(),
            final(container).nodes.next_id() == old(container).nodes.next_id(),
            final(container).root == old(container).root,
            final(container).output_dir == old(container).output_dir,
            r is Err ==> *final(self) == *old(self) && *final(container) == *old(container),
            insert_index_post(*old(self), *final(self), old(container).nodes@, final(container).nodes@, old(container).nodes.next_id(), old(container).single_thorn, final(container).single_thorn, leaf_id, r),
    {
        let (dir, leaf_index) = match container.nodes.get(leaf_id) {
            Some(l) => (parent_path(l.pathname.as_str()), l.index),
            None => return Err(DenskyError::Fatal),
        };
        if dir.unicode_len() == 0 {
            match leaf_index {
                Some(i) => {
                    self.index = Some(i);
                    Ok(OptimizedTreeNodeInsertResult::RemoveNode)
                },
                None => Err(DenskyError::Fatal),
            }
        } else {
            let mut leaf = match container.nodes.take(leaf_id) {
                Some(l) => l,
                None => return Err(DenskyError::Fatal),
            };
            leaf.pathname = dir.clone();
            container.nodes.put(leaf);
            proof {
                let o = old(container).nodes@;
                let n = container.nodes@;
                assert(n.dom() =~= o.dom().union(Set::empty()));
            }
            Ok(OptimizedTreeNodeInsertResult::Resolve(self.id, dir))
        }
    }
}

impl OptimizedTreeNode {
    fn insert_variable(
        &mut self,
        leaf_id: u64,
        var: String,
        suffix: String,
        container: &mut OptimizedTreeContainer,
    ) -> (r: Result<OptimizedTreeNodeInsertResult, DenskyError>)
        requires
            old(self).insert_ready(leaf_id, *old(container)),
            old(container).nodes.room() >= 2,
        ensures
            final(container).wf(),
            final(container).nodes.next_id() == old(container).nodes.next_id() + dynamic_ids_taken(*old(self), old(container).nodes@, Seq::empty(), suffix@, r),
            final(container).root == old(container).root,
            final(container).output_dir == old(container).output_dir,
            r is Err ==> *final(self) == *old(self) && *final(container) == *old(container),
            insert_dynamic_post(
                *old(self),
                *final(self),
                old(container).nodes@,
                final(container).nodes@,
                old(container).nodes.next_id(),
                old(container).single_thorn,
                final(container).single_thorn,
                leaf_id,
                Seq::empty(),
                var@,
                suffix@,
                r,
            ),
    {
        if suffix.unicode_len() == 0 {
            let idx = match container.nodes.get(leaf_id) {
                Some(l) => l.index,
                None => return Err(DenskyError::Fatal),
            };
            self.dynamic = Some((leaf_id, var));
            self.index = idx;
            return Ok(OptimizedTreeNodeInsertResult::Done);
        }
        match &self.dynamic {
            Some(d) => {
                if container.nodes.get(d.0).is_none() {
                    return Err(DenskyError::Fatal);
                }
                return Ok(OptimizedTreeNodeInsertResult::Resolve(d.0, suffix));
            },
            None => {},
        }
        let mut child = OptimizedTreeNode::new_child(&self.pathname, var.clone(), None);
        child.varname = Some(var.clone());
        let v = container.nodes.add(child);
        self.dynamic = Some((v, var));
        proof {
            let o = old(container).nodes@;
            let n = container.nodes@;
            assert(n.dom() =~= o.dom().union(set![v]));
        }
        Ok(OptimizedTreeNodeInsertResult::Resolve(v, suffix))
    }

    /// The first dynamic child, in key order, whose key shares a segment with `p`.
    fn first_sharing(&self, p: &String) -> (r: Option<(String, u64)>)
        requires
            self.wf(),
        ensures
            r matches Some(e) ==> exists|i: int|
                first_sharing_at(self.dynamic_children.sorted_view(), p@, i)
                    && self.dynamic_children.sorted_view()[i] == (e.0@, e.1),
            r is None ==> !exists|i: int|
                first_sharing_at(self.dynamic_children.sorted_view(), p@, i),
    {
        let ghost sv = self.dynamic_children.sorted_view();
        proof {
            self.dynamic_children.lemma_sorted_view();
        }
        let n = self.dynamic_children.len();
        let mut i: usize = 0;
        while i < n
            invariant
                self.wf(),
                sv == self.dynamic_children.sorted_view(),
                n == sv.len(),
                i <= n,
                forall|j: int| 0 <= j < i ==> common_prefix_spec(p@, #[trigger] sv[j].0) is None,
            decreases n - i,
        {
            let (k, id) = self.dynamic_children.entry(i);
            if get_common_path(p, k).is_some() {
                assert(first_sharing_at(sv, p@, i as int));
                return Some((k.clone(), id));
            }
            i = i + 1;
        }
        None
    }

    fn insert_prefixed(
        &mut self,
        leaf_id: u64,
        prefix: String,
        var: String,
        suffix: String,
        container: &mut OptimizedTreeContainer,
    ) -> (r: Result<OptimizedTreeNodeInsertResult, DenskyError>)
        requires
            old(self).insert_ready(leaf_id, *old(container)),
            old(container).nodes.room() >= 2,
            prefix@.len() > 0,
        ensures
            final(container).wf(),
            final(container).nodes.next_id() == old(container).nodes.next_id() + dynamic_ids_taken(*old(self), old(container).nodes@, prefix@, suffix@, r),
            final(container).root == old(container).root,
            final(container).output_dir == old(container).output_dir,
            r is Err ==> *final(self) == *old(self) && *final(container) == *old(container),
            insert_dynamic_post(
                *old(self),
                *final(self),
                old(container).nodes@,
                final(container).nodes@,
                old(container).nodes.next_id(),
                old(container).single_thorn,
                final(container).single_thorn,
                leaf_id,
                prefix@,
                var@,
                suffix@,
                r,
            ),
    {
        let ghost os = *self;
        let ghost sv = self.dynamic_children.sorted_view();
        proof {
            self.dynamic_children.lemma_sorted_view();
        }
        let leaf_rel = match container.nodes.get(leaf_id) {
            Some(l) => l.relative_pathname.clone(),
            None => return Err(DenskyError::Fatal),
        };
        let chosen: Option<(String, u64)> = match self.dynamic_children.get(&prefix) {
            Some(id) => Some((prefix.clone(), id)),
            None => self.first_sharing(&prefix),
        };
        proof {
            if !os.dynamic_children@.contains_key(prefix@) {
                if exists|i: int| first_sharing_at(sv, prefix@, i) {
                    let c = choose|i: int| first_sharing_at(sv, prefix@, i);
                    let e = chosen.unwrap();
                    let i0 = choose|i: int| first_sharing_at(sv, prefix@, i) && sv[i] == (e.0@, e.1);
                    if c < i0 {
                        assert(common_prefix_spec(prefix@, sv[c].0) is None);
                    } else if i0 < c {
                        assert(common_prefix_spec(prefix@, sv[i0].0) is None);
                    }
                    assert(chosen_key(os, prefix@) == Some(e.0@));
                    assert(os.dynamic_children@[e.0@] == e.1);
                }
            }
        }
        match chosen {
            Some(entry) => {
                let (k, cid) = entry;
                let child = match container.nodes.get(cid) {
                    Some(c) => c,
                    None => return Err(DenskyError::Fatal),
                };
                let cp = get_common_path(&prefix, &k);
                let into = k.eq(&prefix) || match &cp {
                    Some(c) => c.eq(&k),
                    None => false,
                };
                if into {
                    match &child.dynamic {
                        Some(d) => {
                            if container.nodes.get(d.0).is_none() {
                                Err(DenskyError::Fatal)
                            } else {
                                Ok(OptimizedTreeNodeInsertResult::Resolve(d.0, suffix))
                            }
                        },
                        None => {
                            let tail = strip_prefix_if_can(
                                leaf_rel.as_str(),
                                child.relative_pathname.as_str(),
                            );
                            let rem = strip_leading_slash(tail.as_str());
                            Ok(OptimizedTreeNodeInsertResult::Resolve(cid, rem))
                        },
                    }
                } else {
                    let common = match cp {
                        Some(c) => c,
                        None => return Err(DenskyError::Fatal),
                    };
                    let tail = strip_prefix_if_can(k.as_str(), common.as_str());
                    let rest = strip_leading_slash(tail.as_str());
                    let mut moved = match container.nodes.take(cid) {
                        Some(c) => c,
                        None => return Err(DenskyError::Fatal),
                    };
                    moved.relative_pathname = rest.clone();
                    container.nodes.put(moved);
                    let mut mid = OptimizedTreeNode::new_child(&self.pathname, common.clone(), None);
                    mid.dynamic_children.insert(rest, cid);
                    let m = container.nodes.add(mid);
                    self.dynamic_children.remove(&k);
                    let leaf_tail = strip_prefix_if_can(leaf_rel.as_str(), common.as_str());
                    let new_rel = strip_leading_slash(leaf_tail.as_str());
                    self.dynamic_children.insert(common, m);
                    proof {
                        let o = old(container).nodes@;
                        let n = container.nodes@;
                        assert(n.dom() =~= o.dom().union(set![m]));
                    }
                    Ok(OptimizedTreeNodeInsertResult::MergeNodes(m, new_rel))
                }
            },
            None => {
                let mut mid = OptimizedTreeNode::new_child(&self.pathname, prefix.clone(), None);
                let mut leaf = match container.nodes.take(leaf_id) {
                    Some(l) => l,
                    None => return Err(DenskyError::Fatal),
                };
                let tail = strip_prefix_if_can(leaf.relative_pathname.as_str(), prefix.as_str());
                leaf.relative_pathname = strip_leading_slash(tail.as_str());
                container.nodes.put(leaf);
                if suffix.unicode_len() == 0 {
                    mid.dynamic = Some((leaf_id, var));
                    let m = container.nodes.add(mid);
                    self.dynamic_children.insert(prefix, m);
                    proof {
                        let o = old(container).nodes@;
                        let n = container.nodes@;
                        assert(n.dom() =~= o.dom().union(set![m]));
                    }
                    Ok(OptimizedTreeNodeInsertResult::Done)
                } else {
                    let mut v = OptimizedTreeNode::new_child(&mid.pathname, var.clone(), None);
                    v.varname = Some(var.clone());
                    let vid = container.nodes.add(v);
                    mid.dynamic = Some((vid, var));
                    let m = container.nodes.add(mid);
                    self.dynamic_children.insert(prefix, m);
                    proof {
                        let o = old(container).nodes@;
                        let n = container.nodes@;
                        assert(n.dom() =~= o.dom().union(set![vid, m]));
                    }
                    Ok(OptimizedTreeNodeInsertResult::Resolve(vid, suffix))
                }
            },
        }
    }
}

/// What [`OptimizedTreeNode::insert`] does, by resolution: `os`/`fs` are the node
/// before and after, `onodes`/`fnodes` the rest of the tree, `next` the first free id.
pub open spec fn insert_post(
    os: OptimizedTreeNode,
    fs: OptimizedTreeNode,
    onodes: Map<u64, OptimizedTreeNode>,
    fnodes: Map<u64, OptimizedTreeNode>,
    next: u64,
    othorns: SingleThornContainer,
    fthorns: SingleThornContainer,
    leaf_id: u64,
    res: CloudFileResolve,
    r: Result<OptimizedTreeNodeInsertResult, DenskyError>,
) -> bool {
    match res {
        CloudFileResolve::Ignore => r == Ok::<OptimizedTreeNodeInsertResult, DenskyError>(
            OptimizedTreeNodeInsertResult::Done,
        ) && fs == os && fnodes == onodes && fthorns == othorns,
        CloudFileResolve::Pass => insert_pass_post(os, fs, onodes, fnodes, next, othorns, fthorns, leaf_id, r),
        CloudFileResolve::SingleThorn(name) => insert_thorn_post(
            os, fs, onodes, fnodes, next, othorns, fthorns, leaf_id, name@, r,
        ),
        CloudFileResolve::MultiThorn(name) => insert_multi_post(
            os, fs, onodes, fnodes, next, othorns, fthorns, leaf_id, name@, r,
        ),
        CloudFileResolve::Index => insert_index_post(os, fs, onodes, fnodes, next, othorns, fthorns, leaf_id, r),
        CloudFileResolve::Dynamic(prefix, var, suffix) => insert_dynamic_post(
            os, fs, onodes, fnodes, next, othorns, fthorns, leaf_id, prefix@, var@, suffix@, r,
        ),
    }
}

/// `Pass`: the leaf is renamed to its relative pathname without a leading slash, made
/// static, and becomes the static child of that key.
pub open spec fn insert_pass_post(
    os: OptimizedTreeNode,
    fs: OptimizedTreeNode,
    onodes: Map<u64, OptimizedTreeNode>,
    fnodes: Map<u64, OptimizedTreeNode>,
    next: u64,
    othorns: SingleThornContainer,
    fthorns: SingleThornContainer,
    leaf_id: u64,
    r: Result<OptimizedTreeNodeInsertResult, DenskyError>,
) -> bool {
    let leaf = onodes[leaf_id];
    let key = strip_slash_spec(leaf.relative_pathname@);
    &&& r == Ok::<OptimizedTreeNodeInsertResult, DenskyError>(OptimizedTreeNodeInsertResult::Done)
    &&& same_but_slots(os, fs)
    &&& fs.static_children@ == os.static_children@.insert(key, leaf_id)
    &&& fs.dynamic_children == os.dynamic_children
    &&& fs.index == os.index
    &&& fs.dynamic == os.dynamic
    &&& kept_nodes(onodes, fnodes, set![leaf_id], Set::empty())
    &&& made_static(leaf, fnodes[leaf_id], key)
    &&& fthorns == othorns
}

/// `SingleThorn(name)`: `name` is bound on the leaf's directory, unless it already is.
pub open spec fn insert_thorn_post(
    os: OptimizedTreeNode,
    fs: OptimizedTreeNode,
    onodes: Map<u64, OptimizedTreeNode>,
    fnodes: Map<u64, OptimizedTreeNode>,
    next: u64,
    othorns: SingleThornContainer,
    fthorns: SingleThornContainer,
    leaf_id: u64,
    name: Seq<char>,
    r: Result<OptimizedTreeNodeInsertResult, DenskyError>,
) -> bool {
    let dir = parent_spec(onodes[leaf_id].pathname@);
    &&& fs == os
    &&& fnodes == onodes
    &&& if othorns@.contains_key((dir, name)) {
        r == Err::<OptimizedTreeNodeInsertResult, DenskyError>(DenskyError::ThornConflict)
            && fthorns == othorns
    } else {
        r == Ok::<OptimizedTreeNodeInsertResult, DenskyError>(OptimizedTreeNodeInsertResult::Done)
            && fthorns@ == othorns@.insert((dir, name), leaf_id)
    }
    &&& fthorns.multi_view() == othorns.multi_view()
}

/// `MultiThorn(name)`: `name` is appended on the leaf's directory.
pub open spec fn insert_multi_post(
    os: OptimizedTreeNode,
    fs: OptimizedTreeNode,
    onodes: Map<u64, OptimizedTreeNode>,
    fnodes: Map<u64, OptimizedTreeNode>,
    next: u64,
    othorns: SingleThornContainer,
    fthorns: SingleThornContainer,
    leaf_id: u64,
    name: Seq<char>,
    r: Result<OptimizedTreeNodeInsertResult, DenskyError>,
) -> bool {
    let dir = parent_spec(onodes[leaf_id].pathname@);
    &&& r == Ok::<OptimizedTreeNodeInsertResult, DenskyError>(OptimizedTreeNodeInsertResult::Done)
    &&& fs == os
    &&& fnodes == onodes
    &&& fthorns@ == othorns@
    &&& fthorns.multi_view() == othorns.multi_view().push((dir, name, leaf_id))
}

/// `Index`: with no directory above it, the leaf hands its index to this node and is
/// dropped (`Fatal` if it has none); else it takes its directory as pathname and is
/// resolved again at this node under that name.
pub open spec fn insert_index_post(
    os: OptimizedTreeNode,
    fs: OptimizedTreeNode,
    onodes: Map<u64, OptimizedTreeNode>,
    fnodes: Map<u64, OptimizedTreeNode>,
    next: u64,
    othorns: SingleThornContainer,
    fthorns: SingleThornContainer,
    leaf_id: u64,
    r: Result<OptimizedTreeNodeInsertResult, DenskyError>,
) -> bool {
    let leaf = onodes[leaf_id];
    let dir = parent_spec(leaf.pathname@);
    &&& fthorns == othorns
    &&& if dir.len() == 0 {
        &&& fnodes == onodes
        &&& if leaf.index is Some {
            &&& r == Ok::<OptimizedTreeNodeInsertResult, DenskyError>(
                OptimizedTreeNodeInsertResult::RemoveNode,
            )
            &&& same_but_slots(os, fs)
            &&& fs.index == leaf.index
            &&& fs.static_children == os.static_children
            &&& fs.dynamic_children == os.dynamic_children
            &&& fs.dynamic == os.dynamic
        } else {
            r == Err::<OptimizedTreeNodeInsertResult, DenskyError>(DenskyError::Fatal) && fs == os
        }
    } else {
        &&& r matches Ok(a) && is_resolve(a, os.id, dir)
        &&& fs == os
        &&& kept_nodes(onodes, fnodes, set![leaf_id], Set::empty())
        &&& repathed(leaf, fnodes[leaf_id], dir)
    }
}

/// `Dynamic(prefix, var, suffix)`:
/// - empty prefix and suffix: the leaf is this node's variable child, and its index
///   becomes this node's;
/// - empty prefix: the rest goes below this node's variable child, made (named `var`)
///   when there is none;
/// - else, with a dynamic child that `prefix` goes into (see [`goes_into`]): the leaf is
///   resolved below that child with the rest of its relative pathname; when that child
///   has a variable child, the leaf is resolved below that variable child instead, with
///   its suffix;
/// - else, with a dynamic child that shares part of `prefix`: that child is split at
///   the shared part, under a new intermediate node that the leaf goes on into;
/// - else: a new dynamic child keyed `prefix` is made, holding the leaf as its variable
///   child when `suffix` is empty, or a new variable child `var` that the rest goes below.
pub open spec fn insert_dynamic_post(
    os: OptimizedTreeNode,
    fs: OptimizedTreeNode,
    onodes: Map<u64, OptimizedTreeNode>,
    fnodes: Map<u64, OptimizedTreeNode>,
    next: u64,
    othorns: SingleThornContainer,
    fthorns: SingleThornContainer,
    leaf_id: u64,
    prefix: Seq<char>,
    var: Seq<char>,
    suffix: Seq<char>,
    r: Result<OptimizedTreeNodeInsertResult, DenskyError>,
) -> bool {
    let leaf = onodes[leaf_id];
    let fresh = next;
    &&& fthorns == othorns
    &&& if prefix.len() == 0 {
        if suffix.len() == 0 {
            &&& r == Ok::<OptimizedTreeNodeInsertResult, DenskyError>(OptimizedTreeNodeInsertResult::Done)
            &&& fnodes == onodes
            &&& same_but_slots(os, fs)
            &&& fs.dynamic matches Some(d) && d.0 == leaf_id && d.1@ == var
            &&& fs.index == leaf.index
            &&& fs.static_children == os.static_children
            &&& fs.dynamic_children == os.dynamic_children
        } else if os.dynamic is Some {
            &&& fnodes == onodes
            &&& fs == os
            &&& if onodes.contains_key(os.dynamic.unwrap().0) {
                r matches Ok(a) && is_resolve(a, os.dynamic.unwrap().0, suffix)
            } else {
                r == Err::<OptimizedTreeNodeInsertResult, DenskyError>(DenskyError::Fatal)
            }
        } else {
            &&& r matches Ok(a) && is_resolve(a, fresh, suffix)
            &&& kept_nodes(onodes, fnodes, Set::empty(), set![fresh])
            &&& made_child(fnodes[fresh], fresh, os.pathname@, var)
            &&& fnodes[fresh].dynamic_children@ == Map::<Seq<char>, u64>::empty()
            &&& fnodes[fresh].dynamic is None
            &&& fnodes[fresh].varname matches Some(v) && v@ == var
            &&& same_but_slots(os, fs)
            &&& fs.dynamic matches Some(d) && d.0 == fresh && d.1@ == var
            &&& fs.index == os.index
            &&& fs.static_children == os.static_children
            &&& fs.dynamic_children == os.dynamic_children
        }
    } else {
        match chosen_key(os, prefix) {
            Some(k) => {
                let cid = os.dynamic_children@[k];
                if !onodes.contains_key(cid) {
                    r == Err::<OptimizedTreeNodeInsertResult, DenskyError>(DenskyError::Fatal)
                        && fs == os && fnodes == onodes && fthorns == othorns
                } else if goes_into(prefix, k) {
                    let child = onodes[cid];
                    &&& fnodes == onodes
                    &&& fs == os
                    &&& match child.dynamic {
                        Some(d) => if onodes.contains_key(d.0) {
                            r matches Ok(a) && is_resolve(a, d.0, suffix)
                        } else {
                            r == Err::<OptimizedTreeNodeInsertResult, DenskyError>(DenskyError::Fatal)
                        },
                        None => r matches Ok(a) && is_resolve(
                            a,
                            cid,
                            strip_slash_spec(
                                strip_prefix_spec(leaf.relative_pathname@, child.relative_pathname@),
                            ),
                        ),
                    }
                } else {
                    let common = split_point(prefix, k);
                    let rest = strip_slash_spec(strip_prefix_spec(k, common));
                    let mid = fnodes[fresh];
                    &&& r matches Ok(a) && is_merge(
                        a,
                        fresh,
                        strip_slash_spec(strip_prefix_spec(leaf.relative_pathname@, common)),
                    )
                    &&& kept_nodes(onodes, fnodes, set![cid], set![fresh])
                    &&& renamed(onodes[cid], fnodes[cid], rest)
                    &&& made_child(mid, fresh, os.pathname@, common)
                    &&& mid.dynamic_children@ == Map::<Seq<char>, u64>::empty().insert(rest, cid)
                    &&& mid.dynamic is None
                    &&& mid.varname is None
                    &&& same_but_slots(os, fs)
                    &&& fs.dynamic_children@ == os.dynamic_children@.remove(k).insert(common, fresh)
                    &&& fs.static_children == os.static_children
                    &&& fs.index == os.index
                    &&& fs.dynamic == os.dynamic
                }
            },
            None => {
                let rel = strip_slash_spec(strip_prefix_spec(leaf.relative_pathname@, prefix));
                &&& same_but_slots(os, fs)
                &&& fs.static_children == os.static_children
                &&& fs.index == os.index
                &&& fs.dynamic == os.dynamic
                &&& renamed(leaf, fnodes[leaf_id], rel)
                &&& if suffix.len() == 0 {
                    let mid = fnodes[fresh];
                    &&& r == Ok::<OptimizedTreeNodeInsertResult, DenskyError>(
                        OptimizedTreeNodeInsertResult::Done,
                    )
                    &&& kept_nodes(onodes, fnodes, set![leaf_id], set![fresh])
                    &&& made_child(mid, fresh, os.pathname@, prefix)
                    &&& mid.dynamic_children@ == Map::<Seq<char>, u64>::empty()
                    &&& mid.dynamic matches Some(d) && d.0 == leaf_id && d.1@ == var
                    &&& mid.varname is None
                    &&& fs.dynamic_children@ == os.dynamic_children@.insert(prefix, fresh)
                } else {
                    let v = fresh;
                    let m = (fresh + 1) as u64;
                    let mid = fnodes[m];
                    let vn = fnodes[v];
                    &&& r matches Ok(a) && is_resolve(a, v, suffix)
                    &&& kept_nodes(onodes, fnodes, set![leaf_id], set![v, m])
                    &&& made_child(mid, m, os.pathname@, prefix)
                    &&& mid.dynamic_children@ == Map::<Seq<char>, u64>::empty()
                    &&& mid.dynamic matches Some(d) && d.0 == v && d.1@ == var
                    &&& mid.varname is None
                    &&& made_child(vn, v, mid.pathname@, var)
                    &&& vn.dynamic_children@ == Map::<Seq<char>, u64>::empty()
                    &&& vn.dynamic is None
                    &&& vn.varname matches Some(x) && x@ == var
                    &&& fs.dynamic_children@ == os.dynamic_children@.insert(prefix, m)
                }
            },
        }
    }
}

} // verus!
