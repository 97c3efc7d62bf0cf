//! The node store: owns every node of a route tree, addressed by a stable id, and
//! holds the thorn index and the root id beside them.
use vstd::prelude::*;

use ahash::AHashMap;
use ahash::RandomState;

use crate::node::OptimizedTreeNode;
use crate::thorn::SingleThornContainer;

verus! {

#[verifier::external_type_specification]
#[verifier::external_body]
#[verifier::reject_recursive_types(K)]
#[verifier::reject_recursive_types(V)]
#[verifier::reject_recursive_types(S)]
pub struct ExAHashMap<K, V, S>(AHashMap<K, V, S>);

#[verifier::external_type_specification]
#[verifier::external_body]
pub struct ExRandomState(RandomState);

/// The map that holds a node table.
pub type NodeSlots = AHashMap<u64, OptimizedTreeNode>;

/// What a node table holds: id to node.
pub uninterp spec fn node_slots(m: NodeSlots) -> Map<u64, OptimizedTreeNode>;

/// Relies on `AHashMap::new`: a map with no entry.
#[verifier::external_body]
fn slots_new() -> (r: NodeSlots)
    ensures
        node_slots(r) =~= Map::empty(),
{
    AHashMap::new()
}

/// Relies on `AHashMap::insert`: sets `k` to `v`, handing back what `k` held.
#[verifier::external_body]
fn slots_insert(m: &mut NodeSlots, k: u64, v: OptimizedTreeNode) -> (r: Option<
    OptimizedTreeNode,
>)
    ensures
        node_slots(*final(m)) == node_slots(*old(m)).insert(k, v),
        r == (if node_slots(*old(m)).contains_key(k) {
            Some(node_slots(*old(m))[k])
        } else {
            None
        }),
{
    m.insert(k, v)
}

/// Relies on `AHashMap::get`: the entry under `k`, if any.
#[verifier::external_body]
fn slots_get(m: &NodeSlots, k: u64) -> (r: Option<&OptimizedTreeNode>)
    ensures
        r matches Some(v) ==> node_slots(*m).contains_key(k) && *v == node_slots(*m)[k],
        r is None ==> !node_slots(*m).contains_key(k),
{
    m.get(&k)
}

/// Relies on `AHashMap::remove`: drops `k`, handing back what it held.
#[verifier::external_body]
fn slots_remove(m: &mut NodeSlots, k: u64) -> (r: Option<OptimizedTreeNode>)
    ensures
        node_slots(*final(m)) == node_slots(*old(m)).remove(k),
        r == (if node_slots(*old(m)).contains_key(k) {
            Some(node_slots(*old(m))[k])
        } else {
            None
        }),
{
    m.remove(&k)
}

/// Relies on `ahash::RandomState::with_seeds` and `hash_one`: a hash of `x` under the
/// given keys. Nothing is promised of its value.
#[verifier::external_body]
fn seeded_hash(k0: u64, k1: u64, k2: u64, k3: u64, x: u64) -> u64 {
    RandomState::with_seeds(k0, k1, k2, k3).hash_one(x)
}

/// Keys of the hash used by [`SingleContainer::hash`].
pub const HASH_SEED_A: u64 = 0x6465_6e73_6b79_0001;
pub const HASH_SEED_B: u64 = 0x6465_6e73_6b79_0002;
pub const HASH_SEED_C: u64 = 0x6465_6e73_6b79_0003;
pub const HASH_SEED_D: u64 = 0x6465_6e73_6b79_0004;

/// The node table. Ids come from a counter that starts at 1, so an id is never
/// given twice.
pub struct SingleContainer {
    inner: NodeSlots,
    next_id: u64,
}

impl View for SingleContainer {
    type V = Map<u64, OptimizedTreeNode>;

    closed spec fn view(&self) -> Map<u64, OptimizedTreeNode> {
        node_slots(self.inner)
    }
}

impl SingleContainer {
    /// The id the next added node gets.
    pub closed spec fn next_id(&self) -> u64 {
        self.next_id
    }

    /// Every id in use came from the counter, and each node carries its own id.
    pub open spec fn wf(&self) -> bool {
        &&& self.next_id() >= 1
        &&& forall|k: u64| #[trigger] self@.contains_key(k) ==> 1 <= k < self.next_id()
        &&& forall|k: u64| #[trigger] self@.contains_key(k) ==> self@[k].id == k && self@[k].wf()
    }

    /// How many more ids the counter can give.
    pub open spec fn room(&self) -> int {
        u64::MAX - self.next_id()
    }

    pub fn new() -> (r: SingleContainer)
        ensures
            r.wf(),
            r@ == Map::<u64, OptimizedTreeNode>::empty(),
            r.next_id() == 1,
    {
        SingleContainer { inner: slots_new(), next_id: 1 }
    }

    /// A hash of `x` under fixed keys, the same in every run of one build.
    pub fn hash(&self, x: u64) -> u64 {
        seeded_hash(HASH_SEED_A, HASH_SEED_B, HASH_SEED_C, HASH_SEED_D, x)
    }

    /// How many ids the counter can still give.
    pub fn remaining_ids(&self) -> (r: u64)
        ensures
            r == self.room(),
    {
        u64::MAX - self.next_id
    }

    /// Stores `x` under `id`, which must be free and must have come from the counter.
    pub fn insert(&mut self, id: u64, x: OptimizedTreeNode)
        requires
            old(self).wf(),
            !old(self)@.contains_key(id),
            1 <= id < old(self).next_id(),
            x.id == id,
            x.wf(),
        ensures
            final(self).wf(),
            final(self)@ == old(self)@.insert(id, x),
            final(self).next_id() == old(self).next_id(),
    {
        slots_insert(&mut self.inner, id, x);
    }

    /// Puts back a node under its own id, replacing what the id held.
    pub fn put(&mut self, x: OptimizedTreeNode)
        requires
            old(self).wf(),
            1 <= x.id < old(self).next_id(),
            x.wf(),
        ensures
            final(self).wf(),
            final(self)@ == old(self)@.insert(x.id, x),
            final(self).next_id() == old(self).next_id(),
    {
        let id = x.id;
        slots_insert(&mut self.inner, id, x);
    }

    /// The node under `id`.
    pub fn get(&self, id: u64) -> (r: Option<&OptimizedTreeNode>)
        ensures
            r matches Some(v) ==> self@.contains_key(id) && *v == self@[id],
            r is None ==> !self@.contains_key(id),
    {
        slots_get(&self.inner, id)
    }

    /// Reads the node under `id`.
    pub fn get_reader(&self, id: u64) -> (r: Option<&OptimizedTreeNode>)
        ensures
            r matches Some(v) ==> self@.contains_key(id) && *v == self@[id],
            r is None ==> !self@.contains_key(id),
    {
        self.get(id)
    }

    /// Takes the node under `id` out of the table, for the caller to change and put back.
    pub fn take(&mut self, id: u64) -> (r: Option<OptimizedTreeNode>)
        requires
            old(self).wf(),
        ensures
            final(self).wf(),
            final(self)@ == old(self)@.remove(id),
            final(self).next_id() == old(self).next_id(),
            r == (if old(self)@.contains_key(id) {
                Some(old(self)@[id])
            } else {
                None
            }),
    {
        slots_remove(&mut self.inner, id)
    }

    /// Drops the node under `id`.
    pub fn remove(&mut self, id: u64)
        requires
            old(self).wf(),
        ensures
            final(self).wf(),
            final(self)@ == old(self)@.remove(id),
            final(self).next_id() == old(self).next_id(),
    {
        slots_remove(&mut self.inner, id);
    }

    /// Stores `x` under the next id of the counter, and returns that id.
    pub fn add(&mut self, x: OptimizedTreeNode) -> (r: u64)
        requires
            old(self).wf(),
            old(self).room() >= 1,
            x.wf(),
        ensures
            final(self).wf(),
            r == old(self).next_id(),
            final(self).next_id() == old(self).next_id() + 1,
            !old(self)@.contains_key(r),
            final(self)@ == old(self)@.insert(r, x.with_id(r)),
    {
        let id = self.next_id;
        let mut x = x;
        x.id = id;
        self.next_id = id + 1;
        assert(x == x.with_id(id)) by {
            assert(x.wf());
        }
        slots_insert(&mut self.inner, id, x);
        id
    }
}

/// A route tree: its node table, its thorn index and its root.
pub struct OptimizedTreeContainer {
    pub output_dir: String,
    pub root: Option<u64>,
    pub nodes: SingleContainer,
    pub single_thorn: SingleThornContainer,
}

impl OptimizedTreeContainer {
    pub open spec fn wf(&self) -> bool {
        self.nodes.wf() && self.single_thorn.wf()
    }

    pub open spec fn root_spec(&self) -> Option<u64> {
        self.root
    }

    pub open spec fn output_dir_spec(&self) -> Seq<char> {
        self.output_dir@
    }

    /// An empty tree that writes below `output_dir`.
    pub fn new(output_dir: &str) -> (r: OptimizedTreeContainer)
        ensures
            r.wf(),
            r.nodes@ == Map::<u64, OptimizedTreeNode>::empty(),
            r.nodes.next_id() == 1,
            r.single_thorn@ == Map::<(Seq<char>, Seq<char>), u64>::empty(),
            r.root_spec() is None,
            r.output_dir_spec() == output_dir@,
    {
        OptimizedTreeContainer {
            output_dir: output_dir.to_owned(),
            root: None,
            nodes: SingleContainer::new(),
            single_thorn: SingleThornContainer::new(),
        }
    }

    /// The output directory.
    pub fn get_output_dir(&self) -> (r: String)
        ensures
            r@ == self.output_dir_spec(),
    {
        self.output_dir.clone()
    }

    /// The root id, once a root was made.
    pub fn get_root_id(&self) -> (r: Option<u64>)
        ensures
            r == self.root_spec(),
    {
        self.root
    }
}

} // verus!
