//! Route tree nodes and the resolutions a plugin gives for each discovered file.
use vstd::prelude::*;
use vstd::string::*;

use crate::children::ChildMap;
use crate::path::{strip_leading_slash, strip_prefix_if_can, strip_prefix_spec, strip_slash_spec};

verus! {

/// How a plugin classifies one discovered file.
pub enum CloudFileResolve {
    /// A static leaf at its relative path.
    Pass,
    /// Dropped.
    Ignore,
    /// The default leaf of its parent directory.
    Index,
    /// `(prefix, var, suffix)`: a variable segment `var` between `prefix` and `suffix`.
    Dynamic(String, String, String),
    /// A named marker of its directory; one per directory and name.
    SingleThorn(String),
    /// A named marker of its directory that may repeat.
    MultiThorn(String),
}

impl CloudFileResolve {
    /// The resolution a plugin gave, or `Pass` when it gave none.
    pub fn or_pass(given: Option<CloudFileResolve>) -> (r: CloudFileResolve)
        ensures
            given matches Some(x) ==> r == x,
            given is None ==> r is Pass,
    {
        match given {
            Some(x) => x,
            None => CloudFileResolve::Pass,
        }
    }

    /// `Pass`, the resolution used when a plugin gives none.
    pub fn default_resolution() -> (r: CloudFileResolve)
        ensures
            r is Pass,
    {
        CloudFileResolve::Pass
    }
}

/// What the caller of [`OptimizedTreeNode::insert`] does next.
pub enum OptimizedTreeNodeInsertResult {
    /// Nothing more to do.
    Done,
    /// `(new_parent, new_suffix)`: rename the leaf to `new_suffix`, classify it again
    /// and insert it under `new_parent`.
    Resolve(u64, String),
    /// The leaf was folded into its parent; drop it from the store.
    RemoveNode,
    /// `(new_node, new_suffix)`: a sibling was split; go on under the new intermediate
    /// node with `new_suffix`.
    MergeNodes(u64, String),
}

impl PartialEq for OptimizedTreeNodeInsertResult {
    fn eq(&self, o: &OptimizedTreeNodeInsertResult) -> (r: bool) {
        match (self, o) {
            (OptimizedTreeNodeInsertResult::Done, OptimizedTreeNodeInsertResult::Done) => true,
            (
                OptimizedTreeNodeInsertResult::Resolve(a, s),
                OptimizedTreeNodeInsertResult::Resolve(b, t),
            ) => *a == *b && s.eq(t),
            (OptimizedTreeNodeInsertResult::RemoveNode, OptimizedTreeNodeInsertResult::RemoveNode) => true,
            (
                OptimizedTreeNodeInsertResult::MergeNodes(a, s),
                OptimizedTreeNodeInsertResult::MergeNodes(b, t),
            ) => *a == *b && s.eq(t),
            _ => false,
        }
    }
}

impl vstd::std_specs::cmp::PartialEqSpecImpl for OptimizedTreeNodeInsertResult {
    open spec fn obeys_eq_spec() -> bool {
        true
    }

    open spec fn eq_spec(&self, o: &OptimizedTreeNodeInsertResult) -> bool {
        match (self, o) {
            (OptimizedTreeNodeInsertResult::Done, OptimizedTreeNodeInsertResult::Done) => true,
            (
                OptimizedTreeNodeInsertResult::Resolve(a, s),
                OptimizedTreeNodeInsertResult::Resolve(b, t),
            ) => *a == *b && s@ == t@,
            (OptimizedTreeNodeInsertResult::RemoveNode, OptimizedTreeNodeInsertResult::RemoveNode) => true,
            (
                OptimizedTreeNodeInsertResult::MergeNodes(a, s),
                OptimizedTreeNodeInsertResult::MergeNodes(b, t),
            ) => *a == *b && s@ == t@,
            _ => false,
        }
    }
}

/// The failures of building a route tree and its manifest.
pub enum DenskyError {
    /// A missing or malformed config file, or a bad version.
    Config,
    /// A plugin library that cannot be found, or lacks an entry point.
    PluginLoad,
    /// A plugin call that returned an error.
    PluginCall,
    /// A path that cannot be made relative to the input root, or read as text.
    PathResolve,
    /// A second single thorn of one name on one path.
    ThornConflict,
    /// Two different types declared for one manifest argument.
    ArgumentConflict,
    /// A broken tree invariant.
    Fatal,
}

/// One node of a route tree.
pub struct OptimizedTreeNode {
    pub id: u64,
    /// Path from the route root, slash-separated, without a leading slash.
    pub pathname: String,
    /// Path relative to the parent node.
    pub relative_pathname: String,
    pub input_path: Option<String>,
    /// Output file path.
    pub output_path: Option<String>,
    pub static_children: ChildMap,
    pub dynamic_children: ChildMap,
    pub index: Option<u64>,
    /// The one variable child: its id and the variable's name.
    pub dynamic: Option<(u64, String)>,
    pub is_root: bool,
    pub is_static: bool,
    pub varname: Option<String>,
}

impl OptimizedTreeNode {
    pub open spec fn wf(&self) -> bool {
        self.static_children.wf() && self.dynamic_children.wf()
    }

    /// The same node under another id.
    pub open spec fn with_id(self, id: u64) -> OptimizedTreeNode {
        OptimizedTreeNode { id, ..self }
    }

    /// The same node with another variable name.
    pub open spec fn with_varname(self, v: Option<String>) -> OptimizedTreeNode {
        OptimizedTreeNode { varname: v, ..self }
    }

    /// A node with no children and no id yet (the store gives it one).
    pub open spec fn fresh(&self) -> bool {
        &&& self.wf()
        &&& self.id == 0
        &&& self.static_children@ == Map::<Seq<char>, u64>::empty()
        &&& self.dynamic_children@ == Map::<Seq<char>, u64>::empty()
        &&& self.index is None
        &&& self.dynamic is None
        &&& !self.is_root
        &&& !self.is_static
        &&& self.varname is None
    }

    /// A node for a discovered file at `relative_pathname`.
    pub fn new(relative_pathname: String, input_path: Option<String>, output_path: String) -> (r:
        OptimizedTreeNode)
        ensures
            r.fresh(),
            r.pathname@ == relative_pathname@,
            r.relative_pathname@ == relative_pathname@,
            r.input_path == input_path,
            r.output_path == Some(output_path),
    {
        OptimizedTreeNode {
            id: 0,
            pathname: relative_pathname.clone(),
            relative_pathname,
            input_path,
            output_path: Some(output_path),
            static_children: ChildMap::new(),
            dynamic_children: ChildMap::new(),
            index: None,
            dynamic: None,
            is_root: false,
            is_static: false,
            varname: None,
        }
    }

    /// A leaf node for a discovered file at `relative_pathname`.
    pub fn new_leaf(relative_pathname: String, input_path: Option<String>, output_path: String) -> (r:
        OptimizedTreeNode)
        ensures
            r.fresh(),
            r.pathname@ == relative_pathname@,
            r.relative_pathname@ == relative_pathname@,
            r.input_path == input_path,
            r.output_path == Some(output_path),
    {
        OptimizedTreeNode::new(relative_pathname, input_path, output_path)
    }

    /// An intermediate node below a parent at `parent_pathname`.
    pub fn new_child(parent_pathname: &String, relative_pathname: String, output_path: Option<String>) -> (r:
        OptimizedTreeNode)
        ensures
            r.fresh(),
            r.pathname@ == child_pathname(parent_pathname@, relative_pathname@),
            r.relative_pathname@ == relative_pathname@,
            r.input_path is None,
            r.output_path == output_path,
    {
        let tail = strip_prefix_if_can(relative_pathname.as_str(), parent_pathname.as_str());
        let slash = "/";
        proof {
            reveal_strlit("/");
        }
        assert(slash@ =~= seq!['/']);
        let joined = parent_pathname.clone().concat(slash).concat(tail.as_str());
        let pathname = strip_leading_slash(joined.as_str());
        OptimizedTreeNode {
            id: 0,
            pathname,
            relative_pathname,
            input_path: None,
            output_path,
            static_children: ChildMap::new(),
            dynamic_children: ChildMap::new(),
            index: None,
            dynamic: None,
            is_root: false,
            is_static: false,
            varname: None,
        }
    }
}

/// The path of a child named `rel` below a parent at `parent`.
pub open spec fn child_pathname(parent: Seq<char>, rel: Seq<char>) -> Seq<char> {
    strip_slash_spec(parent + seq!['/'] + strip_prefix_spec(rel, parent))
}

} // verus!
