//! The plain route walker: trees and leaves kept in two id-addressed tables.
use vstd::prelude::*;
use vstd::string::*;

use crate::path::{
    diff_of, dir_of, dir_path, dotted_spec, join_paths, join_spec, last_slash_before, relative_path,
    starts_with, to_chars, well_formed_path,
};

verus! {

/// A file found by the walker.
pub struct WalkerLeaf {
    pub id: usize,
    /// The url path of this leaf.
    pub path: String,
    /// The url path relative to its parent.
    pub rel_path: String,
    /// The file it was read from.
    pub file_path: String,
    /// The file it is written to.
    pub output_path: String,
    pub owner: usize,
    pub content: Option<String>,
}

impl WalkerLeaf {
    pub fn new(path: String, file_path: String, output_path: String) -> (r: WalkerLeaf)
        ensures
            r.id == 0,
            r.path == path,
            r.rel_path@.len() == 0,
            r.file_path == file_path,
            r.output_path == output_path,
            r.owner == 0,
            r.content is None,
    {
        WalkerLeaf { id: 0, path, rel_path: String::new(), file_path, output_path, owner: 0, content: None }
    }
}

/// A marker entity of the walker.
pub struct WalkerThorn {
    pub id: usize,
}

/// What can go wrong while walking a route folder.
pub enum WalkerDiscoverError {
    /// An entry of the folder could not be read.
    Unreadable,
}

/// A folder of routes found by the walker.
pub struct WalkerTree {
    pub id: usize,
    /// The url path of this tree.
    pub path: String,
    /// The url path relative to its parent.
    pub rel_path: String,
    pub output_path: String,
    pub children: Vec<usize>,
    pub leaf: Option<usize>,
    pub middleware: Option<usize>,
    pub fallback: Option<usize>,
    pub parent: Option<usize>,
    /// The middlewares in force here, outermost first, once worked out.
    pub middlewares: Vec<usize>,
    pub has_index: bool,
    pub is_container: bool,
    pub is_root: bool,
    pub is_fallback: bool,
    pub is_middleware: bool,
}

/// The text after the last slash of `p`.
pub open spec fn last_segment(p: Seq<char>) -> Seq<char> {
    p.skip(last_slash_before(p, p.len() as int) + 1)
}

/// The largest cut of `o` (its end, or a slash) at most `n` whose prefix starts `rel`, or 0.
pub open spec fn best_prefix_cut(o: Seq<char>, rel: Seq<char>, n: int) -> int
    decreases n,
{
    if n <= 0 {
        0
    } else if (n == o.len() || o[n] == '/') && n <= rel.len() && rel.take(n) == o.take(n) {
        n
    } else {
        best_prefix_cut(o, rel, n - 1)
    }
}

/// The leading segments of `other` that `rel` starts with, all of `other` when it
/// starts with every one; `None` when it starts with none, or when `other` has an
/// empty segment.
pub open spec fn walker_common_spec(rel: Seq<char>, other: Seq<char>) -> Option<Seq<char>> {
    let c = best_prefix_cut(other, rel, other.len() as int);
    if !well_formed_path(other) || c == 0 {
        None
    } else {
        Some(other.take(c))
    }
}

impl WalkerTree {
    /// A root-like tree at `/`.
    pub fn new() -> (r: WalkerTree)
        ensures
            r.id == 0,
            r.path@ == seq!['/'],
            r.rel_path@ == seq!['/'],
            r.output_path@ == seq!['/'],
            r.children@.len() == 0,
            r.leaf is None && r.middleware is None && r.fallback is None && r.parent is None,
            r.middlewares@.len() == 0,
            !r.has_index && !r.is_container && !r.is_root && !r.is_fallback && !r.is_middleware,
    {
        let slash = "/";
        proof {
            reveal_strlit("/");
        }
        assert(slash@ =~= seq!['/']);
        WalkerTree::new_detailed(slash, slash, slash)
    }

    /// A tree with the given paths and nothing in it.
    pub fn new_detailed(path: &str, rel_path: &str, output_path: &str) -> (r: WalkerTree)
        ensures
            r.id == 0,
            r.path@ == path@,
            r.rel_path@ == rel_path@,
            r.output_path@ == output_path@,
            r.children@.len() == 0,
            r.leaf is None && r.middleware is None && r.fallback is None && r.parent is None,
            r.middlewares@.len() == 0,
            !r.has_index && !r.is_container && !r.is_root && !r.is_fallback && !r.is_middleware,
    {
        WalkerTree {
            id: 0,
            path: String::from_str(path),
            rel_path: String::from_str(rel_path),
            output_path: String::from_str(output_path),
            children: Vec::new(),
            leaf: None,
            middleware: None,
            fallback: None,
            parent: None,
            middlewares: Vec::new(),
            has_index: false,
            is_container: false,
            is_root: false,
            is_fallback: false,
            is_middleware: false,
        }
    }

    /// Whether the last segment of its path names a fallback or a middleware.
    pub fn is_convention(&self) -> (r: bool)
        ensures
            r == (last_segment(self.path@) == "_fallback"@ || last_segment(self.path@) == "_middleware"@),
    {
        let c = to_chars(self.path.as_str());
        let n = c.len();
        let mut i: usize = n;
        while i > 0 && c[i - 1] != '/'
            invariant
                c@ == self.path@,
                n == c@.len(),
                i <= n,
                last_slash_before(c@, n as int) == last_slash_before(c@, i as int),
            decreases i,
        {
            i = i - 1;
        }
        let last = String::from_str(self.path.as_str().substring_char(i, n));
        let a = String::from_str("_fallback");
        let b = String::from_str("_middleware");
        last.eq(&a) || last.eq(&b)
    }

    /// The leading segments of `other_path` that this tree's relative path starts with.
    pub fn get_common_path(&self, other_path: String) -> (r: Option<String>)
        ensures
            r matches Some(p) ==> walker_common_spec(self.rel_path@, other_path@) == Some(p@),
            r is None ==> walker_common_spec(self.rel_path@, other_path@) is None,
    {
        let o = to_chars(other_path.as_str());
        let n = o.len();
        let mut wf = n > 0 && o[0] != '/' && o[n - 1] != '/';
        let mut k: usize = 0;
        while n > 0 && k < n - 1
            invariant
                o@ == other_path@,
                n == o@.len(),
                k <= n,
                wf ==> n > 0 && o@[0] != '/' && o@[n - 1] != '/' && forall|j: int|
                    0 <= j < k && #[trigger] o@[j] == '/' ==> o@[j + 1] != '/',
                !wf ==> !well_formed_path(o@),
            decreases n - k,
        {
            if o[k] == '/' && o[k + 1] == '/' {
                wf = false;
            }
            k = k + 1;
        }
        if !wf {
            return None;
        }
        let mut best: usize = 0;
        let mut i: usize = 0;
        let mut stopped = false;
        while i < n && !stopped
            invariant
                o@ == other_path@,
                n == o@.len(),
                0 <= i <= n,
                best <= n,
                stopped ==> best == best_prefix_cut(o@, self.rel_path@, n as int),
                !stopped ==> best == best_prefix_cut(o@, self.rel_path@, i as int),
            decreases 2 * (n - i) + if stopped { 0int } else { 1int },
        {
            let c = i + 1;
            if c == n || o[c] == '/' {
                let head = self.rel_path.as_str();
                let piece = other_path.as_str().substring_char(0, c);
                if starts_with(head, piece) {
                    best = c;
                    i = c;
                } else {
                    assert(best == best_prefix_cut(o@, self.rel_path@, c as int));
                    proof {
                        lemma_no_later_cut(o@, self.rel_path@, c as int, n as int);
                    }
                    stopped = true;
                }
            } else {
                i = c;
            }
        }
        if best == 0 {
            None
        } else {
            Some(String::from_str(other_path.as_str().substring_char(0, best)))
        }
    }
}

/// Once a cut's prefix does not start `rel`, no later cut's does.
proof fn lemma_no_later_cut(o: Seq<char>, rel: Seq<char>, i: int, n: int)
    requires
        0 < i <= n <= o.len(),
        !(i <= rel.len() && rel.take(i) == o.take(i)),
    ensures
        best_prefix_cut(o, rel, n) == best_prefix_cut(o, rel, i - 1),
    decreases n - i,
{
    if n > i {
        if n <= rel.len() && rel.take(n) == o.take(n) {
            assert(rel.take(i) =~= rel.take(n).take(i));
            assert(o.take(i) =~= o.take(n).take(i));
        }
        lemma_no_later_cut(o, rel, i, n - 1);
    }
}

/// The walker's tables of trees and leaves; an id is a 1-based position.
pub struct WalkerContainer {
    pub output_dir: String,
    pub root: Option<usize>,
    pub tree: Vec<WalkerTree>,
    pub leaf: Vec<WalkerLeaf>,
}

/// The entry of `v` at 1-based id `id`.
pub open spec fn at_id<T>(v: Seq<T>, id: usize) -> Option<T> {
    if 1 <= id <= v.len() {
        Some(v[id - 1])
    } else {
        None
    }
}

pub open spec fn ref_view<T>(r: Option<&T>) -> Option<T> {
    match r {
        Some(x) => Some(*x),
        None => None,
    }
}

impl WalkerContainer {
    /// Empty tables that write below `output_dir`.
    pub fn new(output_dir: &str) -> (r: WalkerContainer)
        ensures
            r.output_dir@ == output_dir@,
            r.root is None,
            r.tree@.len() == 0,
            r.leaf@.len() == 0,
    {
        WalkerContainer { output_dir: String::from_str(output_dir), root: None, tree: Vec::new(), leaf: Vec::new() }
    }

    pub fn get_output_dir(&self) -> (r: String)
        ensures
            r == self.output_dir,
    {
        self.output_dir.clone()
    }

    /// Makes the root tree (output `_index` in the output directory) and returns its id.
    pub fn create_root(&mut self) -> (r: usize)
        requires
            old(self).tree@.len() < usize::MAX,
        ensures
            r == old(self).tree@.len() + 1,
            final(self).root == Some(r),
            final(self).tree@.len() == r,
            final(self).tree@.take(r - 1) == old(self).tree@,
            final(self).tree@[r - 1].id == r,
            final(self).tree@[r - 1].is_root,
            final(self).tree@[r - 1].path@ == seq!['/'],
            final(self).tree@[r - 1].children@.len() == 0,
            final(self).tree@[r - 1].output_path@ == join_spec("_index"@, old(self).output_dir@),
            final(self).leaf == old(self).leaf,
            final(self).output_dir == old(self).output_dir,
    {
        let mut root = WalkerTree::new();
        root.id = self.id_tree();
        root.output_path = join_paths("_index", self.output_dir.as_str());
        root.is_root = true;
        self.root = Some(root.id);
        let id = root.id;
        self.tree.push(root);
        assert(self.tree@.take(id - 1) =~= old(self).tree@);
        id
    }

    /// The id the next tree gets.
    pub fn id_tree(&self) -> (r: usize)
        requires
            self.tree@.len() < usize::MAX,
        ensures
            r == self.tree@.len() + 1,
    {
        self.tree.len() + 1
    }

    /// The id the next leaf gets.
    pub fn id_leaf(&self) -> (r: usize)
        requires
            self.leaf@.len() < usize::MAX,
        ensures
            r == self.leaf@.len() + 1,
    {
        self.leaf.len() + 1
    }

    /// Stores a tree under the next id, and returns it.
    pub fn add_tree(&mut self, new_node: WalkerTree) -> (r: usize)
        requires
            old(self).tree@.len() < usize::MAX,
        ensures
            r == old(self).tree@.len() + 1,
            final(self).tree@ == old(self).tree@.push(WalkerTree { id: r, ..new_node }),
            final(self).leaf == old(self).leaf,
            final(self).root == old(self).root,
            final(self).output_dir == old(self).output_dir,
    {
        let new_id = self.id_tree();
        let mut node = new_node;
        node.id = new_id;
        self.tree.push(node);
        new_id
    }

    /// Stores a leaf under the next id, and returns it.
    pub fn add_leaf(&mut self, new_node: WalkerLeaf) -> (r: usize)
        requires
            old(self).leaf@.len() < usize::MAX,
        ensures
            r == old(self).leaf@.len() + 1,
            final(self).leaf@ == old(self).leaf@.push(WalkerLeaf { id: r, ..new_node }),
            final(self).tree == old(self).tree,
            final(self).root == old(self).root,
            final(self).output_dir == old(self).output_dir,
    {
        let new_id = self.id_leaf();
        let mut node = new_node;
        node.id = new_id;
        self.leaf.push(node);
        new_id
    }

    /// The tree with id `id`; ids start at 1.
    pub fn get_tree(&self, id: usize) -> (r: Option<&WalkerTree>)
        ensures
            ref_view(r) == at_id(self.tree@, id),
    {
        if id == 0 || id > self.tree.len() {
            None
        } else {
            Some(&self.tree[id - 1])
        }
    }

    /// The tree with id `id`, for exclusive use while the borrow lasts.
    pub fn get_tree_locked(&self, id: usize) -> (r: Option<&WalkerTree>)
        ensures
            ref_view(r) == at_id(self.tree@, id),
    {
        self.get_tree(id)
    }

    /// The leaf with id `id`; ids start at 1.
    pub fn get_leaf(&self, id: usize) -> (r: Option<&WalkerLeaf>)
        ensures
            ref_view(r) == at_id(self.leaf@, id),
    {
        if id == 0 || id > self.leaf.len() {
            None
        } else {
            Some(&self.leaf[id - 1])
        }
    }

    /// The leaf with id `id`, for exclusive use while the borrow lasts.
    pub fn get_leaf_locked(&self, id: usize) -> (r: Option<&WalkerLeaf>)
        ensures
            ref_view(r) == at_id(self.leaf@, id),
    {
        self.get_leaf(id)
    }

    /// The root tree, once made.
    pub fn get_root(&self) -> (r: Option<&WalkerTree>)
        ensures
            ref_view(r) == match self.root {
                Some(id) => at_id(self.tree@, id),
                None => None,
            },
    {
        match self.root {
            Some(id) => self.get_tree(id),
            None => None,
        }
    }

    /// The root tree, for exclusive use while the borrow lasts.
    pub fn get_root_locked(&self) -> (r: Option<&WalkerTree>)
        ensures
            ref_view(r) == match self.root {
                Some(id) => at_id(self.tree@, id),
                None => None,
            },
    {
        self.get_root()
    }

    pub fn get_root_id(&self) -> (r: Option<usize>)
        ensures
            r == self.root,
    {
        self.root
    }
}


/// How a leaf's import `path` is written from its output file: a path starting with
/// `.` is taken from the leaf's own folder, one starting with `/` as it is, and both are
/// made relative to the output file's folder; any other path is kept.
pub open spec fn leaf_import_spec(file_path: Seq<char>, output_path: Seq<char>, path: Seq<char>) -> Option<
    Seq<char>,
> {
    if path.len() > 0 && (path[0] == '.' || path[0] == '/') {
        let absolute = if path[0] == '.' {
            match dir_of(file_path) {
                Some(d) => Some(join_spec(path, d)),
                None => None,
            }
        } else {
            Some(path)
        };
        match (absolute, dir_of(output_path)) {
            (Some(a), Some(o)) => match diff_of(a, o) {
                Some(d) => Some(dotted_spec(d)),
                None => None,
            },
            _ => None,
        }
    } else {
        Some(path)
    }
}

/// The code generation of one http leaf.
pub struct HttpLeaf;

impl HttpLeaf {
    /// Rewrites an import of `this` so that it reads from the leaf's output file.
    pub fn resolve_import(this: &WalkerLeaf, path: &str) -> (r: Option<String>)
        ensures
            r matches Some(s) ==> leaf_import_spec(this.file_path@, this.output_path@, path@) == Some(s@),
            r is None ==> leaf_import_spec(this.file_path@, this.output_path@, path@) is None,
    {
        if path.unicode_len() == 0 {
            return Some(String::from_str(path));
        }
        let first = path.get_char(0);
        if first != '.' && first != '/' {
            return Some(String::from_str(path));
        }
        let absolute = if first == '.' {
            match dir_path(this.file_path.as_str()) {
                Some(d) => join_paths(path, d.as_str()),
                None => return None,
            }
        } else {
            String::from_str(path)
        };
        match dir_path(this.output_path.as_str()) {
            Some(o) => relative_path(absolute.as_str(), o.as_str()),
            None => None,
        }
    }
}

/// The code generation of one http tree.
pub struct HttpTree;

impl HttpTree {
    /// Rewrites an absolute `path` so that it reads from the tree's output file, whose
    /// folder it needs; any other path is kept. `None` when no relative path leads there.
    pub fn resolve_import(this: &WalkerTree, path: &str) -> (r: Option<String>)
        requires
            path@.len() > 0 && path@[0] == '/' ==> dir_of(this.output_path@) is Some,
        ensures
            path@.len() > 0 && path@[0] == '/' ==> match r {
                Some(s) => diff_of(path@, dir_of(this.output_path@).unwrap()) matches Some(d) && s@
                    == dotted_spec(d),
                None => diff_of(path@, dir_of(this.output_path@).unwrap()) is None,
            },
            !(path@.len() > 0 && path@[0] == '/') ==> (r matches Some(s) && s@ == path@),
    {
        if path.unicode_len() > 0 && path.get_char(0) == '/' {
            match dir_path(this.output_path.as_str()) {
                Some(o) => relative_path(path, o.as_str()),
                None => None,
            }
        } else {
            Some(String::from_str(path))
        }
    }
}

} // verus!
