//! Turning a route tree into the input of the plugin's code generation: the order in
//! which nodes are generated, the record each node is shown as, and the sources of a
//! node's children that go with it.
use vstd::prelude::*;
use vstd::string::*;

use crate::children::ChildMap;
use crate::node::{DenskyError, OptimizedTreeNode};
use crate::store::OptimizedTreeContainer;
use crate::thorn::{ancestors, found_on};

verus! {

/// A node as the plugin sees it when it generates code.
pub struct OptimizedTreeLeaf {
    /// The node's pathname with a leading slash.
    pub pathname: String,
    pub relative_pathname: String,
    /// The input file of the node, or else of its index node.
    pub index: Option<String>,
    /// For each thorn name on the node's path or an ancestor, the input files of those
    /// thorns, from the node outward.
    pub single_thorns: Vec<(String, Vec<String>)>,
    pub is_root: bool,
    pub is_static: bool,
    pub varname: Option<String>,
}

/// The input file a node is generated from: its own, else its index node's. `None`
/// when the index node is missing or has no input file.
pub open spec fn index_source(n: OptimizedTreeNode, nodes: Map<u64, OptimizedTreeNode>) -> Option<
    Option<Seq<char>>,
> {
    match n.input_path {
        Some(p) => Some(Some(p@)),
        None => match n.index {
            None => Some(None),
            Some(i) => if nodes.contains_key(i) && nodes[i].input_path is Some {
                Some(Some(nodes[i].input_path.unwrap()@))
            } else {
                None
            },
        },
    }
}

/// Every id of `ids` names a stored node with an input file.
pub open spec fn all_have_input(ids: Seq<u64>, nodes: Map<u64, OptimizedTreeNode>) -> bool {
    forall|j: int|
        0 <= j < ids.len() ==> nodes.contains_key(#[trigger] ids[j]) && nodes[ids[j]].input_path is Some
}

/// The input files of the nodes `ids`, in order.
pub open spec fn inputs_of(ids: Seq<u64>, nodes: Map<u64, OptimizedTreeNode>) -> Seq<Seq<char>> {
    ids.map_values(|i: u64| nodes[i].input_path.unwrap()@)
}

/// The thorns seen from path `p` all name nodes with an input file.
pub open spec fn thorns_have_input(c: OptimizedTreeContainer, p: Seq<char>) -> bool {
    forall|n: Seq<char>| all_have_input(#[trigger] found_on(c.single_thorn@, n, ancestors(p)), c.nodes@)
}

fn input_paths(ids: &Vec<u64>, container: &OptimizedTreeContainer) -> (r: Option<Vec<String>>)
    ensures
        r is Some <==> all_have_input(ids@, container.nodes@),
        r matches Some(v) ==> v@.map_values(|s: String| s@) == inputs_of(ids@, container.nodes@),
{
    let mut out: Vec<String> = Vec::new();
    let mut j: usize = 0;
    while j < ids.len()
        invariant
            j <= ids@.len(),
            out@.len() == j,
            all_have_input(ids@.take(j as int), container.nodes@),
            out@.map_values(|s: String| s@) == inputs_of(ids@.take(j as int), container.nodes@),
        decreases ids@.len() - j,
    {
        let p = match container.nodes.get(ids[j]) {
            Some(n) => match &n.input_path {
                Some(p) => p.clone(),
                None => {
                    assert(!all_have_input(ids@, container.nodes@)) by {
                        assert(ids@[j as int] == ids[j as int]);
                    }
                    return None;
                },
            },
            None => {
                assert(!all_have_input(ids@, container.nodes@)) by {
                    assert(ids@[j as int] == ids[j as int]);
                }
                return None;
            },
        };
        let ghost before = out@;
        assert(p@ == container.nodes@[ids@[j as int]].input_path.unwrap()@);
        out.push(p);
        j = j + 1;
        proof {
            let t = ids@.take(j as int);
            assert(t =~= ids@.take(j - 1).push(ids@[j - 1]));
            let lhs = out@.map_values(|s: String| s@);
            let rhs = inputs_of(t, container.nodes@);
            assert(lhs.len() == rhs.len());
            assert forall|k: int| 0 <= k < lhs.len() implies lhs[k] == rhs[k] by {
                if k < j - 1 {
                    assert(before.map_values(|s: String| s@)[k] == inputs_of(ids@.take(j - 1), container.nodes@)[k]);
                    assert(out@[k] == before[k]);
                }
            }
            assert(lhs =~= rhs);
            assert forall|k: int| 0 <= k < t.len() implies container.nodes@.contains_key(#[trigger] t[k])
                && container.nodes@[t[k]].input_path is Some by {
                if k < j - 1 {
                    assert(t[k] == ids@.take(j - 1)[k]);
                }
            }
        }
    }
    assert(ids@.take(ids@.len() as int) =~= ids@);
    Some(out)
}

impl OptimizedTreeNode {
    /// The record the plugin generates this node's code from. `Fatal` when its input
    /// file (its own or its index node's) or a thorn's input file cannot be found.
    pub fn into_leaf(&self, container: &OptimizedTreeContainer) -> (r: Result<
        OptimizedTreeLeaf,
        DenskyError,
    >)
        requires
            container.wf(),
        ensures
            r is Ok <==> index_source(*self, container.nodes@) is Some && thorns_have_input(
                *container,
                self.pathname@,
            ),
            r matches Ok(l) ==> {
                &&& l.pathname@ == seq!['/'] + self.pathname@
                &&& l.relative_pathname@ == self.relative_pathname@
                &&& (match l.index {
                    Some(s) => index_source(*self, container.nodes@) == Some(Some(s@)),
                    None => index_source(*self, container.nodes@) == Some(None::<Seq<char>>),
                })
                &&& l.is_root == self.is_root
                &&& l.is_static == self.is_static
                &&& l.varname == self.varname
                &&& forall|i: int|
                    0 <= i < l.single_thorns@.len() ==> {
                        let ids = found_on(
                            container.single_thorn@,
                            (#[trigger] l.single_thorns@[i]).0@,
                            ancestors(self.pathname@),
                        );
                        &&& ids.len() > 0
                        &&& l.single_thorns@[i].1@.map_values(|s: String| s@) == inputs_of(
                            ids,
                            container.nodes@,
                        )
                    }
                &&& forall|a: int, b: int|
                    0 <= a < b < l.single_thorns@.len() ==> (#[trigger] l.single_thorns@[a]).0@
                        != (#[trigger] l.single_thorns@[b]).0@
                &&& forall|n: Seq<char>|
                    found_on(container.single_thorn@, n, ancestors(self.pathname@)).len() > 0
                        ==> exists|i: int|
                        0 <= i < l.single_thorns@.len() && (#[trigger] l.single_thorns@[i]).0@ == n
            },
    {
        let index = match &self.input_path {
            Some(p) => Some(p.clone()),
            None => match self.index {
                None => None,
                Some(i) => match container.nodes.get(i) {
                    Some(n) => match &n.input_path {
                        Some(p) => Some(p.clone()),
                        None => return Err(DenskyError::Fatal),
                    },
                    None => return Err(DenskyError::Fatal),
                },
            },
        };
        let groups = container.single_thorn.get_all_of(&self.pathname);
        let mut single_thorns: Vec<(String, Vec<String>)> = Vec::new();
        let mut g: usize = 0;
        while g < groups.len()
            invariant
                container.wf(),
                g <= groups@.len(),
                single_thorns@.len() == g,
                forall|i: int|
                    0 <= i < groups@.len() ==> (#[trigger] groups@[i]).1@ == found_on(
                        container.single_thorn@,
                        groups@[i].0@,
                        ancestors(self.pathname@),
                    ) && groups@[i].1@.len() > 0,
                forall|i: int|
                    0 <= i < g ==> (#[trigger] single_thorns@[i]).0 == groups@[i].0
                        && single_thorns@[i].1@.map_values(|s: String| s@) == inputs_of(
                        groups@[i].1@,
                        container.nodes@,
                    ),
                forall|i: int| 0 <= i < g ==> all_have_input(#[trigger] groups@[i].1@, container.nodes@),
            decreases groups@.len() - g,
        {
            match input_paths(&groups[g].1, container) {
                Some(paths) => {
                    single_thorns.push((groups[g].0.clone(), paths));
                },
                None => {
                    proof {
                        let n = groups@[g as int].0@;
                        assert(!all_have_input(
                            found_on(container.single_thorn@, n, ancestors(self.pathname@)),
                            container.nodes@,
                        ));
                    }
                    return Err(DenskyError::Fatal);
                },
            }
            g = g + 1;
        }
        proof {
            assert forall|n: Seq<char>| all_have_input(
                #[trigger] found_on(container.single_thorn@, n, ancestors(self.pathname@)),
                container.nodes@,
            ) by {
                let ids = found_on(container.single_thorn@, n, ancestors(self.pathname@));
                if ids.len() > 0 {
                    let i = choose|i: int| 0 <= i < groups@.len() && (#[trigger] groups@[i]).0@ == n;
                    assert(all_have_input(groups@[i].1@, container.nodes@));
                } else {
                    assert(all_have_input(ids, container.nodes@));
                }
            }
        }
        proof {
            assert forall|i: int| 0 <= i < single_thorns@.len() implies {
                let ids = found_on(
                    container.single_thorn@,
                    (#[trigger] single_thorns@[i]).0@,
                    ancestors(self.pathname@),
                );
                &&& ids.len() > 0
                &&& single_thorns@[i].1@.map_values(|s: String| s@) == inputs_of(ids, container.nodes@)
            } by {
                assert(groups@[i].1@ == found_on(container.single_thorn@, groups@[i].0@, ancestors(self.pathname@)));
            }
            assert forall|a: int, b: int| 0 <= a < b < single_thorns@.len() implies (
            #[trigger] single_thorns@[a]).0@ != (#[trigger] single_thorns@[b]).0@ by {
                assert(groups@[a].0@ != groups@[b].0@);
            }
            assert forall|n: Seq<char>| found_on(container.single_thorn@, n, ancestors(self.pathname@)).len() > 0
                implies exists|i: int| 0 <= i < single_thorns@.len() && (#[trigger] single_thorns@[i]).0@ == n by {
                let i = choose|i: int| 0 <= i < groups@.len() && (#[trigger] groups@[i]).0@ == n;
                assert(single_thorns@[i].0@ == n);
            }
        }
        let slash = "/";
        proof {
            reveal_strlit("/");
        }
        assert(slash@ =~= seq!['/']);
        Ok(OptimizedTreeLeaf {
            pathname: String::from_str(slash).concat(self.pathname.as_str()),
            relative_pathname: self.relative_pathname.clone(),
            index,
            single_thorns,
            is_root: self.is_root,
            is_static: self.is_static,
            varname: self.varname.clone(),
        })
    }
}

/// The children of a node in generation order: static children by key, dynamic
/// children by key, then the variable child.
pub open spec fn kids(n: OptimizedTreeNode) -> Seq<u64> {
    n.static_children.sorted_view().map_values(|e: (Seq<char>, u64)| e.1)
        + n.dynamic_children.sorted_view().map_values(|e: (Seq<char>, u64)| e.1) + match n.dynamic {
        Some(d) => seq![d.0],
        None => Seq::<u64>::empty(),
    }
}

/// The nodes below `id` and then `id`, children before parents, going at most `fuel`
/// levels deep; `None` when a node is missing or the tree is deeper than that.
pub open spec fn order_of(nodes: Map<u64, OptimizedTreeNode>, id: u64, fuel: nat) -> Option<Seq<u64>>
    decreases fuel, 0nat,
{
    if fuel == 0 || !nodes.contains_key(id) {
        None
    } else {
        match order_list(nodes, kids(nodes[id]), (fuel - 1) as nat) {
            Some(s) => Some(s.push(id)),
            None => None,
        }
    }
}

/// [`order_of`] of each of `ids`, one after the other.
pub open spec fn order_list(nodes: Map<u64, OptimizedTreeNode>, ids: Seq<u64>, fuel: nat) -> Option<
    Seq<u64>,
>
    decreases fuel, ids.len() + 1,
{
    if ids.len() == 0 {
        Some(Seq::empty())
    } else {
        match order_list(nodes, ids.drop_last(), fuel) {
            Some(a) => match order_of(nodes, ids.last(), fuel) {
                Some(b) => Some(a + b),
                None => None,
            },
            None => None,
        }
    }
}

fn kids_vec(n: &OptimizedTreeNode) -> (r: Vec<u64>)
    requires
        n.wf(),
    ensures
        r@ == kids(*n),
{
    let mut r: Vec<u64> = Vec::new();
    proof {
        n.static_children.lemma_sorted_view();
        n.dynamic_children.lemma_sorted_view();
    }
    let ghost sa = n.static_children.sorted_view().map_values(|e: (Seq<char>, u64)| e.1);
    let ghost da = n.dynamic_children.sorted_view().map_values(|e: (Seq<char>, u64)| e.1);
    let ns = n.static_children.len();
    let mut i: usize = 0;
    while i < ns
        invariant
            n.wf(),
            ns == sa.len(),
            sa == n.static_children.sorted_view().map_values(|e: (Seq<char>, u64)| e.1),
            i <= ns,
            r@ == sa.take(i as int),
        decreases ns - i,
    {
        let (_, id) = n.static_children.entry(i);
        r.push(id);
        i = i + 1;
        assert(r@ =~= sa.take(i as int));
    }
    assert(sa.take(ns as int) =~= sa);
    let nd = n.dynamic_children.len();
    let mut j: usize = 0;
    while j < nd
        invariant
            n.wf(),
            nd == da.len(),
            da == n.dynamic_children.sorted_view().map_values(|e: (Seq<char>, u64)| e.1),
            j <= nd,
            r@ == sa + da.take(j as int),
        decreases nd - j,
    {
        let (_, id) = n.dynamic_children.entry(j);
        r.push(id);
        j = j + 1;
        assert(r@ =~= sa + da.take(j as int));
    }
    assert(da.take(nd as int) =~= da);
    match &n.dynamic {
        Some(d) => {
            r.push(d.0);
        },
        None => {},
    }
    assert(r@ =~= kids(*n));
    r
}

/// A piece of the static children source: `"key": () => { out },`.
pub open spec fn static_piece(key: Seq<char>, out: Seq<char>) -> Seq<char> {
    seq!['"'] + key + "\": () => {"@ + out + "},"@
}

/// The generated source already held for node `id`: the first entry of `done` for it.
pub open spec fn output_of(done: Seq<(u64, Seq<char>)>, id: u64) -> Option<Seq<char>>
    decreases done.len(),
{
    if done.len() == 0 {
        None
    } else if done[0].0 == id {
        Some(done[0].1)
    } else {
        output_of(done.skip(1), id)
    }
}

/// The static children source of entries `sv`, or `None` when an output is missing.
pub open spec fn static_src(sv: Seq<(Seq<char>, u64)>, done: Seq<(u64, Seq<char>)>) -> Option<Seq<char>>
    decreases sv.len(),
{
    if sv.len() == 0 {
        Some(Seq::empty())
    } else {
        match (static_src(sv.drop_last(), done), output_of(done, sv.last().1)) {
            (Some(a), Some(o)) => Some(a + static_piece(sv.last().0, o)),
            _ => None,
        }
    }
}

/// The outputs of entries `sv` one after the other, or `None` when one is missing.
pub open spec fn joined_src(sv: Seq<(Seq<char>, u64)>, done: Seq<(u64, Seq<char>)>) -> Option<Seq<char>>
    decreases sv.len(),
{
    if sv.len() == 0 {
        Some(Seq::empty())
    } else {
        match (joined_src(sv.drop_last(), done), output_of(done, sv.last().1)) {
            (Some(a), Some(o)) => Some(a + o),
            _ => None,
        }
    }
}

/// The output of the variable child, empty when there is none.
pub open spec fn variable_src(n: OptimizedTreeNode, done: Seq<(u64, Seq<char>)>) -> Option<Seq<char>> {
    match n.dynamic {
        Some(d) => output_of(done, d.0),
        None => Some(Seq::empty()),
    }
}

/// The view of a list of generated outputs.
pub open spec fn done_view(done: Seq<(u64, String)>) -> Seq<(u64, Seq<char>)> {
    done.map_values(|e: (u64, String)| (e.0, e.1@))
}

fn find_output(done: &Vec<(u64, String)>, id: u64) -> (r: Option<&String>)
    ensures
        r matches Some(s) ==> output_of(done_view(done@), id) == Some(s@),
        r is None ==> output_of(done_view(done@), id) is None,
{
    let ghost dv = done_view(done@);
    let mut i: usize = 0;
    assert(dv.skip(0) =~= dv);
    while i < done.len()
        invariant
            dv == done_view(done@),
            i <= done@.len(),
            output_of(dv, id) == output_of(dv.skip(i as int), id),
        decreases done@.len() - i,
    {
        assert(dv.skip(i as int).skip(1) =~= dv.skip(i + 1));
        if done[i].0 == id {
            return Some(&done[i].1);
        }
        i = i + 1;
    }
    None
}

impl OptimizedTreeContainer {
    /// The nodes of the tree below `id`, and `id` last, children before parents, each
    /// node's children in key order (static, then dynamic, then the variable child).
    /// `None` when a node is missing or the tree is deeper than `depth`.
    pub fn generation_order(&self, id: u64, depth: u64) -> (r: Option<Vec<u64>>)
        requires
            self.wf(),
        ensures
            r matches Some(v) ==> order_of(self.nodes@, id, depth as nat) == Some(v@),
            r is None ==> order_of(self.nodes@, id, depth as nat) is None,
    {
        let mut out: Vec<u64> = Vec::new();
        if self.order_node(id, depth, &mut out) {
            assert(out@ =~= Seq::<u64>::empty() + order_of(self.nodes@, id, depth as nat).unwrap());
            Some(out)
        } else {
            None
        }
    }

    fn order_node(&self, id: u64, fuel: u64, out: &mut Vec<u64>) -> (ok: bool)
        requires
            self.wf(),
        ensures
            ok == order_of(self.nodes@, id, fuel as nat) is Some,
            ok ==> final(out)@ == old(out)@ + order_of(self.nodes@, id, fuel as nat).unwrap(),
        decreases fuel,
    {
        if fuel == 0 {
            return false;
        }
        let node = match self.nodes.get(id) {
            Some(n) => n,
            None => return false,
        };
        let ks = kids_vec(node);
        let ghost start = out@;
        let ghost f = (fuel - 1) as nat;
        let mut i: usize = 0;
        assert(ks@.take(0) =~= Seq::<u64>::empty());
        while i < ks.len()
            invariant
                self.wf(),
                0 < fuel,
                f == fuel - 1,
                self.nodes@.contains_key(id),
                ks@ == kids(self.nodes@[id]),
                i <= ks@.len(),
                order_list(self.nodes@, ks@.take(i as int), f) is Some,
                out@ == start + order_list(self.nodes@, ks@.take(i as int), f).unwrap(),
            decreases ks@.len() - i,
        {
            let ghost before = out@;
            let ok = self.order_node(ks[i], fuel - 1, out);
            proof {
                let t = ks@.take(i + 1);
                assert(t.drop_last() =~= ks@.take(i as int));
                assert(t.last() == ks@[i as int]);
            }
            if !ok {
                assert(order_list(self.nodes@, ks@.take(i + 1), f) is None);
                assert(order_list(self.nodes@, ks@, f) is None) by {
                    lemma_order_list_prefix(self.nodes@, ks@, f, i + 1);
                }
                assert(kids(self.nodes@[id]) == ks@);
                assert(order_list(self.nodes@, kids(self.nodes@[id]), f) is None);
                assert(order_of(self.nodes@, id, fuel as nat) is None);
                return false;
            }
            i = i + 1;
            assert(out@ =~= start + order_list(self.nodes@, ks@.take(i as int), f).unwrap());
        }
        assert(ks@.take(ks@.len() as int) =~= ks@);
        out.push(id);
        assert(out@ =~= old(out)@ + order_of(self.nodes@, id, fuel as nat).unwrap());
        true
    }

    /// Before generation, tells the variable child of `id` the name of its variable.
    pub fn bind_varname(&mut self, id: u64)
        requires
            old(self).wf(),
        ensures
            final(self).wf(),
            final(self).root == old(self).root,
            final(self).output_dir == old(self).output_dir,
            final(self).single_thorn == old(self).single_thorn,
            final(self).nodes.next_id() == old(self).nodes.next_id(),
            final(self).nodes@.dom() == old(self).nodes@.dom(),
            ({
                let o = old(self).nodes@;
                let target = if o.contains_key(id) && o[id].dynamic is Some {
                    Some(o[id].dynamic.unwrap())
                } else {
                    None
                };
                match target {
                    Some(d) => (o.contains_key(d.0) ==> final(self).nodes@[d.0].varname == Some(d.1)
                        && crate::insert::renamed(o[d.0], final(self).nodes@[d.0].with_varname(o[d.0].varname), o[d.0].relative_pathname@))
                        && forall|k: u64| #[trigger] o.contains_key(k) && k != d.0 ==> final(self).nodes@[k] == o[k],
                    None => final(self).nodes@ == o,
                }
            }),
    {
        let target = match self.nodes.get(id) {
            Some(n) => match &n.dynamic {
                Some(d) => Some((d.0, d.1.clone())),
                None => None,
            },
            None => None,
        };
        match target {
            Some(d) => {
                let ghost o = self.nodes@;
                match self.nodes.take(d.0) {
                    Some(mut c) => {
                        c.varname = Some(d.1);
                        self.nodes.put(c);
                    },
                    None => {
                        assert(self.nodes@ =~= o);
                    },
                }
            },
            None => {},
        }
    }

    /// The sources that go with node `id` to the plugin: its static children as
    /// `"key": () => { out },` pieces; its children's outputs, static children first
    /// and then dynamic ones; and its variable child's output; each kind in key order, from the outputs in `done`. `Fatal` when
    /// the node or an output is missing.
    pub fn node_sources(&self, id: u64, done: &Vec<(u64, String)>) -> (r: Result<
        (String, String, String),
        DenskyError,
    >)
        requires
            self.wf(),
        ensures
            r is Ok <==> self.nodes@.contains_key(id) && static_src(
                self.nodes@[id].static_children.sorted_view(),
                done_view(done@),
            ) is Some && children_joined(self.nodes@[id], done_view(done@)) is Some && variable_src(
                self.nodes@[id],
                done_view(done@),
            ) is Some,
            r matches Ok(t) ==> {
                &&& Some(t.0@) == static_src(self.nodes@[id].static_children.sorted_view(), done_view(done@))
                &&& Some(t.1@) == children_joined(self.nodes@[id], done_view(done@))
                &&& Some(t.2@) == variable_src(self.nodes@[id], done_view(done@))
            },
    {
        let node = match self.nodes.get(id) {
            Some(n) => n,
            None => return Err(DenskyError::Fatal),
        };
        let ghost dv = done_view(done@);
        proof {
            node.static_children.lemma_sorted_view();
            node.dynamic_children.lemma_sorted_view();
        }
        let ghost sv = node.static_children.sorted_view();
        let ns = node.static_children.len();
        let mut st = String::new();
        let q = "\"";
        let mid = "\": () => {";
        let end = "},";
        proof {
            reveal_strlit("\"");
            reveal_strlit("\": () => {");
            reveal_strlit("},");
        }
        assert(q@ =~= seq!['"']);
        let mut i: usize = 0;
        assert(sv.take(0) =~= Seq::<(Seq<char>, u64)>::empty());
        while i < ns
            invariant
                node.wf(),
                self.nodes@.contains_key(id),
                *node == self.nodes@[id],
                sv == node.static_children.sorted_view(),
                ns == sv.len(),
                dv == done_view(done@),
                q@ == seq!['"'],
                mid@ == "\": () => {"@,
                end@ == "},"@,
                i <= ns,
                static_src(sv.take(i as int), dv) == Some(st@),
            decreases ns - i,
        {
            let (k, cid) = node.static_children.entry(i);
            proof {
                let t = sv.take(i + 1);
                assert(t.drop_last() =~= sv.take(i as int));
            }
            match find_output(done, cid) {
                Some(o) => {
                    st = st.concat(q).concat(k.as_str()).concat(mid).concat(o.as_str()).concat(end);
                    assert(st@ =~= static_src(sv.take(i + 1), dv).unwrap());
                },
                None => {
                    assert(static_src(sv.take(i + 1), dv) is None);
                    assert(static_src(sv, dv) is None) by {
                        lemma_static_src_prefix(sv, dv, i + 1);
                    }
                    assert(static_src(self.nodes@[id].static_children.sorted_view(), done_view(done@)) is None);
                    return Err(DenskyError::Fatal);
                },
            }
            i = i + 1;
        }
        assert(sv.take(ns as int) =~= sv);
        let ch = match (join_outputs(&node.static_children, done), join_outputs(&node.dynamic_children, done)) {
            (Some(x), Some(y)) => x.concat(y.as_str()),
            _ => return Err(DenskyError::Fatal),
        };
        let var = match &node.dynamic {
            Some(d) => match find_output(done, d.0) {
                Some(o) => o.clone(),
                None => return Err(DenskyError::Fatal),
            },
            None => String::new(),
        };
        Ok((st, ch, var))
    }
}

proof fn lemma_order_list_prefix(nodes: Map<u64, OptimizedTreeNode>, ids: Seq<u64>, f: nat, i: int)
    requires
        0 < i <= ids.len(),
        order_list(nodes, ids.take(i), f) is None,
    ensures
        order_list(nodes, ids, f) is None,
    decreases ids.len() - i,
{
    if i < ids.len() {
        let t = ids.take(i + 1);
        assert(t.drop_last() =~= ids.take(i));
        lemma_order_list_prefix(nodes, ids, f, i + 1);
    } else {
        assert(ids.take(i) =~= ids);
    }
}

proof fn lemma_static_src_prefix(sv: Seq<(Seq<char>, u64)>, done: Seq<(u64, Seq<char>)>, i: int)
    requires
        0 < i <= sv.len(),
        static_src(sv.take(i), done) is None,
    ensures
        static_src(sv, done) is None,
    decreases sv.len() - i,
{
    if i < sv.len() {
        let t = sv.take(i + 1);
        assert(t.drop_last() =~= sv.take(i));
        lemma_static_src_prefix(sv, done, i + 1);
    } else {
        assert(sv.take(i) =~= sv);
    }
}

proof fn lemma_joined_src_prefix(sv: Seq<(Seq<char>, u64)>, done: Seq<(u64, Seq<char>)>, i: int)
    requires
        0 < i <= sv.len(),
        joined_src(sv.take(i), done) is None,
    ensures
        joined_src(sv, done) is None,
    decreases sv.len() - i,
{
    if i < sv.len() {
        let t = sv.take(i + 1);
        assert(t.drop_last() =~= sv.take(i));
        lemma_joined_src_prefix(sv, done, i + 1);
    } else {
        assert(sv.take(i) =~= sv);
    }
}

/// Generation sees only what a node holds: two nodes with the same children, by key,
/// and the same variable child get the same child sources and the same generation
/// order, however their children were inserted.
pub proof fn lemma_sources_determined(
    n1: OptimizedTreeNode,
    n2: OptimizedTreeNode,
    done: Seq<(u64, Seq<char>)>,
)
    requires
        n1.wf(),
        n2.wf(),
        n1.static_children@ == n2.static_children@,
        n1.dynamic_children@ == n2.dynamic_children@,
        n1.dynamic == n2.dynamic,
    ensures
        static_src(n1.static_children.sorted_view(), done) == static_src(
            n2.static_children.sorted_view(),
            done,
        ),
        children_joined(n1, done) == children_joined(n2, done),
        variable_src(n1, done) == variable_src(n2, done),
        kids(n1) == kids(n2),
{
    n1.static_children.lemma_walk_determined(&n2.static_children);
    n1.dynamic_children.lemma_walk_determined(&n2.dynamic_children);
}


/// The children source: the outputs of the static children, then of the dynamic
/// children, each in key order.
pub open spec fn children_joined(n: OptimizedTreeNode, done: Seq<(u64, Seq<char>)>) -> Option<Seq<char>> {
    match (joined_src(n.static_children.sorted_view(), done), joined_src(n.dynamic_children.sorted_view(), done)) {
        (Some(a), Some(b)) => Some(a + b),
        _ => None,
    }
}

fn join_outputs(m: &ChildMap, done: &Vec<(u64, String)>) -> (r: Option<String>)
    requires
        m.wf(),
    ensures
        r matches Some(s) ==> joined_src(m.sorted_view(), done_view(done@)) == Some(s@),
        r is None ==> joined_src(m.sorted_view(), done_view(done@)) is None,
{
    proof {
        m.lemma_sorted_view();
    }
    let ghost dv = done_view(done@);
    let ghost dvs = m.sorted_view();
    let nd = m.len();
    let mut ch = String::new();
    let mut j: usize = 0;
    assert(dvs.take(0) =~= Seq::<(Seq<char>, u64)>::empty());
    while j < nd
        invariant
            m.wf(),
            dvs == m.sorted_view(),
            nd == dvs.len(),
            dv == done_view(done@),
            j <= nd,
            joined_src(dvs.take(j as int), dv) == Some(ch@),
        decreases nd - j,
    {
        let (_, cid) = m.entry(j);
        proof {
            let t = dvs.take(j + 1);
            assert(t.drop_last() =~= dvs.take(j as int));
        }
        match find_output(done, cid) {
            Some(o) => {
                ch = ch.concat(o.as_str());
            },
            None => {
                assert(joined_src(dvs.take(j + 1), dv) is None);
                proof {
                    lemma_joined_src_prefix(dvs, dv, j + 1);
                }
                return None;
            },
        }
        j = j + 1;
    }
    assert(dvs.take(nd as int) =~= dvs);
    Some(ch)
}

} // verus!
