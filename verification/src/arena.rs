//! A region-based arena of tree nodes. Nodes are addressed by their position
//! in the arena; parent and child links are positions too.

use vstd::prelude::*;

verus! {

/// The position of a node in a [`ParseArena`].
#[derive(Debug, Clone, Copy)]
pub struct NodeId {
    index: usize,
}

impl View for NodeId {
    type V = nat;

    closed spec fn view(&self) -> nat {
        self.index as nat
    }
}

impl NodeId {
    pub fn new(index: usize) -> (id: NodeId)
        ensures
            id@ == index,
    {
        NodeId { index }
    }

    /// The position this id stands for.
    pub fn index(&self) -> (i: usize)
        ensures
            i == self@,
    {
        self.index
    }
}

/// One node of the arena: its optional parent, its children in the order
/// they were attached, and the value it carries.
#[derive(Debug)]
pub struct Node<T> {
    pub parent: Option<NodeId>,
    pub children: Vec<NodeId>,
    pub data: T,
}

/// The mathematical picture of a [`Node`]: links as positions.
pub struct NodeView<V> {
    pub parent: Option<nat>,
    pub children: Seq<nat>,
    pub data: V,
}

pub open spec fn id_view(id: NodeId) -> nat {
    id@
}

pub open spec fn opt_id_view(id: Option<NodeId>) -> Option<nat> {
    match id {
        Some(i) => Some(i@),
        None => None,
    }
}

impl<T: View> View for Node<T> {
    type V = NodeView<T::V>;

    open spec fn view(&self) -> NodeView<T::V> {
        NodeView {
            parent: opt_id_view(self.parent),
            children: self.children@.map_values(|c: NodeId| c@),
            data: self.data@,
        }
    }
}

/// Parse arena using region based memory: all nodes live in one vector.
#[derive(Debug)]
pub struct ParseArena<T> {
    nodes: Vec<Node<T>>,
}

impl<T: View> View for ParseArena<T> {
    type V = Seq<NodeView<T::V>>;

    closed spec fn view(&self) -> Seq<NodeView<T::V>> {
        self.nodes@.map_values(|n: Node<T>| n@)
    }
}

/// The arena `s` after `child` was made a child of `parent`: `child` is
/// appended to the children of `parent`, and `parent` becomes the parent of
/// `child`.
pub open spec fn spec_make_parent<V>(s: Seq<NodeView<V>>, parent: nat, child: nat) -> Seq<
    NodeView<V>,
> {
    let p = s[parent as int];
    let s1 = s.update(
        parent as int,
        NodeView { parent: p.parent, children: p.children.push(child), data: p.data },
    );
    let c = s1[child as int];
    s1.update(child as int, NodeView { parent: Some(parent), children: c.children, data: c.data })
}

/// `ids` without `x`, the others in order.
pub open spec fn without_id(ids: Seq<nat>, x: nat) -> Seq<nat>
    decreases ids.len(),
{
    if ids.len() == 0 {
        Seq::empty()
    } else {
        let r = without_id(ids.drop_last(), x);
        if ids.last() == x {
            r
        } else {
            r.push(ids.last())
        }
    }
}

/// Every id left by [`without_id`] was in `ids` and is not `x`.
pub proof fn lemma_without_id(ids: Seq<nat>, x: nat)
    ensures
        forall|k: int| 0 <= k < without_id(ids, x).len() ==> {
            &&& #[trigger] without_id(ids, x)[k] != x
            &&& ids.contains(without_id(ids, x)[k])
        },
    decreases ids.len(),
{
    if ids.len() > 0 {
        let d = ids.drop_last();
        lemma_without_id(d, x);
        let r = without_id(d, x);
        assert forall|k: int| 0 <= k < without_id(ids, x).len() implies {
            &&& #[trigger] without_id(ids, x)[k] != x
            &&& ids.contains(without_id(ids, x)[k])
        } by {
            if k < r.len() {
                assert(without_id(ids, x)[k] == r[k]);
                let w = choose|w: int| 0 <= w < d.len() && d[w] == r[k];
                assert(ids[w] == d[w]);
            } else {
                assert(ids[ids.len() - 1] == ids.last());
            }
        }
    }
}

/// `v` without its links to `x`.
pub open spec fn unlink_node<V>(v: NodeView<V>, x: nat) -> NodeView<V> {
    NodeView {
        parent: if v.parent == Some(x) {
            None
        } else {
            v.parent
        },
        children: without_id(v.children, x),
        data: v.data,
    }
}

/// The arena `a` with every link to node `x` taken out.
pub open spec fn unlink<V>(a: Seq<NodeView<V>>, x: nat) -> Seq<NodeView<V>> {
    a.map_values(|v: NodeView<V>| unlink_node(v, x))
}

/// A fresh node with no links that carries `data`.
pub open spec fn fresh_node<V>(data: V) -> NodeView<V> {
    NodeView { parent: None, children: Seq::empty(), data }
}

/// `v` with every id it holds moved up by `n`.
pub open spec fn shift_node<V>(v: NodeView<V>, n: nat) -> NodeView<V> {
    NodeView {
        parent: match v.parent {
            Some(p) => Some(p + n),
            None => None,
        },
        children: v.children.map_values(|c: nat| c + n),
        data: v.data,
    }
}

/// The nodes `a` with every id they hold moved up by `n`: the same tree,
/// placed `n` positions further on.
pub open spec fn shift<V>(a: Seq<NodeView<V>>, n: nat) -> Seq<NodeView<V>> {
    a.map_values(|v: NodeView<V>| shift_node(v, n))
}

/// Every id held in `a`, moved up by `n`, is still a `usize`.
pub open spec fn ids_fit<V>(a: Seq<NodeView<V>>, n: nat) -> bool {
    forall|i: int|
        0 <= i < a.len() ==> {
            &&& (#[trigger] a[i]).parent matches Some(p) ==> p + n <= usize::MAX
            &&& forall|k: int| 0 <= k < a[i].children.len() ==> #[trigger] a[i].children[k] + n <= usize::MAX
        }
}

/// `node` with every id it holds moved up by `n`.
fn shift_ids<T: View>(node: Node<T>, n: usize) -> (r: Node<T>)
    requires
        node@.parent matches Some(p) ==> p + n <= usize::MAX,
        forall|k: int| 0 <= k < node@.children.len() ==> #[trigger] node@.children[k] + n <= usize::MAX,
    ensures
        r@ == shift_node(node@, n as nat),
{
    let ghost nv = node@;
    let Node { parent, children, data } = node;
    proof {
        assert forall|t: int| 0 <= t < children@.len() implies #[trigger] children@[t]@ + n <= usize::MAX by {
            assert(nv.children[t] == children@[t]@);
        }
    }
    let parent = match parent {
        Some(p) => Some(NodeId::new(p.index + n)),
        None => None,
    };
    let mut shifted: Vec<NodeId> = Vec::new();
    let mut k: usize = 0;
    while k < children.len()
        invariant
            k <= children@.len(),
            forall|t: int| 0 <= t < children@.len() ==> #[trigger] children@[t]@ + n <= usize::MAX,
            shifted@.map_values(|c: NodeId| c@) == children@.subrange(0, k as int).map_values(
                |c: NodeId| (c@ + n) as nat,
            ),
        decreases children@.len() - k,
    {
        let ghost before = shifted@.map_values(|c: NodeId| c@);
        assert(children@[k as int]@ + n <= usize::MAX);
        let c = NodeId::new(children[k].index + n);
        shifted.push(c);
        proof {
            assert(shifted@.map_values(|c: NodeId| c@) =~= before.push(c@));
            assert(children@.subrange(0, k + 1).map_values(|c: NodeId| (c@ + n) as nat) =~= children@.subrange(
                0,
                k as int,
            ).map_values(|c: NodeId| (c@ + n) as nat).push((children@[k as int]@ + n) as nat));
        }
        k = k + 1;
    }
    proof {
        assert(children@.subrange(0, k as int) =~= children@);
        assert(shifted@.map_values(|c: NodeId| c@) =~= children@.map_values(|c: NodeId| c@).map_values(
            |c: nat| (c + n) as nat,
        ));
    }
    Node { parent, children: shifted, data }
}

impl<T: View> ParseArena<T> {
    pub fn new() -> (arena: ParseArena<T>)
        ensures
            arena@ == Seq::<NodeView<T::V>>::empty(),
    {
        let arena = ParseArena { nodes: Vec::new() };
        assert(arena@ =~= Seq::<NodeView<T::V>>::empty());
        arena
    }

    /// The number of nodes in the arena.
    pub fn count(&self) -> (n: usize)
        ensures
            n == self@.len(),
    {
        self.nodes.len()
    }

    /// The id of the node added last, if any.
    pub fn last(&self) -> (id: Option<NodeId>)
        ensures
            id is None <==> self@.len() == 0,
            id matches Some(i) ==> i@ == self@.len() - 1,
    {
        let length = self.nodes.len();
        if length == 0 {
            return None;
        }
        Some(NodeId::new(length - 1))
    }

    /// Append another parse arena to the current one. The appended nodes
    /// keep their tree: every id they hold is moved up by the number of
    /// nodes that were here. Returns the ids of the first appended node and
    /// of the new last node.
    pub fn append(&mut self, arena: ParseArena<T>) -> (ids: (NodeId, NodeId))
        requires
            old(self)@.len() + arena@.len() > 0,
            old(self)@.len() + arena@.len() <= usize::MAX,
            ids_fit(arena@, old(self)@.len()),
        ensures
            final(self)@ == old(self)@ + shift(arena@, old(self)@.len()),
            ids.0@ == old(self)@.len(),
            ids.1@ == final(self)@.len() - 1,
    {
        let n = self.nodes.len();
        let mut other = arena.nodes;
        let m = other.len();
        let ghost av = arena@;
        let mut j: usize = 0;
        proof {
            assert(other@.map_values(|x: Node<T>| x@) =~= av.subrange(0, m as int));
            assert(self@ =~= old(self)@ + shift(av.subrange(0, 0), n as nat));
        }
        while j < m
            invariant
                j <= m,
                m == av.len(),
                n == old(self)@.len(),
                n + m <= usize::MAX,
                ids_fit(av, n as nat),
                other@.len() == m - j,
                other@.map_values(|x: Node<T>| x@) == av.subrange(j as int, m as int),
                self@ == old(self)@ + shift(av.subrange(0, j as int), n as nat),
            decreases m - j,
        {
            let ghost before = self@;
            let ghost rest = other@;
            let node = other.remove(0);
            proof {
                assert(rest.map_values(|x: Node<T>| x@)[0] == av.subrange(j as int, m as int)[0]);
                assert(node@ == av[j as int]);
                assert forall|t: int| 0 <= t < other@.len() implies #[trigger] other@[t]@ == av[j + 1 + t] by {
                    assert(other@[t] == rest[t + 1]);
                    assert(rest.map_values(|x: Node<T>| x@)[t + 1] == av.subrange(j as int, m as int)[t + 1]);
                }
                assert(other@.map_values(|x: Node<T>| x@) =~= av.subrange(j + 1, m as int));
            }
            let shifted = shift_ids(node, n);
            self.nodes.push(shifted);
            proof {
                assert(self@ =~= before.push(shift_node(av[j as int], n as nat)));
                assert(shift(av.subrange(0, j + 1), n as nat) =~= shift(av.subrange(0, j as int), n as nat).push(
                    shift_node(av[j as int], n as nat),
                ));
            }
            j = j + 1;
        }
        proof {
            assert(av.subrange(0, m as int) =~= av);
        }
        let end = self.nodes.len() - 1;
        (NodeId::new(n), NodeId::new(end))
    }

    /// Whether every id held in the arena, moved up by `n`, is still a
    /// `usize`: what appending this arena to one of `n` nodes needs.
    pub fn ids_fit_after(&self, n: usize) -> (b: bool)
        ensures
            b == ids_fit(self@, n as nat),
    {
        let mut i: usize = 0;
        while i < self.nodes.len()
            invariant
                i <= self@.len(),
                ids_fit(self@.subrange(0, i as int), n as nat),
            decreases self@.len() - i,
        {
            let node = &self.nodes[i];
            let ghost nv = self@[i as int];
            assert(node@ == nv);
            match node.parent {
                Some(p) => {
                    if p.index > usize::MAX - n {
                        proof {
                            assert(!ids_fit(self@, n as nat)) by {
                                assert(self@[i as int].parent == Some(p@));
                            }
                        }
                        return false;
                    }
                },
                None => {},
            }
            let mut k: usize = 0;
            while k < node.children.len()
                invariant
                    k <= nv.children.len(),
                    node@ == nv,
                    nv == self@[i as int],
                    i < self@.len(),
                    forall|t: int| 0 <= t < k ==> #[trigger] nv.children[t] + n <= usize::MAX,
                decreases nv.children.len() - k,
            {
                assert(nv.children[k as int] == node.children@[k as int]@);
                if node.children[k].index > usize::MAX - n {
                    proof {
                        assert(!ids_fit(self@, n as nat)) by {
                            assert(self@[i as int].children[k as int] + n > usize::MAX);
                        }
                    }
                    return false;
                }
                k = k + 1;
            }
            proof {
                let a = self@.subrange(0, i + 1);
                assert forall|t: int| 0 <= t < a.len() implies {
                    &&& (#[trigger] a[t]).parent matches Some(p) ==> p + n <= usize::MAX
                    &&& forall|q: int| 0 <= q < a[t].children.len() ==> #[trigger] a[t].children[q] + n <= usize::MAX
                } by {
                    if t < i {
                        assert(a[t] == self@.subrange(0, i as int)[t]);
                    }
                }
            }
            i = i + 1;
        }
        proof {
            assert(self@.subrange(0, i as int) =~= self@);
        }
        true
    }

    /// Take every link to the node `id` out of the arena: it leaves the
    /// children of every node, and no node keeps it as its parent.
    pub fn unlink(&mut self, id: &NodeId)
        ensures
            final(self)@ == unlink(old(self)@, id@),
    {
        let x = id.index;
        let n = self.nodes.len();
        let mut i: usize = 0;
        while i < n
            invariant
                n == self@.len(),
                n == old(self)@.len(),
                x == id@,
                i <= n,
                forall|t: int| 0 <= t < i ==> #[trigger] self@[t] == unlink_node(old(self)@[t], x as nat),
                forall|t: int| i <= t < n ==> #[trigger] self@[t] == old(self)@[t],
            decreases n - i,
        {
            let ghost before = self@;
            let ghost kids = self@[i as int].children;
            let mut kept: Vec<NodeId> = Vec::new();
            let mut k: usize = 0;
            let m = self.nodes[i].children.len();
            while k < m
                invariant
                    self@ == before,
                    i < n,
                    n == self@.len(),
                    kids == self@[i as int].children,
                    m == kids.len(),
                    k <= m,
                    kept@.map_values(|c: NodeId| c@) == without_id(kids.subrange(0, k as int), x as nat),
                decreases m - k,
            {
                let c = self.nodes[i].children[k];
                proof {
                    assert(c@ == kids[k as int]);
                    let s2 = kids.subrange(0, k + 1);
                    assert(s2.drop_last() =~= kids.subrange(0, k as int));
                    assert(s2.last() == kids[k as int]);
                }
                if c.index != x {
                    let ghost old_map = kept@.map_values(|c: NodeId| c@);
                    kept.push(c);
                    proof {
                        assert(kept@.map_values(|c: NodeId| c@) =~= old_map.push(c@));
                    }
                }
                k = k + 1;
            }
            proof {
                assert(kids.subrange(0, m as int) =~= kids);
            }
            let unlinked_parent = match self.nodes[i].parent {
                Some(p) => if p.index == x {
                    None
                } else {
                    Some(p)
                },
                None => None,
            };
            self.nodes[i].children = kept;
            self.nodes[i].parent = unlinked_parent;
            proof {
                assert(self@[i as int] == unlink_node(old(self)@[i as int], x as nat));
                assert forall|t: int| 0 <= t < n && t != i implies #[trigger] self@[t] == before[t] by {}
            }
            i = i + 1;
        }
        proof {
            assert(self@ =~= unlink(old(self)@, id@));
        }
    }

    pub fn remove_node(&mut self, id: &NodeId)
        requires
            id@ < old(self)@.len(),
        ensures
            final(self)@ == old(self)@.remove(id@ as int),
    {
        self.nodes.remove(id.index);
        proof {
            assert(self@ =~= old(self)@.remove(id@ as int));
        }
    }

    pub fn add_node(&mut self, value: T) -> (id: NodeId)
        ensures
            final(self)@ == old(self)@.push(fresh_node(value@)),
            id@ == old(self)@.len(),
    {
        let node = Node { parent: None, children: Vec::new(), data: value };
        proof {
            assert(node.children@.map_values(|c: NodeId| c@) =~= Seq::<nat>::empty());
        }
        self.nodes.push(node);
        proof {
            assert(self@ =~= old(self)@.push(fresh_node(value@)));
        }
        NodeId { index: self.nodes.len() - 1 }
    }

    pub fn get_node(&self, id: &NodeId) -> (node: &Node<T>)
        requires
            id@ < self@.len(),
        ensures
            node@ == self@[id@ as int],
    {
        &self.nodes[id.index]
    }

    pub fn get_node_mut(&mut self, id: &NodeId) -> (node: &mut Node<T>)
        requires
            id@ < old(self)@.len(),
        ensures
            node@ == old(self)@[id@ as int],
            final(self)@ == old(self)@.update(id@ as int, final(node)@),
    {
        &mut self.nodes[id.index]
    }

    /// The node that was added first: the root of the tree that was built.
    pub fn root(&self) -> (node: Option<&Node<T>>)
        ensures
            node is None <==> self@.len() == 0,
            node matches Some(n) ==> n@ == self@[0],
    {
        if self.nodes.len() == 0 {
            None
        } else {
            Some(&self.nodes[0])
        }
    }

    pub fn make_parent(&mut self, parent_id: NodeId, child_id: NodeId)
        requires
            parent_id@ < old(self)@.len(),
            child_id@ < old(self)@.len(),
        ensures
            final(self)@ == spec_make_parent(old(self)@, parent_id@, child_id@),
    {
        let p = parent_id.index;
        let c = child_id.index;
        self.nodes[p].children.push(child_id);
        proof {
            let pn = old(self).nodes@[p as int];
            assert(self.nodes@[p as int].children@.map_values(|x: NodeId| x@) =~= pn.children@.map_values(|x: NodeId| x@).push(child_id@));
        }
        self.nodes[c].parent = Some(parent_id);
        proof {
            assert(self@ =~= spec_make_parent(old(self)@, parent_id@, child_id@));
        }
    }
}

/// A node that was added is read back with the value it was added with, and
/// without links.
pub proof fn added_node_read_back<V>(a: Seq<NodeView<V>>, data: V)
    ensures
        a.push(fresh_node(data))[a.len() as int] == fresh_node(data),
        a.push(fresh_node(data)).len() == a.len() + 1,
        forall|i: int| 0 <= i < a.len() ==> #[trigger] a.push(fresh_node(data))[i] == a[i],
{
}

/// Removing the node that was added last undoes the addition.
pub proof fn remove_undoes_add<V>(a: Seq<NodeView<V>>, data: V)
    ensures
        a.push(fresh_node(data)).remove(a.len() as int) == a,
{
    assert(a.push(fresh_node(data)).remove(a.len() as int) =~= a);
}

/// Making `child` a child of a different node `parent` links the two both
/// ways, puts `child` last among the children of `parent`, and changes no
/// other node.
pub proof fn make_parent_links<V>(a: Seq<NodeView<V>>, parent: nat, child: nat)
    requires
        parent < a.len(),
        child < a.len(),
        parent != child,
    ensures
        spec_make_parent(a, parent, child).len() == a.len(),
        spec_make_parent(a, parent, child)[child as int].parent == Some(parent),
        spec_make_parent(a, parent, child)[child as int].children == a[child as int].children,
        spec_make_parent(a, parent, child)[parent as int].children == a[parent as int].children.push(
            child,
        ),
        spec_make_parent(a, parent, child)[parent as int].parent == a[parent as int].parent,
        forall|i: int|
            0 <= i < a.len() && i != parent && i != child ==> #[trigger] spec_make_parent(
                a,
                parent,
                child,
            )[i] == a[i],
{
}


/// Every link of `a` stays in the arena and runs both ways: `c` is a child
/// of `x` exactly when `x` is the parent of `c`.
pub open spec fn links_consistent<V>(a: Seq<NodeView<V>>) -> bool {
    &&& forall|i: int, k: int|
        0 <= i < a.len() && 0 <= k < a[i].children.len() ==> {
            &&& #[trigger] a[i].children[k] < a.len()
            &&& a[a[i].children[k] as int].parent == Some(i as nat)
        }
    &&& forall|c: int|
        0 <= c < a.len() ==> match (#[trigger] a[c]).parent {
            Some(p) => p < a.len() && a[p as int].children.contains(c as nat),
            None => true,
        }
}

/// Following parents from `i` reaches a node without parent within `fuel`
/// steps.
pub open spec fn rooted<V>(a: Seq<NodeView<V>>, i: nat, fuel: nat) -> bool
    decreases fuel,
{
    &&& i < a.len()
    &&& match a[i as int].parent {
        None => true,
        Some(p) => fuel > 0 && rooted(a, p, (fuel - 1) as nat),
    }
}

/// Following parents from `i` ends.
pub open spec fn has_root<V>(a: Seq<NodeView<V>>, i: nat) -> bool {
    exists|f: nat| #[trigger] rooted(a, i, f)
}

/// No chain of parents runs in a circle.
pub open spec fn acyclic<V>(a: Seq<NodeView<V>>) -> bool {
    forall|i: int| 0 <= i < a.len() ==> #[trigger] has_root(a, i as nat)
}

/// Following parents from `i` meets `t` within `fuel` steps.
pub open spec fn reaches<V>(a: Seq<NodeView<V>>, i: nat, t: nat, fuel: nat) -> bool
    decreases fuel,
{
    i == t || (i < a.len() && match a[i as int].parent {
        None => false,
        Some(p) => fuel > 0 && reaches(a, p, t, (fuel - 1) as nat),
    })
}

/// `x` is `y` or one of its ancestors.
pub open spec fn is_ancestor<V>(a: Seq<NodeView<V>>, x: nat, y: nat) -> bool {
    exists|f: nat| #[trigger] reaches(a, y, x, f)
}

proof fn lemma_rooted_more_fuel<V>(a: Seq<NodeView<V>>, i: nat, f: nat, g: nat)
    requires
        rooted(a, i, f),
        f <= g,
    ensures
        rooted(a, i, g),
    decreases f,
{
    if let Some(p) = a[i as int].parent {
        lemma_rooted_more_fuel(a, p, (f - 1) as nat, (g - 1) as nat);
    }
}

/// In `b`, which differs from `a` only in the parent of `child` (and in
/// children lists), a chain of parents from `i` that ends in `a` ends in `b`
/// too, unless it meets `child`.
proof fn lemma_rooted_unless_meets<V>(a: Seq<NodeView<V>>, b: Seq<NodeView<V>>, child: nat, i: nat, f: nat)
    requires
        rooted(a, i, f),
        b.len() == a.len(),
        forall|j: int| 0 <= j < a.len() && j != child ==> #[trigger] b[j].parent == a[j].parent,
    ensures
        rooted(b, i, f) || reaches(a, i, child, f),
    decreases f,
{
    if i != child {
        if let Some(p) = a[i as int].parent {
            lemma_rooted_unless_meets(a, b, child, p, (f - 1) as nat);
        }
    }
}

/// In `b`, where the chain from `child` ends within `g` steps, a chain of
/// `a` from `i` that meets `child` within `f` steps ends within `f + g`.
proof fn lemma_rooted_through<V>(a: Seq<NodeView<V>>, b: Seq<NodeView<V>>, child: nat, i: nat, f: nat, g: nat)
    requires
        reaches(a, i, child, f),
        rooted(b, child, g),
        b.len() == a.len(),
        child < a.len(),
        forall|j: int| 0 <= j < a.len() && j != child ==> #[trigger] b[j].parent == a[j].parent,
    ensures
        rooted(b, i, f + g),
    decreases f,
{
    if i == child {
        lemma_rooted_more_fuel(b, child, g, f + g);
    } else {
        let p = a[i as int].parent->Some_0;
        lemma_rooted_through(a, b, child, p, (f - 1) as nat, g);
        assert(b[i as int].parent == Some(p));
    }
}

/// Making a node without parent a child of a node it is no ancestor of
/// keeps a forest a forest: links stay in the arena and two-way, and no
/// chain of parents runs in a circle.
pub proof fn make_parent_keeps_forest<V>(a: Seq<NodeView<V>>, parent: nat, child: nat)
    requires
        parent < a.len(),
        child < a.len(),
        parent != child,
        a[child as int].parent is None,
        !is_ancestor(a, child, parent),
        links_consistent(a),
        acyclic(a),
    ensures
        links_consistent(spec_make_parent(a, parent, child)),
        acyclic(spec_make_parent(a, parent, child)),
{
    let b = spec_make_parent(a, parent, child);
    make_parent_links(a, parent, child);
    // No node lists `child` among its children.
    assert forall|i: int, k: int| 0 <= i < a.len() && 0 <= k < a[i].children.len() implies a[i].children[k]
        != child by {
        assert(a[a[i].children[k] as int].parent == Some(i as nat));
    }
    assert forall|i: int, k: int| 0 <= i < b.len() && 0 <= k < b[i].children.len() implies {
        &&& #[trigger] b[i].children[k] < b.len()
        &&& b[b[i].children[k] as int].parent == Some(i as nat)
    } by {
        if i == parent && k == a[i].children.len() {
            assert(b[i].children[k] == child);
        } else {
            assert(b[i].children[k] == a[i].children[k]);
            let c = a[i].children[k];
            assert(a[c as int].parent == Some(i as nat));
            assert(c != child);
        }
    }
    assert forall|c: int| 0 <= c < b.len() implies match (#[trigger] b[c]).parent {
        Some(p) => p < b.len() && b[p as int].children.contains(c as nat),
        None => true,
    } by {
        if c == child {
            assert(b[parent as int].children[a[parent as int].children.len() as int] == child);
        } else if let Some(p) = a[c].parent {
            assert(a[p as int].children.contains(c as nat));
            let w = choose|w: int| 0 <= w < a[p as int].children.len() && a[p as int].children[w] == c as nat;
            assert(b[p as int].children[w] == c as nat);
        }
    }
    // Every chain of parents still ends.
    assert(has_root(a, parent));
    let g = choose|g: nat| #[trigger] rooted(a, parent, g);
    lemma_rooted_unless_meets(a, b, child, parent, g);
    if reaches(a, parent, child, g) {
        assert(is_ancestor(a, child, parent));
    }
    assert(rooted(b, child, g + 1));
    assert forall|i: int| 0 <= i < b.len() implies #[trigger] has_root(b, i as nat) by {
        assert(has_root(a, i as nat));
        let f = choose|f: nat| #[trigger] rooted(a, i as nat, f);
        lemma_rooted_unless_meets(a, b, child, i as nat, f);
        if rooted(b, i as nat, f) {
        } else {
            lemma_rooted_through(a, b, child, i as nat, f, g + 1);
            assert(rooted(b, i as nat, f + g + 1));
        }
    }
}

} // verus!
