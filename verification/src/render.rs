//! Showing a parse arena as text: one line per node, in depth-first order,
//! each indented by one tab per level below the root.

use vstd::prelude::*;

use crate::arena::{NodeId, NodeView, ParseArena};
use crate::parse::{spec_label, NodeData, NodeDataView};

verus! {

pub type ArenaView = Seq<NodeView<NodeDataView>>;

/// An item that an arena can show: the text of each item, as a spec
/// function of its view and as a method.
pub trait Shown: View + Sized {
    spec fn shown(v: Self::V) -> Seq<char>;

    fn text(&self) -> (s: String)
        ensures
            s@ == Self::shown(self@),
    ;
}

/// The text of items of type `T`, as a function of their views.
pub open spec fn shown_by<T: Shown>() -> spec_fn(T::V) -> Seq<char> {
    |v: T::V| T::shown(v)
}

impl Shown for NodeData {
    open spec fn shown(v: NodeDataView) -> Seq<char> {
        spec_label(v)
    }

    fn text(&self) -> (s: String) {
        self.label()
    }
}

impl Shown for String {
    open spec fn shown(v: Seq<char>) -> Seq<char> {
        v
    }

    fn text(&self) -> (s: String) {
        self.clone()
    }
}

/// `n` tab characters.
pub open spec fn tabs(n: nat) -> Seq<char> {
    Seq::new(n, |i: int| '\t')
}

/// The line node `i` is shown with at depth `level`, its item shown by
/// `lab`.
pub open spec fn node_line<V>(a: Seq<NodeView<V>>, lab: spec_fn(V) -> Seq<char>, i: nat, level: nat) -> Seq<char> {
    tabs(level) + lab(a[i as int].data)
}

/// Following parents from node `i` stays in the arena and reaches a node
/// without parent within `fuel` steps.
pub open spec fn chain_ok<V>(a: Seq<NodeView<V>>, i: nat, fuel: nat) -> bool
    decreases fuel,
{
    &&& i < a.len()
    &&& match a[i as int].parent {
        None => true,
        Some(p) => fuel > 0 && chain_ok(a, p, (fuel - 1) as nat),
    }
}

/// The node without parent that following parents from `i` reaches.
pub open spec fn root_of<V>(a: Seq<NodeView<V>>, i: nat, fuel: nat) -> nat
    decreases fuel,
{
    match a[i as int].parent {
        Some(p) => if fuel > 0 {
            root_of(a, p, (fuel - 1) as nat)
        } else {
            i
        },
        None => i,
    }
}

/// Every path of child links from `i` stays in the arena and has at most
/// `fuel` nodes.
pub open spec fn reach_ok<V>(a: Seq<NodeView<V>>, i: nat, fuel: nat) -> bool
    decreases fuel,
{
    &&& fuel > 0
    &&& i < a.len()
    &&& forall|k: int|
        0 <= k < a[i as int].children.len() ==> reach_ok(
            a,
            #[trigger] a[i as int].children[k],
            (fuel - 1) as nat,
        )
}

/// The lines that show node `i` at depth `level` and, below it, its
/// children in order.
pub open spec fn render_node<V>(a: Seq<NodeView<V>>, lab: spec_fn(V) -> Seq<char>, i: nat, level: nat, fuel: nat) -> Seq<Seq<char>>
    decreases fuel, 0nat,
{
    if fuel == 0 {
        Seq::empty()
    } else {
        seq![node_line(a, lab, i, level)] + render_seq(a, lab,
            a[i as int].children,
            level + 1,
            (fuel - 1) as nat,
        )
    }
}

/// The lines that show the nodes `ids`, one after the other.
pub open spec fn render_seq<V>(a: Seq<NodeView<V>>, lab: spec_fn(V) -> Seq<char>, ids: Seq<nat>, level: nat, fuel: nat) -> Seq<Seq<char>>
    decreases fuel, ids.len() + 1,
{
    if ids.len() == 0 {
        Seq::empty()
    } else {
        render_node(a, lab, ids[0], level, fuel) + render_seq(a, lab, ids.drop_first(), level, fuel)
    }
}

/// The lines joined by line breaks.
pub open spec fn join_lines(lines: Seq<Seq<char>>) -> Seq<char>
    decreases lines.len(),
{
    if lines.len() == 0 {
        Seq::empty()
    } else if lines.len() == 1 {
        lines[0]
    } else {
        join_lines(lines.drop_last()) + seq!['\n'] + lines.last()
    }
}

/// Whether an arena can be shown: following parents from the first node
/// ends, and no path of child links from the root it reaches leaves the
/// arena or runs in a circle.
pub open spec fn renderable<V>(a: Seq<NodeView<V>>) -> bool {
    a.len() > 0 ==> {
        &&& chain_ok(a, 0, a.len())
        &&& reach_ok(a, root_of(a, 0, a.len()), a.len())
    }
}

/// The text an arena is shown with.
pub open spec fn rendered<V>(a: Seq<NodeView<V>>, lab: spec_fn(V) -> Seq<char>) -> Seq<char> {
    if a.len() == 0 {
        Seq::empty()
    } else {
        join_lines(render_node(a, lab, root_of(a, 0, a.len()), 0, a.len()))
    }
}

/// The lines still to be shown for a stack of (node, level, fuel) entries
/// whose top is its last entry.
pub open spec fn render_pending<V>(a: Seq<NodeView<V>>, lab: spec_fn(V) -> Seq<char>, stack: Seq<(nat, nat, nat)>) -> Seq<Seq<char>>
    decreases stack.len(),
{
    if stack.len() == 0 {
        Seq::empty()
    } else {
        let (i, l, f) = stack.last();
        render_node(a, lab, i, l, f) + render_pending(a, lab, stack.drop_last())
    }
}

/// Every entry of the stack satisfies [`reach_ok`] with its fuel.
pub open spec fn stack_reach<V>(a: Seq<NodeView<V>>, stack: Seq<(nat, nat, nat)>) -> bool {
    forall|j: int| 0 <= j < stack.len() ==> reach_ok(a, #[trigger] stack[j].0, stack[j].2)
}

pub open spec fn n_kids<V>(a: Seq<NodeView<V>>, i: nat) -> int {
    a[i as int].children.len() as int
}

proof fn lemma_join_push(lines: Seq<Seq<char>>, line: Seq<char>)
    ensures
        join_lines(lines.push(line)) == if lines.len() == 0 {
            line
        } else {
            join_lines(lines) + seq!['\n'] + line
        },
{
    assert(lines.push(line).drop_last() =~= lines);
}

proof fn lemma_chain_parentless<V>(a: Seq<NodeView<V>>, i: nat, fuel: nat)
    requires
        chain_ok(a, i, fuel),
    ensures
        root_of(a, i, fuel) < a.len(),
        a[root_of(a, i, fuel) as int].parent is None,
    decreases fuel,
{
    match a[i as int].parent {
        Some(p) => lemma_chain_parentless(a, p, (fuel - 1) as nat),
        None => {},
    }
}

/// [`reach_ok`] holds for more fuel too.
pub proof fn lemma_reach_more_fuel<V>(a: Seq<NodeView<V>>, i: nat, f: nat, g: nat)
    requires
        reach_ok(a, i, f),
        f <= g,
    ensures
        reach_ok(a, i, g),
    decreases f,
{
    assert forall|k: int| 0 <= k < a[i as int].children.len() implies reach_ok(
        a,
        #[trigger] a[i as int].children[k],
        (g - 1) as nat,
    ) by {
        lemma_reach_more_fuel(a, a[i as int].children[k], (f - 1) as nat, (g - 1) as nat);
    }
}

/// In an arena whose child links all point forward, every node can reach
/// only as many nodes as follow it.
pub proof fn lemma_forward_reach<V>(a: Seq<NodeView<V>>, i: nat)
    requires
        i < a.len(),
        forall|j: int, k: int|
            0 <= j < a.len() && 0 <= k < a[j].children.len() ==> j < #[trigger] a[j].children[k]
                < a.len(),
    ensures
        reach_ok(a, i, (a.len() - i) as nat),
    decreases a.len() - i,
{
    assert forall|k: int| 0 <= k < a[i as int].children.len() implies reach_ok(
        a,
        #[trigger] a[i as int].children[k],
        (a.len() - i - 1) as nat,
    ) by {
        let c = a[i as int].children[k];
        lemma_forward_reach(a, c);
        lemma_reach_more_fuel(a, c, (a.len() - c) as nat, (a.len() - i - 1) as nat);
    }
}

/// `n` tabs.
fn tab_string(n: usize) -> (s: String)
    ensures
        s@ == tabs(n as nat),
{
    let mut s = String::new();
    let mut i: usize = 0;
    proof {
        reveal_strlit("\t");
    }
    while i < n
        invariant
            i <= n,
            s@ == tabs(i as nat),
        decreases n - i,
    {
        proof {
            reveal_strlit("\t");
        }
        s.append("\t");
        i = i + 1;
        assert(s@ =~= tabs(i as nat));
    }
    s
}

impl<T: Shown> ParseArena<T> {
    /// Show the arena: starting from the first node, follow parents to the
    /// root; then one line per node in depth-first order, indented by one tab
    /// per level, lines joined by line breaks.
    pub fn render(&self) -> (s: String)
        requires
            renderable(self@),
        ensures
            s@ == rendered(self@, shown_by::<T>()),
    {
        match self.try_render() {
            Some(s) => s,
            None => String::new(),
        }
    }

    /// The text of [`render`](Self::render), or `None` for an arena that is not
    /// [`renderable`]: one whose parent links from the first node, or whose
    /// child links from the root, leave the arena or run in a circle.
    pub fn try_render(&self) -> (r: Option<String>)
        ensures
            r is Some <==> renderable(self@),
            r matches Some(s) ==> s@ == rendered(self@, shown_by::<T>()),
    {
        let ghost a = self@;
        let ghost lab = shown_by::<T>();
        let len = self.count();
        if len == 0 {
            return Some(String::new());
        }
        let ghost total = a.len();
        let mut root = NodeId::new(0);
        let mut fuel: usize = len;
        while self.get_node(&root).parent.is_some()
            invariant
                a == self@,
                len == a.len(),
                total == a.len(),
                root@ < a.len(),
                fuel <= len,
                chain_ok(a, 0, total) <==> chain_ok(a, root@, fuel as nat),
                root_of(a, root@, fuel as nat) == root_of(a, 0, total),
            decreases fuel,
        {
            let p = self.get_node(&root).parent.unwrap();
            proof {
                assert(a[root@ as int].parent == Some(p@));
            }
            if fuel == 0 || p.index() >= len {
                proof {
                    if fuel > 0 {
                        assert(!chain_ok(a, p@, (fuel - 1) as nat));
                    }
                    assert(!chain_ok(a, root@, fuel as nat));
                    assert(!renderable(a));
                }
                return None;
            }
            proof {
                assert(root_of(a, root@, fuel as nat) == root_of(a, p@, (fuel - 1) as nat));
            }
            fuel = fuel - 1;
            root = p;
        }
        let ghost r = root@;
        assert(root_of(a, r, fuel as nat) == r);
        proof {
            lemma_chain_parentless(a, 0, total);
        }
        let ghost all = render_node(a, lab, r, 0, total);
        let mut out = String::new();
        let mut first = true;
        let ghost mut emitted: Seq<Seq<char>> = Seq::empty();
        let mut stack: Vec<(usize, usize, usize)> = Vec::new();
        let ghost mut gstack: Seq<(nat, nat, nat)> = Seq::empty();
        stack.push((root.index(), 0, len));
        proof {
            gstack = gstack.push((r, 0nat, total));
            assert(gstack.drop_last() =~= Seq::<(nat, nat, nat)>::empty());
            assert(gstack.last() == (r, 0nat, total));
            assert(render_pending(a, lab, gstack.drop_last()) =~= Seq::<Seq<char>>::empty());
            assert(render_pending(a, lab, gstack) == all + render_pending(a, lab, gstack.drop_last()));
            assert(render_pending(a, lab, gstack) =~= all);
        }
        while stack.len() > 0
            invariant
                a == self@,
                total == a.len(),
                len == total,
                chain_ok(a, 0, total),
                r == root_of(a, 0, total),
                stack@.len() == gstack.len(),
                forall|j: int|
                    0 <= j < gstack.len() ==> {
                        let (i, l, f) = #[trigger] gstack[j];
                        &&& stack@[j].0 == i
                        &&& stack@[j].1 == l
                        &&& stack@[j].2 == f
                        &&& i < total
                        &&& f > 0
                        &&& (reach_ok(a, r, total) ==> reach_ok(a, i, f))
                        &&& l + f <= total
                    },
                lab == shown_by::<T>(),
                emitted + render_pending(a, lab, gstack) == all,
                out@ == join_lines(emitted),
                first == (emitted.len() == 0),
                stack_reach(a, gstack) ==> reach_ok(a, r, total),
            decreases render_pending(a, lab, gstack).len(),
        {
            let (index, level, f) = stack.pop().unwrap();
            let ghost (gi, gl, gf) = gstack.last();
            let ghost rest = gstack.drop_last();
            let ghost before_pop = gstack;
            proof {
                assert(gstack[gstack.len() - 1] == (gi, gl, gf));
                assert(render_pending(a, lab, gstack) == render_node(a, lab, gi, gl, gf) + render_pending(a, lab, rest));
                assert(render_node(a, lab, gi, gl, gf) == seq![node_line(a, lab, gi, gl)] + render_seq(a, lab, a[gi as int].children, gl + 1, (gf - 1) as nat));
                assert forall|j: int| 0 <= j < rest.len() implies {
                            let (i, l, f) = #[trigger] rest[j];
                            &&& stack@[j].0 == i
                            &&& stack@[j].1 == l
                            &&& stack@[j].2 == f
                            &&& i < total
                            &&& f > 0
                            &&& (reach_ok(a, r, total) ==> reach_ok(a, i, f))
                            &&& l + f <= total
                        } by {
                    assert(rest[j] == gstack[j]);
                }
                gstack = rest;
                assert(before_pop =~= rest.push((gi, gl, gf)));
                assert((stack_reach(a, rest) && reach_ok(a, gi, gf)) ==> stack_reach(a, before_pop)) by {
                    if stack_reach(a, rest) && reach_ok(a, gi, gf) {
                        assert forall|j: int| 0 <= j < before_pop.len() implies reach_ok(a, #[trigger] before_pop[j].0, before_pop[j].2) by {
                            if j < rest.len() {
                                assert(before_pop[j] == rest[j]);
                            }
                        }
                    }
                }
            }
            let node = self.get_node(&NodeId::new(index));
            let label = node.data.text();
            let mut line = tab_string(level);
            line.append(label.as_str());
            proof {
                assert(node@ == a[gi as int]);
                assert(lab(a[gi as int].data) == T::shown(node.data@));
                assert(line@ == node_line(a, lab, gi, gl));
                lemma_join_push(emitted, line@);
                emitted = emitted.push(line@);
            }
            if !first {
                proof {
                    reveal_strlit("\n");
                }
                out.append("\n");
            }
            first = false;
            out.append(line.as_str());
            let n = node.children.len();
            let mut k = n;
            proof {
                assert(a[gi as int].children.subrange(n as int, n as int) =~= Seq::<nat>::empty());
            }
            while k > 0
                invariant
                    a == self@,
                    k <= n,
                    n == a[gi as int].children.len(),
                    node@ == a[gi as int],
                    stack@.len() == gstack.len(),
                    reach_ok(a, r, total) ==> reach_ok(a, gi, gf),
                    chain_ok(a, 0, total),
                    r == root_of(a, 0, total),
                    gi < total,
                    gf == f,
                    gf > 0,
                    total == a.len(),
                    gl + gf <= total,
                    total == len,
                    level == gl,
                    forall|j: int|
                        0 <= j < gstack.len() ==> {
                            let (i, l, f) = #[trigger] gstack[j];
                            &&& stack@[j].0 == i
                            &&& stack@[j].1 == l
                            &&& stack@[j].2 == f
                            &&& i < total
                            &&& f > 0
                            &&& (reach_ok(a, r, total) ==> reach_ok(a, i, f))
                            &&& l + f <= total
                        },
                    render_pending(a, lab, gstack) == render_seq(a, lab,
                        a[gi as int].children.subrange(k as int, n as int),
                        gl + 1,
                        (gf - 1) as nat,
                    ) + render_pending(a, lab, rest),
                    stack_reach(a, gstack) ==> (stack_reach(a, rest) && forall|kk: int|
                        k <= kk < n ==> reach_ok(a, #[trigger] a[gi as int].children[kk], (gf - 1) as nat)),
                    (stack_reach(a, rest) && reach_ok(a, gi, gf)) ==> reach_ok(a, r, total),
                decreases k,
            {
                k = k - 1;
                let c = node.children[k].index();
                let ghost kids = a[gi as int].children;
                proof {
                    assert(kids[k as int] == c);
                }
                if c >= len || f <= 1 {
                    proof {
                        if reach_ok(a, gi, gf) {
                            let ch = a[gi as int].children[k as int];
                            assert(reach_ok(a, ch, (gf - 1) as nat));
                            assert(ch < a.len());
                            assert(gf - 1 > 0);
                            assert(false);
                        }
                        assert(!reach_ok(a, gi, gf));
                        assert(!renderable(a));
                    }
                    return None;
                }
                proof {
                    assert(kids.subrange(k as int, n as int).drop_first() =~= kids.subrange(k + 1, n as int));
                    assert(kids.subrange(k as int, n as int)[0] == c);
                    let old_stack = gstack;
                    gstack = gstack.push((c as nat, (gl + 1) as nat, (gf - 1) as nat));
                    assert(gstack.drop_last() =~= old_stack);
                    assert(render_pending(a, lab, gstack) == render_node(a, lab, c as nat, (gl + 1) as nat, (gf - 1) as nat) + render_pending(a, lab, old_stack));
                    assert forall|j: int| 0 <= j < gstack.len() implies {
                            let (i, l, f) = #[trigger] gstack[j];
                            &&& i == gstack[j].0
                            &&& (reach_ok(a, r, total) ==> reach_ok(a, i, f))
                            &&& l + f <= total
                        } by {
                        if j < old_stack.len() {
                            assert(gstack[j] == old_stack[j]);
                        } else {
                            if reach_ok(a, r, total) {
                                assert(reach_ok(a, kids[k as int], (gf - 1) as nat));
                            }
                        }
                    }
                    if stack_reach(a, gstack) {
                        assert forall|j: int| 0 <= j < old_stack.len() implies reach_ok(a, #[trigger] old_stack[j].0, old_stack[j].2) by {
                            assert(gstack[j] == old_stack[j]);
                            assert(reach_ok(a, gstack[j].0, gstack[j].2));
                        }
                        assert(reach_ok(a, gstack[old_stack.len() as int].0, gstack[old_stack.len() as int].2));
                    }
                }
                stack.push((c, level + 1, f - 1));
            }
            proof {
                assert(a[gi as int].children.subrange(0, n as int) =~= a[gi as int].children);
                assert(emitted + render_pending(a, lab, gstack) =~= all);
                if stack_reach(a, gstack) {
                    assert(reach_ok(a, gi, gf));
                }
            }
        }
        proof {
            assert(emitted =~= all);
            assert(stack_reach(a, gstack));
        }
        Some(out)
    }
}

} // verus!
