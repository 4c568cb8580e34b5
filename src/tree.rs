use vstd::prelude::*;

pub mod half;
pub mod hash;
pub mod node;

pub use half::TreeHalf;
pub use hash::{HashEntry, HashTable};
pub use node::{Node, NodePtr};

use crate::state::GameState;
use half::{copy_fits, copy_subtree, TreeHalfView, MAX_HALF_SIZE};
use node::{fixed_square, fresh_view, mean_step, NodeView, NULL_RAW, Q_ONE};

verus! {

/// The whole arena as plain values.
pub struct TreeView {
    pub lower: TreeHalfView,
    pub upper: TreeHalfView,
    pub root: NodePtr,
    pub active: bool,
}

impl TreeView {
    /// The half with the given tag.
    pub open spec fn half_view(self, half: bool) -> TreeHalfView {
        if half {
            self.upper
        } else {
            self.lower
        }
    }

    /// Whether `p` names a slot of its half.
    pub open spec fn contains(self, p: NodePtr) -> bool {
        p.spec_idx() < self.half_view(p.spec_half()).nodes.len()
    }

    /// The node that `p` names.
    pub open spec fn node(self, p: NodePtr) -> NodeView {
        self.half_view(p.spec_half()).nodes[p.spec_idx() as int]
    }

    /// The arena with the node that `p` names replaced by `n`.
    pub open spec fn with_node(self, p: NodePtr, n: NodeView) -> TreeView {
        let h = self.half_view(p.spec_half());
        let h2 = TreeHalfView { nodes: h.nodes.update(p.spec_idx() as int, n), ..h };
        if p.spec_half() {
            TreeView { upper: h2, ..self }
        } else {
            TreeView { lower: h2, ..self }
        }
    }
}

/// A node after one result was folded into it.
pub open spec fn updated_view(n: NodeView, v: u32) -> NodeView {
    NodeView {
        visits: (n.visits + 1) as i32,
        q: mean_step(n.q as int, n.visits as int, v as int) as u32,
        sq_q: mean_step(n.sq_q as int, n.visits as int, fixed_square(v as int)) as u32,
        ..n
    }
}

/// A node of a simulation's path after back-propagation passed through it:
/// the result is folded in and the worker has left.
pub open spec fn passed_view(n: NodeView, v: u32) -> NodeView {
    NodeView { threads: n.threads.wrapping_sub(1), ..updated_view(n, v) }
}

/// The arena after back-propagating `v` from the last node of `path` up to
/// its first, flipping the result to the other side's point of view at each
/// step; also the result as the parent of the first node sees it.
pub open spec fn backprop_view(t: TreeView, path: Seq<NodePtr>, v: u32) -> (TreeView, u32)
    decreases path.len(),
{
    if path.len() == 0 {
        (t, v)
    } else {
        let p = path.last();
        backprop_view(t.with_node(p, passed_view(t.node(p), v)), path.drop_last(), (Q_ONE - v) as u32)
    }
}

/// Whether every node of `path` and the root can take the path's results:
/// each exists and its visit count has room for them.
pub open spec fn backprop_ready(t: TreeView, path: Seq<NodePtr>, rem: int) -> bool {
    &&& t.contains(t.root)
    &&& 0 <= t.node(t.root).visits
    &&& t.node(t.root).visits + rem < i32::MAX
    &&& forall|j: int| 0 <= j < rem ==> {
        &&& t.contains(#[trigger] path[j])
        &&& 0 <= t.node(path[j]).visits
        &&& t.node(path[j]).visits + rem < i32::MAX
    }
}

/// `after` is `before` once the subtree at `from` was promoted: it now lives
/// at the start of the other half, which became the active one, its root
/// carries the statistics of `from`, and the old half is empty again.
pub open spec fn swapped(before: TreeView, from: NodePtr, after: TreeView) -> bool {
    &&& after.active == !before.active
    &&& after.root.spec_half() == after.active
    &&& after.root.spec_idx() == 0
    &&& after.contains(after.root)
    &&& before.contains(from)
    &&& after.node(after.root).same_stats(before.node(from))
    &&& after.node(after.root).num_actions == before.node(from).num_actions
    &&& after.half_view(before.active).used == 0
}

/// The node arena: two halves, the root, and which half new nodes go to.
///
/// When the active half fills, the subtree worth keeping is copied into the
/// other half, which then becomes active while the old one is emptied.
pub struct Tree {
    lower: TreeHalf,
    upper: TreeHalf,
    root: NodePtr,
    active: bool,
}

impl View for Tree {
    type V = TreeView;

    closed spec fn view(&self) -> TreeView {
        TreeView { lower: self.lower@, upper: self.upper@, root: self.root, active: self.active }
    }
}

impl Tree {
    /// Each half fits the pointer's index bits, hands out no more slots than
    /// it has, and carries its own tag.
    pub open spec fn wf(&self) -> bool {
        &&& self@.lower.nodes.len() <= MAX_HALF_SIZE
        &&& self@.lower.used <= self@.lower.nodes.len()
        &&& self@.upper.nodes.len() <= MAX_HALF_SIZE
        &&& self@.upper.used <= self@.upper.nodes.len()
        &&& !self@.lower.half
        &&& self@.upper.half
    }

    /// An arena of `total` nodes split evenly between the halves, with no
    /// root yet.
    pub fn new(total: usize) -> (r: Tree)
        requires
            total / 2 <= MAX_HALF_SIZE,
        ensures
            r.wf(),
            r@.lower.nodes.len() == total / 2,
            r@.upper.nodes.len() == total / 2,
            r@.lower.used == 0,
            r@.upper.used == 0,
            r@.root.raw() == NULL_RAW,
            !r@.active,
    {
        let each = total / 2;
        Tree {
            lower: TreeHalf::new(each, false),
            upper: TreeHalf::new(each, true),
            root: NodePtr::null(),
            active: false,
        }
    }

    /// The half new nodes go to.
    pub fn active_half(&self) -> (r: bool)
        ensures
            r == self@.active,
    {
        self.active
    }

    pub fn root_node(&self) -> (r: NodePtr)
        ensures
            r == self@.root,
    {
        self.root
    }

    pub fn set_root(&mut self, root: NodePtr)
        ensures
            final(self)@ == (TreeView { root, ..old(self)@ }),
            final(self).wf() == old(self).wf(),
    {
        self.root = root;
    }

    /// Allocates a node of `state` in the active half; null when it is full.
    pub fn push_new(&mut self, state: GameState) -> (r: NodePtr)
        requires
            old(self).wf(),
        ensures
            final(self).wf(),
            final(self)@.active == old(self)@.active,
            final(self)@.root == old(self)@.root,
            final(self)@.half_view(old(self)@.active) == old(self)@.half_view(old(self)@.active).after_push(state),
            final(self)@.half_view(!old(self)@.active) == old(self)@.half_view(!old(self)@.active),
            old(self)@.half_view(old(self)@.active).used < old(self)@.half_view(old(self)@.active).nodes.len()
                ==> {
                &&& r.raw() != NULL_RAW
                &&& r.spec_half() == old(self)@.active
                &&& r.spec_idx() == old(self)@.half_view(old(self)@.active).used
                &&& final(self)@.contains(r)
            },
            old(self)@.half_view(old(self)@.active).used == old(self)@.half_view(old(self)@.active).nodes.len()
                ==> r.raw() == NULL_RAW,
    {
        if self.active {
            self.upper.push_new(state)
        } else {
            self.lower.push_new(state)
        }
    }

    /// Empties both halves and forgets the root.
    pub fn clear(&mut self)
        requires
            old(self).wf(),
        ensures
            final(self).wf(),
            final(self)@.lower == (TreeHalfView { used: 0, ..old(self)@.lower }),
            final(self)@.upper == (TreeHalfView { used: 0, ..old(self)@.upper }),
            final(self)@.root.raw() == NULL_RAW,
            final(self)@.active == old(self)@.active,
    {
        self.lower.clear();
        self.upper.clear();
        self.root = NodePtr::null();
    }

    /// The node `ptr` names.
    pub fn node(&self, ptr: NodePtr) -> (r: &Node)
        requires
            self@.contains(ptr),
        ensures
            r@ == self@.node(ptr),
    {
        if ptr.half() {
            self.upper.node(ptr)
        } else {
            self.lower.node(ptr)
        }
    }

    /// The node `ptr` names, for updating it.
    pub fn node_mut(&mut self, ptr: NodePtr) -> (r: &mut Node)
        requires
            old(self).wf(),
            old(self)@.contains(ptr),
        ensures
            r@ == old(self)@.node(ptr),
            final(self).wf(),
            final(self)@.root == old(self)@.root,
            final(self)@.active == old(self)@.active,
            final(self)@.half_view(!ptr.spec_half()) == old(self)@.half_view(!ptr.spec_half()),
            final(self)@.half_view(ptr.spec_half()) == (TreeHalfView {
                nodes: old(self)@.half_view(ptr.spec_half()).nodes.update(ptr.spec_idx() as int, final(r)@),
                ..old(self)@.half_view(ptr.spec_half())
            }),
    {
        if ptr.half() {
            self.upper.node_mut(ptr)
        } else {
            self.lower.node_mut(ptr)
        }
    }

    /// Expands `leaf`, a node of the active half that has been handed out:
    /// one child per move is allocated in a contiguous block, child `i`
    /// reached by `moves[i]` with prior `priors[i]`, and the leaf points at
    /// the block.
    ///
    /// Returns false, changing nothing, when the leaf is not a handed-out
    /// node of the active half or the active half has no room for the block;
    /// the caller then swaps halves.
    pub fn expand(&mut self, leaf: NodePtr, moves: &Vec<u16>, priors: &Vec<u16>) -> (r: bool)
        requires
            old(self).wf(),
            1 <= moves@.len() <= u8::MAX,
            priors@.len() == moves@.len(),
        ensures
            final(self).wf(),
            final(self)@.active == old(self)@.active,
            final(self)@.root == old(self)@.root,
            final(self)@.half_view(!old(self)@.active) == old(self)@.half_view(!old(self)@.active),
            r == (leaf.spec_half() == old(self)@.active
                && leaf.spec_idx() < old(self)@.half_view(old(self)@.active).used
                && old(self)@.half_view(old(self)@.active).used + moves@.len()
                    <= old(self)@.half_view(old(self)@.active).nodes.len()),
            !r ==> final(self)@ == old(self)@,
            r ==> final(self)@.node(leaf).num_actions >= 1 && final(self)@.node(leaf).actions != NULL_RAW,
            r ==> {
                let before = old(self)@.half_view(old(self)@.active);
                let after = final(self)@.half_view(old(self)@.active);
                let first = before.used;
                &&& after.used == first + moves@.len()
                &&& after.nodes.len() == before.nodes.len()
                &&& final(self)@.node(leaf) == (NodeView {
                    actions: ((if old(self)@.active { 0x8000_0000int } else { 0int }) + first) as u32,
                    num_actions: moves@.len() as u8,
                    ..old(self)@.node(leaf)
                })
                &&& forall|i: int| 0 <= i < moves@.len() ==> #[trigger] after.nodes[first + i] == (NodeView {
                    mov: moves@[i],
                    policy: priors@[i],
                    ..fresh_view(GameState::Ongoing)
                })
                &&& forall|i: int| 0 <= i < before.nodes.len() && i != leaf.spec_idx()
                    && !(first <= i < first + moves@.len()) ==> #[trigger] after.nodes[i] == before.nodes[i]
            },
    {
        let n = moves.len();
        let active = self.active;
        let (used, cap) = if active {
            (self.upper.used(), self.upper.capacity())
        } else {
            (self.lower.used(), self.lower.capacity())
        };
        if leaf.half() != active || leaf.idx() >= used || n > cap - used {
            return false;
        }
        let ghost before = self@;
        let ghost bh = before.half_view(active);
        let mut j: usize = 0;
        while j < n
            invariant
                self.wf(),
                self@.active == active,
                self@.root == before.root,
                self@.half_view(!active) == before.half_view(!active),
                bh == before.half_view(active),
                used == bh.used,
                cap == bh.nodes.len(),
                used + n <= cap,
                n == moves@.len(),
                priors@.len() == n,
                leaf.spec_half() == active,
                leaf.spec_idx() < used,
                j <= n,
                self@.half_view(active).used == used + j,
                self@.half_view(active).nodes.len() == cap,
                forall|i: int| 0 <= i < j ==> #[trigger] self@.half_view(active).nodes[used + i] == (NodeView {
                    mov: moves@[i],
                    policy: priors@[i],
                    ..fresh_view(GameState::Ongoing)
                }),
                forall|i: int| 0 <= i < cap && !(used <= i < used + j)
                    ==> #[trigger] self@.half_view(active).nodes[i] == bh.nodes[i],
            decreases n - j,
        {
            let c = self.push_new(GameState::Ongoing);
            assert(c.spec_idx() == used + j);
            self.node_mut(c).set_new(moves[j], priors[j]);
            j = j + 1;
        }
        let first = NodePtr::new(active, used as u32);
        let node = self.node_mut(leaf);
        *node.actions_mut() = first;
        node.set_num_actions(n);
        proof {
            let t: u32 = if active { 0x8000_0000u32 } else { 0u32 };
            let u = used as u32;
            assert(u < 0x8000_0000u32 ==> (t | u) == t + u) by (bit_vector)
                requires
                    t == 0u32 || t == 0x8000_0000u32,
            ;
        }
        true
    }

    /// Records that a worker descends into `child`: its thread count goes up
    /// by one, wrapping as an atomic counter does.
    pub fn enter(&mut self, child: NodePtr)
        requires
            old(self).wf(),
            old(self)@.contains(child),
        ensures
            final(self).wf(),
            final(self)@ == entered_view(old(self)@, seq![child]),
    {
        let ghost before = self@;
        self.node_mut(child).inc_threads();
        proof {
            reveal_with_fuel(entered_view, 2);
            assert(seq![child].drop_last() =~= Seq::<NodePtr>::empty());
            assert(seq![child].last() == child);
            assert(self@ =~= before.with_node(
                child,
                NodeView { threads: before.node(child).threads.wrapping_add(1), ..before.node(child) },
            ));
        }
    }

    /// Back-propagates a simulation's result. `path` holds the nodes chosen
    /// from the root down, each entered through `inc_threads`; `result` is
    /// the value of the last one. Walking up, each node takes the result and
    /// is left by the worker, and the result flips to the other side's point
    /// of view; the root takes the result last.
    pub fn backprop(&mut self, path: &Vec<NodePtr>, result: u32)
        requires
            old(self).wf(),
            backprop_ready(old(self)@, path@, path@.len() as int),
        ensures
            final(self).wf(),
            ({
                let (t, v) = backprop_view(old(self)@, path@, result);
                final(self)@ == t.with_node(t.root, updated_view(t.node(t.root), v))
            }),
    {
        let ghost t0 = self@;
        let mut i = path.len();
        let mut v = result;
        assert(path@.take(i as int) =~= path@);
        while i > 0
            invariant
                self.wf(),
                i <= path@.len(),
                backprop_ready(self@, path@, i as int),
                backprop_view(self@, path@.take(i as int), v) == backprop_view(t0, path@, result),
            decreases i,
        {
            let ghost before = self@;
            let p = path[i - 1];
            let node = self.node_mut(p);
            node.update(v);
            node.dec_threads();
            proof {
                assert(path@.take(i as int).last() == p);
                assert(path@.take(i as int).drop_last() =~= path@.take(i - 1));
                assert(self@ =~= before.with_node(p, passed_view(before.node(p), v)));
                assert forall|j: int| 0 <= j < i - 1 implies {
                    &&& self@.contains(#[trigger] path@[j])
                    &&& 0 <= self@.node(path@[j]).visits
                    &&& self@.node(path@[j]).visits + (i - 1) < i32::MAX
                } by {
                    assert(before.contains(path@[j]));
                }
            }
            v = Q_ONE - v;
            i = i - 1;
        }
        proof {
            assert(path@.take(0) =~= Seq::<NodePtr>::empty());
        }
        let ghost before = self@;
        let root = self.root;
        self.node_mut(root).update(v);
        proof {
            assert(self@ =~= before.with_node(root, updated_view(before.node(root), v)));
        }
    }

    /// Promotes the subtree at `from`, a node of the active half, to be the
    /// whole tree: it is copied breadth first into the other half, which
    /// becomes active with the copy as root, and the old half is emptied.
    ///
    /// Returns false, leaving the active half and the root as they were,
    /// when `from` is not a node of the active half, when a child range in
    /// the subtree lies outside it, or when the other half cannot hold the
    /// subtree.
    pub fn swap_to(&mut self, from: NodePtr) -> (r: bool)
        requires
            old(self).wf(),
        ensures
            final(self).wf(),
            r == (from.spec_half() == old(self)@.active && copy_fits(
                old(self)@.half_view(old(self)@.active),
                from,
                old(self)@.half_view(!old(self)@.active).nodes.len(),
            )),
            r ==> swapped(old(self)@, from, final(self)@),
            !r ==> final(self)@.active == old(self)@.active && final(self)@.root == old(self)@.root
                && final(self)@.half_view(old(self)@.active) == old(self)@.half_view(old(self)@.active),
    {
        if from.half() != self.active {
            return false;
        }
        let copied = if self.active {
            copy_subtree(&self.upper, &mut self.lower, from)
        } else {
            copy_subtree(&self.lower, &mut self.upper, from)
        };
        if copied.is_null() {
            return false;
        }
        if self.active {
            self.upper.clear();
        } else {
            self.lower.clear();
        }
        self.active = !self.active;
        self.root = copied;
        true
    }
}

/// Promoting a subtree and then promoting it again straight back gives a
/// root with the same visits, value, prior, move, state and thread count as
/// the node first promoted, in the half that was active at the start.
pub proof fn lemma_swap_back(t0: TreeView, from: NodePtr, t1: TreeView, t2: TreeView)
    requires
        swapped(t0, from, t1),
        swapped(t1, t1.root, t2),
    ensures
        t2.active == t0.active,
        t2.node(t2.root).same_stats(t0.node(from)),
        t2.node(t2.root).num_actions == t0.node(from).num_actions,
{
}

/// Whether `p` and `q` name the same slot.
pub open spec fn same_slot(p: NodePtr, q: NodePtr) -> bool {
    p.spec_half() == q.spec_half() && p.spec_idx() == q.spec_idx()
}

/// How many entries of `path` name the slot of `q`.
pub open spec fn visits_of(path: Seq<NodePtr>, q: NodePtr) -> int
    decreases path.len(),
{
    if path.len() == 0 {
        0
    } else {
        visits_of(path.drop_last(), q) + if same_slot(path.last(), q) { 1int } else { 0int }
    }
}

/// The arena after a worker entered each node of `path`, in order, through
/// `inc_threads`.
pub open spec fn entered_view(t: TreeView, path: Seq<NodePtr>) -> TreeView
    decreases path.len(),
{
    if path.len() == 0 {
        t
    } else {
        let t1 = entered_view(t, path.drop_last());
        let p = path.last();
        t1.with_node(p, NodeView { threads: t1.node(p).threads.wrapping_add(1), ..t1.node(p) })
    }
}

/// Whether every entry of `path` names a slot of `t`.
pub open spec fn path_inside(t: TreeView, path: Seq<NodePtr>) -> bool {
    forall|j: int| 0 <= j < path.len() ==> t.contains(#[trigger] path[j])
}

proof fn lemma_with_node(t: TreeView, p: NodePtr, n: NodeView, q: NodePtr)
    requires
        t.contains(p),
        t.contains(q),
    ensures
        t.with_node(p, n).contains(q),
        t.with_node(p, n).node(q) == if same_slot(p, q) { n } else { t.node(q) },
        t.with_node(p, n).lower.nodes.len() == t.lower.nodes.len(),
        t.with_node(p, n).upper.nodes.len() == t.upper.nodes.len(),
{
}

proof fn lemma_entered_threads(t: TreeView, path: Seq<NodePtr>, q: NodePtr)
    requires
        path_inside(t, path),
        t.contains(q),
    ensures
        entered_view(t, path).lower.nodes.len() == t.lower.nodes.len(),
        entered_view(t, path).upper.nodes.len() == t.upper.nodes.len(),
        entered_view(t, path).node(q).threads as int == (t.node(q).threads + visits_of(path, q)) % 0x1_0000,
    decreases path.len(),
{
    if path.len() > 0 {
        let prefix = path.drop_last();
        let p = path.last();
        assert(path_inside(t, prefix));
        lemma_entered_threads(t, prefix, q);
        lemma_entered_threads(t, prefix, p);
        let t1 = entered_view(t, prefix);
        assert(t.contains(p));
        assert(t1.contains(p));
        assert(t1.contains(q));
        lemma_with_node(t1, p, NodeView { threads: t1.node(p).threads.wrapping_add(1), ..t1.node(p) }, q);
        let b = t.node(q).threads + visits_of(prefix, q);
        if same_slot(p, q) {
            assert(t1.node(p) == t1.node(q));
            let x = t1.node(q).threads;
            assert(x.wrapping_add(1) as int == (x as int + 1) % 0x1_0000);
            vstd::arithmetic::div_mod::lemma_add_mod_noop(b, 1, 0x1_0000);
            vstd::arithmetic::div_mod::lemma_mod_twice(b, 0x1_0000);
            vstd::arithmetic::div_mod::lemma_add_mod_noop(x as int, 1, 0x1_0000);
        }
    }
}

proof fn lemma_backprop_threads(t: TreeView, path: Seq<NodePtr>, v: u32, q: NodePtr)
    requires
        path_inside(t, path),
        t.contains(q),
    ensures
        backprop_view(t, path, v).0.contains(q),
        backprop_view(t, path, v).0.node(q).threads as int == (t.node(q).threads - visits_of(path, q)) % 0x1_0000,
    decreases path.len(),
{
    if path.len() == 0 {
        vstd::arithmetic::div_mod::lemma_small_mod(t.node(q).threads as nat, 0x1_0000);
    } else {
        let prefix = path.drop_last();
        let p = path.last();
        assert(t.contains(p));
        let n = passed_view(t.node(p), v);
        let t1 = t.with_node(p, n);
        lemma_with_node(t, p, n, q);
        assert forall|j: int| 0 <= j < prefix.len() implies t1.contains(#[trigger] prefix[j]) by {
            assert(t.contains(path[j]));
            lemma_with_node(t, p, n, path[j]);
        }
        lemma_backprop_threads(t1, prefix, (Q_ONE - v) as u32, q);
        let c = visits_of(prefix, q);
        if same_slot(p, q) {
            assert(t.node(p) == t.node(q));
            let x = t.node(q).threads;
            assert(x.wrapping_sub(1) as int == (x as int - 1) % 0x1_0000);
            vstd::arithmetic::div_mod::lemma_sub_mod_noop(x as int - 1, c, 0x1_0000);
            vstd::arithmetic::div_mod::lemma_mod_twice(x as int - 1, 0x1_0000);
            vstd::arithmetic::div_mod::lemma_sub_mod_noop(((x as int - 1) % 0x1_0000), c, 0x1_0000);
        }
    }
}

/// Virtual loss is undone by back-propagation: when a worker has entered
/// each node of a path through `inc_threads` and then back-propagated along
/// the same path, every node's thread count is what it was before the
/// simulation, so a tree whose counts were zero is at zero again once all
/// simulations have completed.
pub proof fn lemma_simulation_restores_threads(t: TreeView, path: Seq<NodePtr>, v: u32, q: NodePtr)
    requires
        path_inside(t, path),
        t.contains(q),
    ensures
        backprop_view(entered_view(t, path), path, v).0.node(q).threads == t.node(q).threads,
{
    lemma_entered_threads(t, path, q);
    let e = entered_view(t, path);
    assert(e.contains(q));
    assert forall|j: int| 0 <= j < path.len() implies e.contains(#[trigger] path[j]) by {
        lemma_entered_threads(t, path, path[j]);
    }
    lemma_backprop_threads(e, path, v, q);
    let x = t.node(q).threads as int;
    let c = visits_of(path, q);
    vstd::arithmetic::div_mod::lemma_sub_mod_noop(x + c, c, 0x1_0000);
    vstd::arithmetic::div_mod::lemma_mod_twice(x + c, 0x1_0000);
    vstd::arithmetic::div_mod::lemma_small_mod(x as nat, 0x1_0000);
    vstd::arithmetic::div_mod::lemma_sub_mod_noop(((x + c) % 0x1_0000), c, 0x1_0000);
}

} // verus!
