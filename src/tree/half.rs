use vstd::prelude::*;

use crate::state::GameState;
use super::node::{cleared_view, fresh_view, Node, NodePtr, NodeView, NULL_RAW};

verus! {

/// The largest number of nodes a half can hold: indices have 31 bits, and
/// the all-ones pointer is reserved for "no node".
pub const MAX_HALF_SIZE: usize = 0x7FFF_FFFF;

/// One half of the node arena as plain values.
pub struct TreeHalfView {
    pub nodes: Seq<NodeView>,
    pub used: nat,
    pub half: bool,
}

/// The view of a slot after it was handed out for a node of `state`.
pub open spec fn pushed_view(slot: NodeView, state: GameState) -> NodeView {
    NodeView { state, ..cleared_view(slot) }
}

impl TreeHalfView {
    /// The half after one `push_new(state)`.
    pub open spec fn after_push(self, state: GameState) -> TreeHalfView {
        if self.used < self.nodes.len() {
            TreeHalfView {
                nodes: self.nodes.update(self.used as int, pushed_view(self.nodes[self.used as int], state)),
                used: self.used + 1,
                half: self.half,
            }
        } else {
            self
        }
    }

    /// The half after one `push_new` for each state, in order.
    pub open spec fn after_pushes(self, states: Seq<GameState>) -> TreeHalfView
        decreases states.len(),
    {
        if states.len() == 0 {
            self
        } else {
            self.after_pushes(states.drop_last()).after_push(states.last())
        }
    }
}

/// Pushing `k` nodes into a half with room for them hands out the next `k`
/// slots in order, each one reset to an unexpanded, unvisited node of its
/// state, counts them as used, and leaves every other slot as it was.
pub proof fn lemma_push_new_fills_in_order(h: TreeHalfView, states: Seq<GameState>)
    requires
        h.used + states.len() <= h.nodes.len(),
    ensures
        h.after_pushes(states).used == h.used + states.len(),
        h.after_pushes(states).nodes.len() == h.nodes.len(),
        h.after_pushes(states).half == h.half,
        forall|i: int|
            0 <= i < states.len() ==> #[trigger] h.after_pushes(states).nodes[h.used + i]
                == pushed_view(h.nodes[h.used + i], states[i]),
        forall|i: int|
            0 <= i < states.len() ==> {
                let n = #[trigger] h.after_pushes(states).nodes[h.used + i];
                &&& n.num_actions == 0
                &&& n.visits == 0
                &&& n.threads == 0
                &&& n.state == states[i]
            },
        forall|i: int|
            0 <= i < h.nodes.len() && !(h.used <= i < h.used + states.len())
                ==> #[trigger] h.after_pushes(states).nodes[i] == h.nodes[i],
    decreases states.len(),
{
    if states.len() > 0 {
        let prefix = states.drop_last();
        lemma_push_new_fills_in_order(h, prefix);
        let mid = h.after_pushes(prefix);
        let after = h.after_pushes(states);
        assert(after == mid.after_push(states.last()));
        assert forall|i: int| 0 <= i < states.len() implies #[trigger] after.nodes[h.used + i]
            == pushed_view(h.nodes[h.used + i], states[i]) by {
            if i < prefix.len() {
                assert(mid.nodes[h.used + i] == pushed_view(h.nodes[h.used + i], prefix[i]));
            } else {
                assert(mid.nodes[h.used + i] == h.nodes[h.used + i]);
            }
        }
        assert forall|i: int|
            0 <= i < h.nodes.len() && !(h.used <= i < h.used + states.len())
                implies #[trigger] after.nodes[i] == h.nodes[i] by {
            assert(mid.nodes[i] == h.nodes[i]);
        }
        assert forall|i: int| 0 <= i < states.len() implies {
            let n = #[trigger] after.nodes[h.used + i];
            &&& n.num_actions == 0
            &&& n.visits == 0
            &&& n.threads == 0
            &&& n.state == states[i]
        } by {
            assert(after.nodes[h.used + i] == pushed_view(h.nodes[h.used + i], states[i]));
        }
    }
}

/// Replacing one node changes the view of the block in that slot only.
proof fn lemma_view_update(nodes: Seq<Node>, i: int, n: Node)
    requires
        0 <= i < nodes.len(),
    ensures
        Seq::new(nodes.len(), |j: int| nodes.update(i, n)[j]@) == Seq::new(
            nodes.len(),
            |j: int| nodes[j]@,
        ).update(i, n@),
{
    assert(Seq::new(nodes.len(), |j: int| nodes.update(i, n)[j]@) =~= Seq::new(
        nodes.len(),
        |j: int| nodes[j]@,
    ).update(i, n@));
}

/// A fixed-capacity block of nodes with a bump allocator.
pub struct TreeHalf {
    nodes: Vec<Node>,
    used: usize,
    half: bool,
}

impl View for TreeHalf {
    type V = TreeHalfView;

    closed spec fn view(&self) -> TreeHalfView {
        TreeHalfView {
            nodes: Seq::new(self.nodes@.len(), |i: int| self.nodes@[i]@),
            used: self.used as nat,
            half: self.half,
        }
    }
}

impl TreeHalf {
    /// The half's capacity fits the 31 index bits of a pointer, and no more
    /// than all of it is handed out.
    pub open spec fn wf(&self) -> bool {
        &&& self@.nodes.len() <= MAX_HALF_SIZE
        &&& self@.used <= self@.nodes.len()
    }

    /// A half of `size` fresh, ongoing nodes, none of them handed out.
    pub fn new(size: usize, half: bool) -> (r: TreeHalf)
        requires
            size <= MAX_HALF_SIZE,
        ensures
            r.wf(),
            r@.nodes.len() == size,
            r@.used == 0,
            r@.half == half,
            forall|i: int| 0 <= i < size ==> r@.nodes[i] == fresh_view(GameState::Ongoing),
    {
        let mut nodes: Vec<Node> = Vec::with_capacity(size);
        let mut i: usize = 0;
        while i < size
            invariant
                i <= size,
                nodes@.len() == i,
                forall|j: int| 0 <= j < i ==> nodes@[j]@ == fresh_view(GameState::Ongoing),
            decreases size - i,
        {
            nodes.push(Node::new(GameState::Ongoing));
            i = i + 1;
        }
        TreeHalf { nodes, used: 0, half }
    }

    /// Hands out the next free slot as a node of `state`, or returns the null
    /// pointer when every slot is taken.
    pub fn push_new(&mut self, state: GameState) -> (r: NodePtr)
        requires
            old(self).wf(),
        ensures
            final(self).wf(),
            final(self)@ == old(self)@.after_push(state),
            old(self)@.used < old(self)@.nodes.len() ==> {
                &&& r.spec_half() == old(self)@.half
                &&& r.spec_idx() == old(self)@.used
                &&& r.raw() != NULL_RAW
            },
            old(self)@.used == old(self)@.nodes.len() ==> r.raw() == NULL_RAW,
    {
        let idx = self.used;
        if idx >= self.nodes.len() {
            return NodePtr::null();
        }
        let ghost before = self@;
        self.nodes[idx].clear();
        self.nodes[idx].set_state(state);
        self.used = idx + 1;
        assert(self@.nodes =~= before.after_push(state).nodes);
        let r = NodePtr::new(self.half, idx as u32);
        assert(r.spec_idx() == idx);
        r
    }

    /// Returns every slot to the allocator; the nodes keep their contents
    /// until they are handed out again.
    pub fn clear(&mut self)
        requires
            old(self).wf(),
        ensures
            final(self).wf(),
            final(self)@ == (TreeHalfView { used: 0, ..old(self)@ }),
    {
        self.used = 0;
    }

    /// The number of slots handed out.
    pub fn used(&self) -> (r: usize)
        ensures
            r == self@.used,
    {
        self.used
    }

    /// The number of slots.
    pub fn capacity(&self) -> (r: usize)
        ensures
            r == self@.nodes.len(),
    {
        self.nodes.len()
    }

    /// Which of the two halves this is.
    pub fn half(&self) -> (r: bool)
        ensures
            r == self@.half,
    {
        self.half
    }

    /// The node in slot `ptr`.
    pub fn node(&self, ptr: NodePtr) -> (r: &Node)
        requires
            ptr.spec_idx() < self@.nodes.len(),
        ensures
            r@ == self@.nodes[ptr.spec_idx() as int],
    {
        &self.nodes[ptr.idx()]
    }

    /// The node in slot `ptr`, for updating it.
    pub fn node_mut(&mut self, ptr: NodePtr) -> (r: &mut Node)
        requires
            ptr.spec_idx() < old(self)@.nodes.len(),
        ensures
            r@ == old(self)@.nodes[ptr.spec_idx() as int],
            final(self)@ == (TreeHalfView {
                nodes: old(self)@.nodes.update(ptr.spec_idx() as int, final(r)@),
                ..old(self)@
            }),
    {
        let ghost nodes = self.nodes@;
        let i = ptr.idx();
        let r = &mut self.nodes[i];
        proof {
            lemma_view_update(nodes, i as int, *final(r));
        }
        r
    }
}

/// Whether the children of slot `i` of `h`, if any, form a range of slots of
/// the same half.
pub open spec fn range_ok(h: TreeHalfView, i: usize) -> bool {
    let n = h.nodes[i as int];
    n.num_actions > 0 ==> {
        &&& (n.actions >= 0x8000_0000) == h.half
        &&& n.actions % 0x8000_0000 + n.num_actions <= h.nodes.len()
    }
}

/// The slots of the children of slot `i` of `h`, in order.
pub open spec fn child_indices(h: TreeHalfView, i: usize) -> Seq<usize> {
    let n = h.nodes[i as int];
    Seq::new(n.num_actions as nat, |j: int| (n.actions % 0x8000_0000 + j) as usize)
}

/// The breadth-first queue of the subtree at `from` once its first `k`
/// entries have been expanded: each expanded entry appends its children.
pub open spec fn bfs_queue(h: TreeHalfView, from: usize, k: nat) -> Seq<usize>
    decreases k,
{
    if k == 0 {
        seq![from]
    } else {
        let q = bfs_queue(h, from, (k - 1) as nat);
        if k - 1 < q.len() {
            q + child_indices(h, q[k - 1])
        } else {
            q
        }
    }
}

/// The breadth-first queue starts at the subtree's root.
proof fn lemma_bfs_queue_head(h: TreeHalfView, from: usize, k: nat)
    ensures
        bfs_queue(h, from, k).len() >= 1,
        bfs_queue(h, from, k)[0] == from,
    decreases k,
{
    if k > 0 {
        lemma_bfs_queue_head(h, from, (k - 1) as nat);
    }
}

/// Whether the breadth-first copy of the subtree at `from`, from its `k`-th
/// queue entry on, meets only well-formed child ranges and fits in `cap`
/// slots.
pub open spec fn copy_fits_from(h: TreeHalfView, from: usize, cap: nat, k: nat) -> bool
    decreases cap - k,
{
    let q = bfs_queue(h, from, k);
    if k >= q.len() {
        true
    } else if k >= cap {
        false
    } else if !range_ok(h, q[k as int]) {
        false
    } else if q.len() + child_indices(h, q[k as int]).len() > cap {
        false
    } else {
        copy_fits_from(h, from, cap, k + 1)
    }
}

/// Whether the subtree at `from`, a node of `h`, can be copied into `cap`
/// slots.
pub open spec fn copy_fits(h: TreeHalfView, from: NodePtr, cap: nat) -> bool {
    &&& from.spec_half() == h.half
    &&& from.spec_idx() < h.nodes.len()
    &&& cap >= 1
    &&& copy_fits_from(h, from.spec_idx() as usize, cap, 0)
}

/// Whether slot `i` of `h` has its children, if any, inside the first
/// `used` slots of the same half.
pub open spec fn children_inside(h: TreeHalfView, i: int) -> bool {
    let n = h.nodes[i];
    n.num_actions > 0 ==> {
        &&& n.actions >= 0x8000_0000 <==> h.half
        &&& n.actions % 0x8000_0000 + n.num_actions <= h.used
    }
}

/// Copies the subtree rooted at `from` in `src` into `dst`, breadth first,
/// starting from an empty `dst`: slot `i` of `dst` receives the `i`-th entry
/// of the breadth-first queue, and every copied node's children pointer is
/// remapped to the slots its children were copied to.
///
/// Returns the copy of the root, in the first slot, when the subtree fits
/// and every child range in it lies inside `src`; else the null pointer.
pub fn copy_subtree(src: &TreeHalf, dst: &mut TreeHalf, from: NodePtr) -> (r: NodePtr)
    requires
        src.wf(),
        old(dst).wf(),
    ensures
        final(dst).wf(),
        final(dst)@.half == old(dst)@.half,
        final(dst)@.nodes.len() == old(dst)@.nodes.len(),
        (r.raw() != NULL_RAW) == copy_fits(src@, from, old(dst)@.nodes.len()),
        r.raw() != NULL_RAW ==> {
            let q = bfs_queue(src@, from.spec_idx() as usize, final(dst)@.used);
            &&& r.spec_half() == old(dst)@.half
            &&& r.spec_idx() == 0
            &&& final(dst)@.used == q.len()
            &&& final(dst)@.used >= 1
            &&& final(dst)@.nodes[0].same_stats(src@.nodes[from.spec_idx() as int])
            &&& final(dst)@.nodes[0].num_actions == src@.nodes[from.spec_idx() as int].num_actions
            &&& forall|i: int|
                0 <= i < q.len() ==> (#[trigger] final(dst)@.nodes[i]).same_stats(src@.nodes[q[i] as int])
                    && final(dst)@.nodes[i].num_actions == src@.nodes[q[i] as int].num_actions
            &&& forall|i: int|
                0 <= i < q.len() && (#[trigger] final(dst)@.nodes[i]).num_actions > 0 ==> {
                    &&& (final(dst)@.nodes[i].actions >= 0x8000_0000) == old(dst)@.half
                    &&& final(dst)@.nodes[i].actions % 0x8000_0000 == bfs_queue(
                        src@,
                        from.spec_idx() as usize,
                        i as nat,
                    ).len()
                }
            &&& forall|i: int| 0 <= i < final(dst)@.used ==> children_inside(final(dst)@, i)
        },
{
    dst.clear();
    let src_half = src.half();
    let src_len = src.capacity();
    let cap = dst.capacity();
    if from.half() != src_half || from.idx() >= src_len {
        return NodePtr::null();
    }
    let start = from.idx();
    let ghost h = src@;
    let root = dst.push_new(GameState::Ongoing);
    if root.is_null() {
        return NodePtr::null();
    }
    dst.node_mut(root).copy_from(src.node(from));
    let dst_half = dst.half();
    let mut queue: Vec<usize> = Vec::new();
    queue.push(start);
    assert(queue@ =~= bfs_queue(h, start, 0));
    let mut k: usize = 0;
    while k < queue.len()
        invariant
            src.wf(),
            dst.wf(),
            h == src@,
            src_len == h.nodes.len(),
            src_half == h.half,
            dst_half == dst@.half,
            dst_half == old(dst)@.half,
            dst@.nodes.len() == old(dst)@.nodes.len(),
            cap == dst@.nodes.len(),
            root.spec_half() == dst_half,
            root.spec_idx() == 0,
            root.raw() != NULL_RAW,
            start == from.spec_idx(),
            start < src_len,
            from.spec_half() == h.half,
            queue@ == bfs_queue(h, start, k as nat),
            queue@.len() == dst@.used,
            k <= queue@.len(),
            copy_fits_from(h, start, cap as nat, 0) == copy_fits_from(h, start, cap as nat, k as nat),
            forall|i: int| 0 <= i < queue@.len() ==> (#[trigger] queue@[i]) < src_len,
            forall|i: int|
                0 <= i < queue@.len() ==> (#[trigger] dst@.nodes[i]).same_stats(h.nodes[queue@[i] as int]),
            forall|i: int|
                0 <= i < k ==> (#[trigger] dst@.nodes[i]).num_actions == h.nodes[queue@[i] as int].num_actions,
            forall|i: int|
                0 <= i < k && (#[trigger] dst@.nodes[i]).num_actions > 0 ==> {
                    &&& (dst@.nodes[i].actions >= 0x8000_0000) == dst_half
                    &&& dst@.nodes[i].actions % 0x8000_0000 == bfs_queue(h, start, i as nat).len()
                },
            forall|i: int| 0 <= i < k ==> children_inside(dst@, i),
            forall|i: int| k <= i < queue@.len() ==> (#[trigger] dst@.nodes[i]).num_actions == 0,
        decreases cap - k,
    {
        let s = queue[k];
        let sp = NodePtr::new(src_half, s as u32);
        let n = src.node(sp).num_actions();
        let first = src.node(sp).actions();
        let first_copy = dst.used();
        let ghost q = queue@;
        proof {
            reveal_with_fuel(copy_fits_from, 1);
        }
        if n > 0 {
            if first.half() != src_half || first.idx() >= src_len || n > src_len - first.idx() {
                return NodePtr::null();
            }
            let mut j: usize = 0;
            while j < n
                invariant
                    src.wf(),
                    dst.wf(),
                    h == src@,
                    src_len == h.nodes.len(),
                    src_half == h.half,
                    dst_half == dst@.half,
                    dst_half == old(dst)@.half,
                    dst@.nodes.len() == old(dst)@.nodes.len(),
                    cap == dst@.nodes.len(),
                    q == bfs_queue(h, start, k as nat),
                    k < q.len(),
                    s == q[k as int],
                    s < src_len,
                    start == from.spec_idx(),
                    range_ok(h, s),
                    copy_fits_from(h, start, cap as nat, 0) == copy_fits_from(h, start, cap as nat, k as nat),
                    first_copy == q.len(),
                    n == h.nodes[s as int].num_actions,
                    first.raw() == h.nodes[s as int].actions,
                    first.spec_idx() + n <= src_len,
                    queue@ == q + child_indices(h, s).take(j as int),
                    queue@.len() == dst@.used,
                    j <= n,
                    q.len() + j <= cap,
                    forall|i: int| 0 <= i < queue@.len() ==> (#[trigger] queue@[i]) < src_len,
                    forall|i: int|
                        0 <= i < queue@.len() ==> (#[trigger] dst@.nodes[i]).same_stats(h.nodes[queue@[i] as int]),
                    forall|i: int|
                        0 <= i < k ==> (#[trigger] dst@.nodes[i]).num_actions == h.nodes[queue@[i] as int].num_actions,
                    forall|i: int|
                        0 <= i < k && (#[trigger] dst@.nodes[i]).num_actions > 0 ==> {
                            &&& (dst@.nodes[i].actions >= 0x8000_0000) == dst_half
                            &&& dst@.nodes[i].actions % 0x8000_0000 == bfs_queue(h, start, i as nat).len()
                        },
                    forall|i: int| 0 <= i < k ==> children_inside(dst@, i),
                    forall|i: int| k <= i < queue@.len() ==> (#[trigger] dst@.nodes[i]).num_actions == 0,
                decreases n - j,
            {
                let ghost before_push = dst@;
                let c = dst.push_new(GameState::Ongoing);
                if c.is_null() {
                    proof {
                        reveal_with_fuel(copy_fits_from, 1);
                        assert(q.len() + child_indices(h, s).len() > cap);
                        assert(!copy_fits_from(h, start, cap as nat, k as nat));
                    }
                    return NodePtr::null();
                }
                let child_idx = first.idx() + j;
                let child = NodePtr::new(src_half, child_idx as u32);
                dst.node_mut(c).copy_from(src.node(child));
                queue.push(child_idx);
                proof {
                    assert(child_indices(h, s)[j as int] == child_idx);
                    assert(queue@ =~= q + child_indices(h, s).take(j + 1));
                    assert forall|i: int| 0 <= i < k implies children_inside(dst@, i) by {
                        assert(children_inside(before_push, i));
                        assert(dst@.nodes[i] == before_push.nodes[i]);
                    }
                }
                j = j + 1;
            }
        }
        let ghost before = dst@;
        let target = NodePtr::new(dst_half, k as u32);
        let node = dst.node_mut(target);
        *node.actions_mut() = NodePtr::new(dst_half, first_copy as u32);
        node.set_num_actions(n);
        proof {
            assert(queue@ =~= bfs_queue(h, start, (k + 1) as nat));
            assert forall|i: int| 0 <= i < k + 1 implies children_inside(dst@, i) by {
                if i < k {
                    assert(children_inside(before, i));
                    assert(dst@.nodes[i] == before.nodes[i]);
                }
            }
        }
        k = k + 1;
    }
    proof {
        lemma_bfs_queue_head(h, start, k as nat);
    }
    root
}

} // verus!
