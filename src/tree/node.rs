use vstd::prelude::*;

use crate::state::GameState;

verus! {

/// Mask of the bit that selects which of the two tree halves a pointer lives in.
pub const HALF_BIT: u32 = 0x8000_0000;

/// Mask of the 31 bits that index into a half.
pub const IDX_MASK: u32 = 0x7FFF_FFFF;

/// The raw value of the pointer that refers to no node.
pub const NULL_RAW: u32 = 0xFFFF_FFFF;

/// A tagged index into one of the two halves of the node arena.
///
/// The top bit selects the half, the remaining 31 bits index into it.
/// The all-ones value is reserved for "no node".
#[derive(Clone, Copy, Debug, PartialEq, Eq, Structural)]
pub struct NodePtr(u32);

impl NodePtr {
    /// The raw 32-bit value of the pointer.
    pub closed spec fn raw(self) -> u32 {
        self.0
    }

    /// The half selected by the top bit.
    pub open spec fn spec_half(self) -> bool {
        self.raw() >= HALF_BIT
    }

    /// The index within the half, held in the low 31 bits.
    pub open spec fn spec_idx(self) -> nat {
        (self.raw() % 0x8000_0000) as nat
    }

    /// The pointer that refers to no node.
    pub fn null() -> (r: NodePtr)
        ensures
            r.raw() == NULL_RAW,
    {
        NodePtr(NULL_RAW)
    }

    pub fn is_null(self) -> (r: bool)
        ensures
            r == (self.raw() == NULL_RAW),
    {
        self.0 == NULL_RAW
    }

    /// The pointer to slot `idx` of the given half.
    pub fn new(half: bool, idx: u32) -> (r: NodePtr)
        ensures
            r.raw() == ((if half { HALF_BIT } else { 0u32 }) | idx),
            idx <= IDX_MASK ==> r.spec_half() == half && r.spec_idx() == idx,
    {
        let top: u32 = if half { 1u32 << 31u32 } else { 0u32 };
        assert((1u32 << 31u32) == 0x8000_0000u32) by (bit_vector);
        let raw = top | idx;
        assert(idx <= 0x7FFF_FFFFu32 ==> (0x8000_0000u32 | idx) >= 0x8000_0000u32
            && (0x8000_0000u32 | idx) % 0x8000_0000u32 == idx) by (bit_vector);
        assert(idx <= 0x7FFF_FFFFu32 ==> (0u32 | idx) < 0x8000_0000u32
            && (0u32 | idx) % 0x8000_0000u32 == idx) by (bit_vector);
        NodePtr(raw)
    }

    pub fn half(self) -> (r: bool)
        ensures
            r == self.spec_half(),
    {
        let raw = self.0;
        assert((raw & 0x8000_0000u32 > 0) == (raw >= 0x8000_0000u32)) by (bit_vector);
        raw & HALF_BIT > 0
    }

    pub fn idx(self) -> (r: usize)
        ensures
            r == self.spec_idx(),
    {
        let raw = self.0;
        assert(raw & 0x7FFF_FFFFu32 == raw % 0x8000_0000u32) by (bit_vector);
        (raw & IDX_MASK) as usize
    }

    pub fn inner(self) -> (r: u32)
        ensures
            r == self.raw(),
    {
        self.0
    }

    pub fn from_raw(inner: u32) -> (r: NodePtr)
        ensures
            r.raw() == inner,
    {
        NodePtr(inner)
    }

    /// The pointer `rhs` slots further on, wrapping on overflow of the raw
    /// value.
    pub fn offset(self, rhs: usize) -> (r: NodePtr)
        ensures
            r.raw() == (self.raw() as int + rhs as int) % 0x1_0000_0000,
    {
        let step = ((rhs as u64) % 0x1_0000_0000u64) as u32;
        NodePtr(self.0.wrapping_add(step))
    }
}

impl std::ops::Add<usize> for NodePtr {
    type Output = NodePtr;

    /// The pointer `rhs` slots further on; see `offset`.
    fn add(self, rhs: usize) -> (r: NodePtr)
        ensures
            r.raw() == (self.raw() as int + rhs as int) % 0x1_0000_0000,
    {
        self.offset(rhs)
    }
}

impl vstd::std_specs::ops::AddSpecImpl<usize> for NodePtr {
    open spec fn obeys_add_spec() -> bool {
        true
    }

    open spec fn add_req(self, rhs: usize) -> bool {
        true
    }

    closed spec fn add_spec(self, rhs: usize) -> NodePtr {
        NodePtr(((self.0 as int + rhs as int) % 0x1_0000_0000) as u32)
    }
}

/// Fixed-point one for `q` and `sq_q`: a value `x` stands for `x / Q_ONE`.
pub const Q_ONE: u32 = 0xFFFF_FFFF;

/// Fixed-point one for a prior: a value `p` stands for `p / POLICY_ONE`.
pub const POLICY_ONE: u16 = 0xFFFF;

/// The running mean over `count` samples after one more sample `x`,
/// rounded down.
pub open spec fn mean_step(mean: int, count: int, x: int) -> int {
    (mean * count + x) / (count + 1)
}

/// The square of a fixed-point fraction, in the same fixed point, rounded down.
pub open spec fn fixed_square(x: int) -> int {
    x * x / (Q_ONE as int)
}

/// The variance of the results from their mean and mean square, never negative.
pub open spec fn variance(q: int, sq_q: int) -> int {
    if sq_q > fixed_square(q) {
        sq_q - fixed_square(q)
    } else {
        0
    }
}

/// A node's statistics as plain values; `actions` is the raw pointer to the
/// first child.
pub struct NodeView {
    pub actions: u32,
    pub num_actions: u8,
    pub state: GameState,
    pub threads: u16,
    pub mov: u16,
    pub policy: u16,
    pub visits: i32,
    pub q: u32,
    pub sq_q: u32,
    pub gini_impurity: u32,
}

/// A node of the search tree: the edge that reached it and the statistics of
/// the subtree below it.
///
/// `q` and `sq_q` are fractions of `Q_ONE`, `policy` a fraction of
/// `POLICY_ONE`, and `gini_impurity` the bit pattern of a 32-bit float.
/// Children are the `num_actions` consecutive nodes starting at `actions`.
#[derive(Debug)]
pub struct Node {
    actions: NodePtr,
    num_actions: u8,
    state: GameState,
    threads: u16,
    mov: u16,
    policy: u16,
    visits: i32,
    q: u32,
    sq_q: u32,
    gini_impurity: u32,
}

impl View for Node {
    type V = NodeView;

    closed spec fn view(&self) -> NodeView {
        NodeView {
            actions: self.actions.raw(),
            num_actions: self.num_actions,
            state: self.state,
            threads: self.threads,
            mov: self.mov,
            policy: self.policy,
            visits: self.visits,
            q: self.q,
            sq_q: self.sq_q,
            gini_impurity: self.gini_impurity,
        }
    }
}

/// The view of a node as `Node::new(state)` makes it.
pub open spec fn fresh_view(state: GameState) -> NodeView {
    NodeView {
        actions: NULL_RAW,
        num_actions: 0,
        state,
        threads: 0,
        mov: 0,
        policy: 0,
        visits: 0,
        q: 0,
        sq_q: 0,
        gini_impurity: 0,
    }
}

/// The view of `v` after `Node::clear`: mov and policy are kept.
pub open spec fn cleared_view(v: NodeView) -> NodeView {
    NodeView { mov: v.mov, policy: v.policy, ..fresh_view(GameState::Ongoing) }
}

/// The view of `dst` after copying the statistics of `src` into it; the
/// children of `dst` are kept.
pub open spec fn copied_view(dst: NodeView, src: NodeView) -> NodeView {
    NodeView { actions: dst.actions, num_actions: dst.num_actions, ..src }
}

impl NodeView {
    /// Every node counts a number of completed updates.
    pub open spec fn wf(self) -> bool {
        self.visits >= 0
    }

    /// The fields that a copy carries from one node to another.
    pub open spec fn same_stats(self, other: NodeView) -> bool {
        &&& self.threads == other.threads
        &&& self.mov == other.mov
        &&& self.policy == other.policy
        &&& self.state == other.state
        &&& self.gini_impurity == other.gini_impurity
        &&& self.visits == other.visits
        &&& self.q == other.q
        &&& self.sq_q == other.sq_q
    }
}

/// The running mean of fractions of one stays a fraction of one.
pub proof fn lemma_mean_step_in_unit(mean: int, count: int, x: int)
    requires
        0 <= mean <= Q_ONE,
        0 <= x <= Q_ONE,
        0 <= count,
    ensures
        0 <= mean_step(mean, count, x) <= Q_ONE,
{
    assert(0 <= mean * count + x <= (Q_ONE as int) * (count + 1)) by (nonlinear_arith)
        requires
            0 <= mean <= Q_ONE,
            0 <= x <= Q_ONE,
            0 <= count,
    ;
    assert(0 <= (mean * count + x) / (count + 1) <= Q_ONE) by (nonlinear_arith)
        requires
            0 <= mean * count + x <= (Q_ONE as int) * (count + 1),
            0 <= count,
    ;
}

/// The square of a fraction of one stays a fraction of one.
pub proof fn lemma_fixed_square_in_unit(x: int)
    requires
        0 <= x <= Q_ONE,
    ensures
        0 <= fixed_square(x) <= x,
{
    assert(0 <= x * x <= x * (Q_ONE as int)) by (nonlinear_arith)
        requires
            0 <= x <= Q_ONE,
    ;
    assert(0 <= x * x / (Q_ONE as int) <= x) by (nonlinear_arith)
        requires
            0 <= x * x <= x * (Q_ONE as int),
    ;
}

/// A node's thread count after a run of virtual-loss events, in order:
/// `true` for an `inc_threads`, `false` for a `dec_threads`.
pub open spec fn after_thread_events(threads: u16, events: Seq<bool>) -> u16
    decreases events.len(),
{
    if events.len() == 0 {
        threads
    } else {
        let t = after_thread_events(threads, events.drop_last());
        if events.last() {
            t.wrapping_add(1)
        } else {
            t.wrapping_sub(1)
        }
    }
}

/// The number of increments minus the number of decrements in a run of
/// virtual-loss events.
pub open spec fn thread_balance(events: Seq<bool>) -> int
    decreases events.len(),
{
    if events.len() == 0 {
        0
    } else {
        thread_balance(events.drop_last()) + if events.last() { 1int } else { -1int }
    }
}

/// A run of virtual-loss events moves the thread count by its balance,
/// modulo the counter's width.
pub proof fn lemma_thread_events_balance(threads: u16, events: Seq<bool>)
    ensures
        after_thread_events(threads, events) as int == (threads as int + thread_balance(events)) % 0x1_0000,
    decreases events.len(),
{
    if events.len() > 0 {
        lemma_thread_events_balance(threads, events.drop_last());
        let b = threads as int + thread_balance(events.drop_last());
        let t = after_thread_events(threads, events.drop_last());
        if events.last() {
            assert(t.wrapping_add(1) as int == (t as int + 1) % 0x1_0000);
            vstd::arithmetic::div_mod::lemma_add_mod_noop(b, 1, 0x1_0000);
            vstd::arithmetic::div_mod::lemma_mod_twice(b, 0x1_0000);
            vstd::arithmetic::div_mod::lemma_add_mod_noop(t as int, 1, 0x1_0000);
        } else {
            assert(t.wrapping_sub(1) as int == (t as int - 1) % 0x1_0000);
            vstd::arithmetic::div_mod::lemma_sub_mod_noop(b, 1, 0x1_0000);
            vstd::arithmetic::div_mod::lemma_mod_twice(b, 0x1_0000);
            vstd::arithmetic::div_mod::lemma_sub_mod_noop(t as int, 1, 0x1_0000);
        }
    }
}

/// Virtual loss is undone: when every worker that entered a node through
/// `inc_threads` has left it through `dec_threads`, in any interleaving, the
/// node's thread count is back where it started, so a quiescent tree whose
/// counts started at zero has zero everywhere.
pub proof fn lemma_threads_paired(threads: u16, events: Seq<bool>)
    requires
        thread_balance(events) == 0,
    ensures
        after_thread_events(threads, events) == threads,
{
    lemma_thread_events_balance(threads, events);
}

/// Copying a node's statistics into another node and straight back gives the
/// first node back bit for bit; the copy in between carries the same
/// statistics, and each node keeps its children.
pub proof fn lemma_copy_round_trip(a: NodeView, b: NodeView)
    ensures
        copied_view(b, a).same_stats(a),
        copied_view(b, a).actions == b.actions,
        copied_view(b, a).num_actions == b.num_actions,
        copied_view(a, copied_view(b, a)) == a,
{
}

/// The variance lies between zero and the mean square.
pub proof fn lemma_variance_in_unit(q: int, sq_q: int)
    requires
        0 <= q <= Q_ONE,
        0 <= sq_q <= Q_ONE,
    ensures
        0 <= variance(q, sq_q) <= sq_q,
{
    lemma_fixed_square_in_unit(q);
}

impl Node {
    pub fn new(state: GameState) -> (r: Node)
        ensures
            r@ == fresh_view(state),
    {
        Node {
            actions: NodePtr::null(),
            num_actions: 0,
            state,
            threads: 0,
            mov: 0,
            policy: 0,
            visits: 0,
            q: 0,
            sq_q: 0,
            gini_impurity: 0,
        }
    }

    /// Folds one more result into the running means, as back-propagation
    /// does, and returns the new `q`.
    ///
    /// `result` is a fraction of `Q_ONE`.
    pub fn update(&mut self, result: u32) -> (r: u32)
        requires
            old(self)@.wf(),
            old(self)@.visits < i32::MAX,
        ensures
            final(self)@ == (NodeView {
                visits: (old(self)@.visits + 1) as i32,
                q: mean_step(old(self)@.q as int, old(self)@.visits as int, result as int) as u32,
                sq_q: mean_step(
                    old(self)@.sq_q as int,
                    old(self)@.visits as int,
                    fixed_square(result as int),
                ) as u32,
                ..old(self)@
            }),
            final(self)@.q == mean_step(old(self)@.q as int, old(self)@.visits as int, result as int),
            final(self)@.sq_q == mean_step(
                old(self)@.sq_q as int,
                old(self)@.visits as int,
                fixed_square(result as int),
            ),
            r == final(self)@.q,
    {
        let v = self.visits as u64;
        self.visits = self.visits + 1;
        let one = Q_ONE as u64;
        let res = result as u64;
        proof {
            lemma_fixed_square_in_unit(result as int);
            lemma_mean_step_in_unit(self.q as int, v as int, result as int);
            lemma_mean_step_in_unit(self.sq_q as int, v as int, fixed_square(result as int));
            assert(self.q as int * v as int <= 0xFFFF_FFFF * 0x7FFF_FFFF) by (nonlinear_arith)
                requires
                    self.q as int <= 0xFFFF_FFFF,
                    v as int <= 0x7FFF_FFFF,
            ;
            assert(self.sq_q as int * v as int <= 0xFFFF_FFFF * 0x7FFF_FFFF) by (nonlinear_arith)
                requires
                    self.sq_q as int <= 0xFFFF_FFFF,
                    v as int <= 0x7FFF_FFFF,
            ;
            assert(res as int * res as int <= 0xFFFF_FFFF * 0xFFFF_FFFF) by (nonlinear_arith)
                requires
                    res as int <= 0xFFFF_FFFF,
            ;
        }
        let sq_res = res * res / one;
        let q = (self.q as u64 * v + res) / (v + 1);
        let sq_q = (self.sq_q as u64 * v + sq_res) / (v + 1);
        self.q = q as u32;
        self.sq_q = sq_q as u32;
        self.q
    }

    /// Copies every statistic of `other` into this node, keeping its children.
    pub fn copy_from(&mut self, other: &Node)
        ensures
            final(self)@ == copied_view(old(self)@, other@),
    {
        self.threads = other.threads;
        self.mov = other.mov;
        self.policy = other.policy;
        self.state = other.state;
        self.gini_impurity = other.gini_impurity;
        self.visits = other.visits;
        self.q = other.q;
        self.sq_q = other.sq_q;
    }

    /// Resets the node to an unexpanded, unvisited, ongoing one; its move and
    /// prior are kept.
    pub fn clear(&mut self)
        ensures
            final(self)@ == cleared_view(old(self)@),
    {
        self.clear_actions();
        self.set_state(GameState::Ongoing);
        self.set_gini_impurity(0);
        self.visits = 0;
        self.q = 0;
        self.sq_q = 0;
        self.threads = 0;
    }

    /// Makes the node a fresh one reached by `mov` with prior `policy`.
    pub fn set_new(&mut self, mov: u16, policy: u16)
        ensures
            final(self)@ == (NodeView { mov, policy, ..fresh_view(GameState::Ongoing) }),
    {
        self.clear();
        self.mov = mov;
        self.set_policy(policy);
    }

    pub fn is_terminal(&self) -> (r: bool)
        ensures
            r == (self@.state != GameState::Ongoing),
    {
        self.state() != GameState::Ongoing
    }

    pub fn num_actions(&self) -> (r: usize)
        ensures
            r == self@.num_actions,
    {
        self.num_actions as usize
    }

    pub fn set_num_actions(&mut self, num: usize)
        requires
            num <= u8::MAX,
        ensures
            final(self)@ == (NodeView { num_actions: num as u8, ..old(self)@ }),
    {
        self.num_actions = num as u8;
    }

    pub fn threads(&self) -> (r: u16)
        ensures
            r == self@.threads,
    {
        self.threads
    }

    pub fn visits(&self) -> (r: i32)
        ensures
            r == self@.visits,
    {
        self.visits
    }

    /// The mean result, as a fraction of `Q_ONE`.
    pub fn q(&self) -> (r: u32)
        ensures
            r == self@.q,
    {
        self.q
    }

    /// The mean squared result, as a fraction of `Q_ONE`.
    pub fn sq_q(&self) -> (r: u32)
        ensures
            r == self@.sq_q,
    {
        self.sq_q
    }

    /// The variance of the results, as a fraction of `Q_ONE`.
    pub fn var(&self) -> (r: u32)
        ensures
            r == variance(self@.q as int, self@.sq_q as int),
    {
        let q = self.q as u64;
        proof {
            lemma_fixed_square_in_unit(q as int);
            assert(q as int * q as int <= 0xFFFF_FFFF * 0xFFFF_FFFF) by (nonlinear_arith)
                requires
                    q as int <= 0xFFFF_FFFF,
            ;
        }
        let q2 = q * q / (Q_ONE as u64);
        let sq = self.sq_q as u64;
        if sq > q2 {
            (sq - q2) as u32
        } else {
            0
        }
    }

    /// Marks one more worker as passing through this node. The count wraps
    /// as an atomic counter does.
    pub fn inc_threads(&mut self)
        ensures
            final(self)@ == (NodeView { threads: old(self)@.threads.wrapping_add(1), ..old(self)@ }),
    {
        self.threads = self.threads.wrapping_add(1);
    }

    /// Marks one worker as having left this node. The count wraps as an
    /// atomic counter does.
    pub fn dec_threads(&mut self)
        ensures
            final(self)@ == (NodeView { threads: old(self)@.threads.wrapping_sub(1), ..old(self)@ }),
    {
        self.threads = self.threads.wrapping_sub(1);
    }

    /// The pointer to the first child.
    pub fn actions(&self) -> (r: NodePtr)
        ensures
            r.raw() == self@.actions,
    {
        self.actions
    }

    /// The pointer to the first child, for the expansion that sets it.
    pub fn actions_mut(&mut self) -> (r: &mut NodePtr)
        ensures
            r.raw() == old(self)@.actions,
            final(self)@ == (NodeView { actions: final(r).raw(), ..old(self)@ }),
    {
        &mut self.actions
    }

    pub fn state(&self) -> (r: GameState)
        ensures
            r == self@.state,
    {
        self.state
    }

    pub fn set_state(&mut self, state: GameState)
        ensures
            final(self)@ == (NodeView { state, ..old(self)@ }),
    {
        self.state = state;
    }

    /// The prior of the move that reached this node, as a fraction of
    /// `POLICY_ONE`.
    pub fn policy(&self) -> (r: u16)
        ensures
            r == self@.policy,
    {
        self.policy
    }

    pub fn set_policy(&mut self, policy: u16)
        ensures
            final(self)@ == (NodeView { policy, ..old(self)@ }),
    {
        self.policy = policy;
    }

    pub fn has_children(&self) -> (r: bool)
        ensures
            r == (self@.num_actions != 0),
    {
        self.num_actions() != 0
    }

    pub fn is_not_expanded(&self) -> (r: bool)
        ensures
            r == (self@.state == GameState::Ongoing && self@.num_actions == 0),
    {
        self.state() == GameState::Ongoing && self.num_actions() == 0
    }

    /// The bit pattern of the policy's Gini impurity.
    pub fn gini_impurity(&self) -> (r: u32)
        ensures
            r == self@.gini_impurity,
    {
        self.gini_impurity
    }

    pub fn set_gini_impurity(&mut self, gini_impurity: u32)
        ensures
            final(self)@ == (NodeView { gini_impurity, ..old(self)@ }),
    {
        self.gini_impurity = gini_impurity;
    }

    /// Forgets the children.
    pub fn clear_actions(&mut self)
        ensures
            final(self)@ == (NodeView { actions: NULL_RAW, num_actions: 0, ..old(self)@ }),
    {
        self.actions = NodePtr::null();
        self.num_actions = 0;
    }

    /// The move that reached this node from its parent.
    pub fn parent_move(&self) -> (r: u16)
        ensures
            r == self@.mov,
    {
        self.mov
    }
}

} // verus!
