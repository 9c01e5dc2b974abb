//! Implements a tree in which statistics of parts of an input are stored.

use std::collections::BTreeMap;

use vstd::prelude::*;
use vstd::std_specs::cmp::OrdSpec;
use vstd::std_specs::iter::IteratorSpec;

use crate::statistics::regions::window_offsets;
use crate::statistics::tree::{
    distance_from_higher_zone, lemma_tier_size_next, node_zone, lemma_tier_size_pos, lemma_tier_size_power_of_two, tier_size, Tier,
    BRANCHING_FACTOR, MAX_TIER,
};
use crate::window::{align_down, spec_align_down, Window, WindowView};

verus! {

broadcast use vstd::std_specs::btree::group_btree_axioms;

/// Statistics that can be stored in a [`StatisticsTree`].
///
/// Statistics cover a set of offsets of the input; statistics of disjoint offsets can be added.
pub trait TreeStatistics: Sized {
    /// The statistics are consistent.
    spec fn wf(&self) -> bool;

    /// The offsets of the input that the statistics cover.
    spec fn covered(&self) -> Set<u64>;

    /// The memory that statistics of this kind take, whatever they hold.
    spec fn memory_per_node() -> nat;

    /// The count that the statistics hold under `key`.
    spec fn count(&self, key: int) -> nat;

    /// Creates statistics that cover nothing.
    fn empty() -> (r: Self)
        ensures
            r.wf(),
            r.covered() == Set::<u64>::empty(),
            forall|key: int| #[trigger] r.count(key) == 0,
    ;

    /// The approximate number of bytes that the statistics take in memory.
    fn approximate_memory_usage(&self) -> (r: u64)
        ensures
            r == Self::memory_per_node(),
    ;

    /// Adds statistics of offsets that these statistics do not cover.
    fn add_assign(&mut self, rhs: &Self)
        requires
            old(self).wf(),
            rhs.wf(),
            old(self).covered().disjoint(rhs.covered()),
        ensures
            final(self).wf(),
            final(self).covered() == old(self).covered().union(rhs.covered()),
            forall|key: int| #[trigger] final(self).count(key) == old(self).count(key) + rhs.count(key),
    ;
}

/// The sum of `g` over the finite set `s`.
pub open spec fn sum_over(s: Set<u64>, g: spec_fn(u64) -> int) -> int {
    s.fold(0int, |acc: int, o: u64| acc + g(o))
}

/// Adding an element to a set adds its term to the sum.
pub proof fn lemma_sum_insert(s: Set<u64>, g: spec_fn(u64) -> int, a: u64)
    requires
        s.finite(),
        !s.contains(a),
    ensures
        sum_over(s.insert(a), g) == sum_over(s, g) + g(a),
{
    let f = |acc: int, o: u64| acc + g(o);
    assert(vstd::set::fold::is_fun_commutative(f));
    vstd::set::fold::lemma_fold_insert(s, 0int, f, a);
}

/// Sums of functions that agree on the set are equal.
pub proof fn lemma_sum_agree(s: Set<u64>, g1: spec_fn(u64) -> int, g2: spec_fn(u64) -> int)
    requires
        s.finite(),
        forall|o: u64| s.contains(o) ==> g1(o) == g2(o),
    ensures
        sum_over(s, g1) == sum_over(s, g2),
    decreases s.len(),
{
    if s.len() == 0 {
        assert(s =~= Set::<u64>::empty());
        vstd::set::fold::lemma_fold_empty(0int, |acc: int, o: u64| acc + g1(o));
        vstd::set::fold::lemma_fold_empty(0int, |acc: int, o: u64| acc + g2(o));
    } else {
        let a = s.choose();
        let r = s.remove(a);
        lemma_sum_agree(r, g1, g2);
        assert(r.insert(a) =~= s);
        lemma_sum_insert(r, g1, a);
        lemma_sum_insert(r, g2, a);
    }
}

/// The sum over the empty set is zero.
pub proof fn lemma_sum_empty(g: spec_fn(u64) -> int)
    ensures
        sum_over(Set::<u64>::empty(), g) == 0,
{
    vstd::set::fold::lemma_fold_empty(0int, |acc: int, o: u64| acc + g(o));
}

/// The count that the statistics of each node hold under `key`.
pub open spec fn node_count<S: TreeStatistics>(nodes: Map<u64, StatisticsTreeNode<S>>, key: int) -> spec_fn(u64) -> int {
    |o: u64| nodes[o].stats().count(key) as int
}

/// The sum, over the nodes, of the counts that their statistics hold under `key`.
pub open spec fn total_count<S: TreeStatistics>(nodes: Map<u64, StatisticsTreeNode<S>>, key: int) -> int {
    sum_over(nodes.dom(), |o: u64| nodes[o].stats().count(key) as int)
}

/// Replacing two nodes by one whose count is the sum of theirs keeps the total count.
proof fn lemma_merge_total<S: TreeStatistics>(
    before: Map<u64, StatisticsTreeNode<S>>,
    after: Map<u64, StatisticsTreeNode<S>>,
    first: u64,
    second: u64,
    key: int,
)
    requires
        before.dom().finite(),
        first != second,
        before.contains_key(first),
        before.contains_key(second),
        after.dom() == before.dom().remove(second),
        after[first].stats().count(key) == before[first].stats().count(key) + before[second].stats().count(key),
        forall|o: u64| #[trigger] after.contains_key(o) && o != first ==> after[o] == before[o],
    ensures
        total_count(after, key) == total_count(before, key),
{
    let g1 = |o: u64| before[o].stats().count(key) as int;
    let g2 = |o: u64| after[o].stats().count(key) as int;
    let rest = before.dom().remove(first).remove(second);
    assert(rest.insert(second).insert(first) =~= before.dom());
    assert(rest.insert(first) =~= after.dom());
    lemma_sum_insert(rest, g1, second);
    lemma_sum_insert(rest.insert(second), g1, first);
    lemma_sum_insert(rest, g2, first);
    assert forall|o: u64| rest.contains(o) implies g1(o) == g2(o) by {
        assert(after.contains_key(o));
    }
    lemma_sum_agree(rest, g1, g2);
}

/// The window of a node of the given tier at the given offset.
pub open spec fn node_window(offset: int, tier: Tier) -> WindowView {
    WindowView { start: offset, end: offset + tier_size(tier.level()) }
}

/// The offsets that the windows of the nodes span.
pub open spec fn node_offsets<S>(nodes: Map<u64, StatisticsTreeNode<S>>) -> Set<int> {
    Set::new(
        |x: int|
            exists|o: u64| #[trigger]
                nodes.contains_key(o) && node_window(o as int, nodes[o].tier()).start <= x
                    < node_window(o as int, nodes[o].tier()).end,
    )
}

/// The keys of the map in increasing order.
pub(crate) fn sorted_keys<V>(map: &BTreeMap<u64, V>) -> (r: Vec<u64>)
    ensures
        r@.to_set() == map@.dom(),
        r@.len() == map@.dom().len(),
        forall|i: int, j: int| 0 <= i < j < r@.len() ==> r@[i] < r@[j],
{
    let keys = map.keys();
    let ghost remaining = keys.remaining();
    let mut out: Vec<u64> = Vec::new();
    for k in it: keys
        invariant
            it.seq() == remaining,
            out@.len() == it.index(),
            forall|i: int| 0 <= i < out@.len() ==> out@[i] == *remaining[i],
    {
        out.push(*k);
    }
    proof {
        broadcast use vstd::laws_cmp::group_laws_cmp;

        assert(out@ =~= remaining.unref());
        assert(vstd::laws_cmp::obeys_cmp::<u64>());
        assert(vstd::laws_cmp::obeys_cmp::<&u64>());
        vstd::std_specs::btree::axiom_increasing_seq_meaning(remaining);
        assert forall|i: int, j: int| 0 <= i < j < out@.len() implies out@[i] < out@[j] by {
            assert(OrdSpec::cmp_spec(&remaining[i], &remaining[j]) is Less);
        }
        out@.unique_seq_to_set();
    }
    out
}

/// A node in the statistics tree.
pub struct StatisticsTreeNode<S> {
    /// The current tier of the node.
    ///
    /// Lower is smaller: a node of tier `0` covers `LEAF_NODE_SIZE` bytes and each tier above
    /// covers twice as many.
    tier: Tier,
    /// The statistics of this node.
    statistics: S,
}

impl<S> StatisticsTreeNode<S> {
    /// The tier of the node.
    pub closed spec fn tier(&self) -> Tier {
        self.tier
    }

    /// The statistics of the node.
    pub closed spec fn stats(&self) -> S {
        self.statistics
    }
}

/// Stores statistics for parts of an input in a tree.
///
/// Its invariants (see [`StatisticsTree::wf`]):
///
/// - **Alignment**: every node's offset is aligned to its tier's size.
/// - **Non-overlapping ranges**: no two nodes have overlapping byte ranges.
/// - **Sparse coverage**: the tree may have gaps.
/// - **Memory usage consistency**: the memory usage is the sum of the memory usage of the
///   stored nodes.
pub struct StatisticsTree<S> {
    /// The nodes in the tree, by their offset.
    nodes: BTreeMap<u64, StatisticsTreeNode<S>>,
    /// The current approximate memory usage of the tree.
    memory_usage: u64,
}

/// The node at the given offset is well placed: its tier has a size, it is aligned to that size,
/// it ends within the 64-bit offsets and its statistics cover only its own window.
pub open spec fn node_ok<S: TreeStatistics>(offset: u64, node: StatisticsTreeNode<S>) -> bool {
    &&& node.tier().level() <= MAX_TIER
    &&& offset as int % tier_size(node.tier().level()) == 0
    &&& offset + tier_size(node.tier().level()) <= u64::MAX
    &&& node.stats().wf()
    &&& node.stats().covered().subset_of(window_offsets(node_window(offset as int, node.tier())))
}

/// The offsets of the nodes of the map whose windows overlap the given window.
pub open spec fn overlapping<S>(nodes: Map<u64, StatisticsTreeNode<S>>, window: WindowView) -> Set<
    u64,
> {
    Set::new(
        |o: u64| nodes.contains_key(o) && node_window(o as int, nodes[o].tier()).overlaps(window),
    )
}

/// The offset of the parent of a node of the given tier at the given offset.
pub open spec fn parent_start(offset: int, tier: Tier) -> int {
    spec_align_down(offset, tier_size(tier.level() + 1))
}

/// The offset of the `i`th child of the given tier of a parent node at the given offset.
pub open spec fn child_start(parent: int, tier: Tier, i: int) -> int {
    parent + i * tier_size(tier.level())
}

/// The offsets of the children of the given tier of a parent node at the given offset.
pub open spec fn children(parent: int, tier: Tier) -> Set<u64> {
    Set::new(
        |o: u64| exists|i: int| 0 <= i < BRANCHING_FACTOR && o == #[trigger] child_start(parent, tier, i),
    )
}

/// The node at the offset can be joined with its siblings into its parent: the parent's tier has
/// a size and every sibling is a node of the same tier.
pub open spec fn can_promote<S>(nodes: Map<u64, StatisticsTreeNode<S>>, offset: u64) -> bool {
    &&& nodes.contains_key(offset)
    &&& nodes[offset].tier().level() < MAX_TIER
    &&& forall|o: u64| #[trigger]
        children(parent_start(offset as int, nodes[offset].tier()), nodes[offset].tier()).contains(o)
            ==> nodes.contains_key(o) && nodes[o].tier() == nodes[offset].tier()
}

/// A node that lies within the window covers the offset.
pub open spec fn covered_by_node_in<S>(
    nodes: Map<u64, StatisticsTreeNode<S>>,
    x: int,
    window: WindowView,
) -> bool {
    exists|o: u64| #[trigger]
        nodes.contains_key(o) && node_window(o as int, nodes[o].tier()).contains(x)
            && window.contains_window(node_window(o as int, nodes[o].tier()))
}

/// The maximum tier difference allowed between adjacent priority zones during garbage
/// collection. Prevents outer zones from being coarsened so aggressively that large jumps require
/// full recomputation.
pub const MAX_ZONE_TIER_GAP: u64 = 2;

/// The offset lies in the first `zone` windows and, unless they are all of them, not in the
/// next one.
pub open spec fn is_zone(offset: u64, windows: Seq<Window>, zone: int) -> bool {
    &&& 0 <= zone <= windows.len()
    &&& forall|i: int| 0 <= i < zone ==> (#[trigger] windows[i])@.contains(offset as int)
    &&& zone < windows.len() ==> !windows[zone]@.contains(offset as int)
}

/// The order in which garbage collection tries to promote nodes, for candidates given as
/// `(tier_adjusted, distance, offset)`: lower adjusted tiers first (the tier plus
/// `MAX_ZONE_TIER_GAP` per zone, which interleaves the zones), then nodes farther from the next
/// higher-priority zone first, then lower offsets first.
pub open spec fn gc_before(a: (u128, u64, u64), b: (u128, u64, u64)) -> bool {
    a.0 < b.0 || (a.0 == b.0 && (a.1 > b.1 || (a.1 == b.1 && a.2 < b.2)))
}

/// Sorts the candidates of garbage collection by [`gc_before`].
fn sort_candidates(candidates: &Vec<(u128, u64, u64)>) -> (r: Vec<(u128, u64, u64)>)
    ensures
        r@.len() == candidates@.len(),
        forall|i: int, j: int| 0 <= i < j < r@.len() ==> !gc_before(r@[j], r@[i]),
        forall|x: (u128, u64, u64)| r@.contains(x) <==> candidates@.contains(x),
{
    let mut out: Vec<(u128, u64, u64)> = Vec::new();
    let mut i: usize = 0;
    while i < candidates.len()
        invariant
            i <= candidates@.len(),
            out@.len() == i,
            forall|a: int, b: int| 0 <= a < b < out@.len() ==> !gc_before(out@[b], out@[a]),
            forall|x: (u128, u64, u64)| out@.contains(x) <==> candidates@.take(i as int).contains(x),
        decreases candidates@.len() - i,
    {
        let c = candidates[i];
        let mut p: usize = 0;
        while p < out.len() && !(c.0 < out[p].0 || (c.0 == out[p].0 && (c.1 > out[p].1 || (c.1
            == out[p].1 && c.2 < out[p].2))))
            invariant
                p <= out@.len(),
                forall|q: int| 0 <= q < p ==> !gc_before(c, #[trigger] out@[q]),
            decreases out@.len() - p,
        {
            p = p + 1;
        }
        let ghost before = out@;
        out.insert(p, c);
        proof {
            before.insert_ensures(p as int, c);
            assert forall|a: int, b: int| 0 <= a < b < out@.len() implies !gc_before(out@[b], out@[a]) by {
                if b < p {
                } else if a < p && b == p {
                } else if a < p {
                    assert(out@[b] == before[b - 1]);
                } else if a == p {
                    assert(out@[b] == before[b - 1]);
                    assert(!gc_before(before[b - 1], before[p as int]));
                } else {
                    assert(out@[a] == before[a - 1]);
                    assert(out@[b] == before[b - 1]);
                }
            }
            assert forall|x: (u128, u64, u64)| out@.contains(x) <==> candidates@.take(i + 1).contains(x) by {
                assert(candidates@.take(i + 1) =~= candidates@.take(i as int).push(c));
                let longer = candidates@.take(i + 1);
                let shorter = candidates@.take(i as int);
                if longer.contains(x) && x != c {
                    let k = choose|k: int| 0 <= k < longer.len() && #[trigger] longer[k] == x;
                    assert(shorter[k] == x);
                    assert(before.contains(x));
                }
                if shorter.contains(x) {
                    let k = choose|k: int| 0 <= k < shorter.len() && #[trigger] shorter[k] == x;
                    assert(longer[k] == x);
                }
                if x == c {
                    assert(candidates@.take(i + 1)[i as int] == x);
                }
                if out@.contains(x) {
                    let k = choose|k: int| 0 <= k < out@.len() && out@[k] == x;
                    if k < p {
                        assert(before.contains(x));
                    } else if k > p {
                        assert(before[k - 1] == x);
                        assert(before.contains(x));
                    }
                }
                if before.contains(x) {
                    let k = choose|k: int| 0 <= k < before.len() && before[k] == x;
                    if k < p {
                        assert(out@[k] == x);
                    } else {
                        assert(out@[k + 1] == x);
                    }
                }
                if x == c {
                    assert(out@[p as int] == x);
                }
            }
        }
        i = i + 1;
    }
    proof {
        assert(candidates@.take(candidates@.len() as int) =~= candidates@);
    }
    out
}

/// One node more or less changes the total by the size of one node.
proof fn lemma_mul_step(n: nat, m: nat)
    ensures
        (n + 1) * m == n * m + m,
        n > 0 ==> (n - 1) * m == n * m - m,
        n * m <= (n + 1) * m,
{
    assert((n + 1) * m == n * m + m) by (nonlinear_arith);
    if n > 0 {
        assert((n - 1) * m == n * m - m) by (nonlinear_arith)
            requires
                n > 0,
        ;
    }
}

impl<S: TreeStatistics> StatisticsTree<S> {
    /// The nodes of the tree by their offset.
    pub closed spec fn nodes(&self) -> Map<u64, StatisticsTreeNode<S>> {
        self.nodes@
    }

    /// The memory usage that the tree records.
    pub closed spec fn memory(&self) -> nat {
        self.memory_usage as nat
    }

    /// The invariants of the tree.
    pub open spec fn wf(&self) -> bool {
        &&& self.nodes().dom().finite()
        &&& forall|o: u64| #[trigger] self.nodes().contains_key(o) ==> node_ok(o, self.nodes()[o])
        &&& forall|a: u64, b: u64|
            #![trigger self.nodes().contains_key(a), self.nodes().contains_key(b)]
            self.nodes().contains_key(a) && self.nodes().contains_key(b) && a != b ==> !node_window(
                a as int,
                self.nodes()[a].tier(),
            ).overlaps(node_window(b as int, self.nodes()[b].tier()))
        &&& self.memory() == self.nodes().dom().len() * S::memory_per_node()
    }

    /// Creates a new statistics tree.
    pub fn new() -> (r: StatisticsTree<S>)
        ensures
            r.wf(),
            r.nodes() == Map::<u64, StatisticsTreeNode<S>>::empty(),
    {
        let r = StatisticsTree { nodes: BTreeMap::new(), memory_usage: 0 };
        proof {
            assert(r.nodes().dom() =~= Set::<u64>::empty());
        }
        r
    }

    /// Removes the node at the given offset, which the tree holds, and returns it.
    fn remove_node(&mut self, offset: u64) -> (r: StatisticsTreeNode<S>)
        requires
            old(self).nodes().dom().finite(),
            old(self).memory() == old(self).nodes().dom().len() * S::memory_per_node(),
            old(self).nodes().contains_key(offset),
        ensures
            r == old(self).nodes()[offset],
            final(self).nodes() == old(self).nodes().remove(offset),
            final(self).nodes().dom().finite(),
            final(self).memory() == final(self).nodes().dom().len() * S::memory_per_node(),
    {
        let ghost n = self.nodes@.dom().len();
        proof {
            lemma_mul_step((n - 1) as nat, S::memory_per_node());
        }
        let node = self.nodes.remove(&offset).unwrap();
        let usage = node.statistics.approximate_memory_usage();
        self.memory_usage = self.memory_usage - usage;
        node
    }

    /// Inserts a node at an offset that the tree does not hold.
    fn insert_node(&mut self, offset: u64, node: StatisticsTreeNode<S>)
        requires
            old(self).nodes().dom().finite(),
            old(self).memory() == old(self).nodes().dom().len() * S::memory_per_node(),
            old(self).memory() + S::memory_per_node() <= u64::MAX,
            !old(self).nodes().contains_key(offset),
        ensures
            final(self).nodes() == old(self).nodes().insert(offset, node),
            final(self).nodes().dom().finite(),
            final(self).memory() == final(self).nodes().dom().len() * S::memory_per_node(),
    {
        let ghost n = self.nodes@.dom().len();
        proof {
            lemma_mul_step(n, S::memory_per_node());
        }
        let usage = node.statistics.approximate_memory_usage();
        self.memory_usage = self.memory_usage + usage;
        self.nodes.insert(offset, node);
    }

    /// Every offset that the statistics of some node cover.
    pub open spec fn total_covered(&self) -> Set<u64> {
        Set::new(
            |x: u64|
                exists|o: u64| #[trigger]
                    self.nodes().contains_key(o) && self.nodes()[o].stats().covered().contains(x),
        )
    }

    /// Tries to promote the node at the given offset to the next tier, joining it with its
    /// siblings.
    ///
    /// Returns the window of the newly promoted node, if it exists.
    fn try_promote(&mut self, offset: u64) -> (r: Option<Window>)
        requires
            old(self).wf(),
        ensures
            final(self).wf(),
            final(self).total_covered() == old(self).total_covered(),
            forall|key: int| #[trigger] total_count(final(self).nodes(), key) == total_count(
                old(self).nodes(),
                key,
            ),
            node_offsets(final(self).nodes()) == node_offsets(old(self).nodes()),
            r is Some <==> can_promote(old(self).nodes(), offset),
            r is None ==> final(self).nodes() == old(self).nodes(),
            r matches Some(w) ==> {
                let tier = old(self).nodes()[offset].tier();
                let parent = parent_start(offset as int, tier);
                &&& w@ == (WindowView { start: parent, end: parent + tier_size(tier.level() + 1) })
                &&& final(self).nodes().dom() == old(self).nodes().dom().difference(
                    children(parent, tier),
                ).insert(parent as u64)
                &&& final(self).nodes().dom().len() + 1 == old(self).nodes().dom().len()
                &&& final(self).nodes()[parent as u64].tier().level() == tier.level() + 1
                &&& final(self).nodes()[parent as u64].stats().covered() == Set::new(
                    |x: u64|
                        exists|o: u64| #[trigger]
                            children(parent, tier).contains(o) && old(self).nodes()[o].stats().covered().contains(x),
                )
                &&& forall|key: int| #[trigger] final(self).nodes()[parent as u64].stats().count(key)
                    == old(self).nodes()[parent as u64].stats().count(key) + old(self).nodes()[(parent
                    + tier_size(tier.level())) as u64].stats().count(key)
                &&& forall|o: u64|
                    #[trigger] final(self).nodes().contains_key(o) && o != parent
                        ==> final(self).nodes()[o] == old(self).nodes()[o]
            },
    {
        let ghost old_nodes = self.nodes();
        let tier = match self.nodes.get(&offset) {
            Some(node) => node.tier,
            None => return None,
        };
        proof {
            assert(tier == old_nodes[offset].tier());
            assert(node_ok(offset, old_nodes[offset]));
        }
        if tier.level_u8() >= MAX_TIER {
            return None;
        }
        let parent_tier = tier.next();
        let size = tier.size();
        let parent_size = parent_tier.size();
        proof {
            lemma_tier_size_power_of_two(parent_tier.level());
            lemma_tier_size_next(tier.level());
            lemma_tier_size_pos(tier.level());
        }
        let parent = align_down(offset, parent_size);
        let ghost kids = children(parent as int, tier);
        proof {
            assert(parent == parent_start(offset as int, tier));
            assert forall|o: u64| #[trigger] kids.contains(o) <==> (o == parent || o == parent + size) by {
                if o == parent {
                    assert(o == child_start(parent as int, tier, 0));
                }
                if o == parent + size {
                    assert(o == child_start(parent as int, tier, 1));
                }
            }
        }
        if parent > u64::MAX - parent_size {
            proof {
                // the second child would end past the largest offset
                let last = (parent + size) as u64;
                assert(kids.contains(last));
                if old_nodes.contains_key(last) && old_nodes[last].tier() == tier {
                    assert(node_ok(last, old_nodes[last]));
                }
            }
            return None;
        }
        let parent_window = Window::from_start_len(parent, parent_size);
        proof {
            assert(parent_size as int % size as int == 0 && parent_size as int / size as int == 2)
                by (nonlinear_arith)
                requires
                    parent_size == 2 * size,
                    size > 0,
            ;
        }
        let subwindows = parent_window.subwindows_of_size(size);
        proof {
            assert(subwindows@[0]@.start == parent);
            assert(subwindows@[1]@.start == parent + size);
        }
        let mut i: usize = 0;
        while i < subwindows.len()
            invariant
                i <= subwindows@.len(),
                subwindows@.len() == 2,
                subwindows@[0]@.start == parent,
                subwindows@[1]@.start == parent + size,
                self.wf(),
                self.nodes() == old_nodes,
                old_nodes.contains_key(offset),
                tier == old_nodes[offset].tier(),
                parent == parent_start(offset as int, tier),
                kids == children(parent as int, tier),
                forall|o: u64| #[trigger] kids.contains(o) <==> (o == parent || o == parent + size),
                i >= 1 ==> old_nodes.contains_key(parent) && old_nodes[parent].tier() == tier,
                i >= 2 ==> old_nodes.contains_key((parent + size) as u64) && old_nodes[(parent
                    + size) as u64].tier() == tier,
            decreases subwindows@.len() - i,
        {
            let child = subwindows[i].start();
            match self.nodes.get(&child) {
                Some(node) => {
                    proof {
                        assert(self.nodes().contains_key(child));
                        assert(node.tier == old_nodes[child].tier());
                        assert(child == subwindows@[i as int]@.start as u64);
                    }
                    if node.tier != tier {
                        proof {
                            assert(kids.contains(child));
                        }
                        return None;
                    }
                },
                None => {
                    proof {
                        assert(kids.contains(child));
                    }
                    return None;
                },
            }
            i = i + 1;
        }
        proof {
            assert(can_promote(old_nodes, offset)) by {
                assert forall|o: u64| #[trigger] kids.contains(o) implies old_nodes.contains_key(o)
                    && old_nodes[o].tier() == tier by {
                    if o == parent {
                        assert(old_nodes.contains_key(parent));
                    } else {
                        assert(old_nodes.contains_key((parent + size) as u64));
                    }
                }
            }
        }
        let mut parent_statistics = S::empty();
        let mut i: usize = 0;
        while i < subwindows.len()
            invariant
                i <= subwindows@.len(),
                subwindows@.len() == 2,
                size > 0,
                parent_size == 2 * size,
                parent + parent_size <= u64::MAX,
                forall|j: int|
                    0 <= j < subwindows@.len() ==> #[trigger] subwindows@[j]@ == (WindowView {
                        start: (parent + j * size) as int,
                        end: (parent + (j + 1) * size) as int,
                    }),
                old_nodes.dom().finite(),
                forall|o: u64| #[trigger] old_nodes.contains_key(o) ==> node_ok(o, old_nodes[o]),
                forall|a: u64, b: u64|
                    #![trigger old_nodes.contains_key(a), old_nodes.contains_key(b)]
                    old_nodes.contains_key(a) && old_nodes.contains_key(b) && a != b ==> !node_window(
                        a as int,
                        old_nodes[a].tier(),
                    ).overlaps(node_window(b as int, old_nodes[b].tier())),
                size == tier_size(tier.level()),
                self.nodes().dom().finite(),
                self.memory() == self.nodes().dom().len() * S::memory_per_node(),
                self.nodes().dom().len() + i == old_nodes.dom().len(),
                self.nodes().submap_of(old_nodes),
                forall|o: u64|
                    #[trigger] old_nodes.contains_key(o) ==> (self.nodes().contains_key(o) <==> !exists|j: int|
                        0 <= j < i && o == subwindows@[j]@.start),
                forall|j: int|
                    i <= j < subwindows@.len() ==> #[trigger] old_nodes.contains_key(
                        subwindows@[j]@.start as u64,
                    ) && old_nodes[subwindows@[j]@.start as u64].tier() == tier,
                parent_statistics.wf(),
                parent_statistics.covered() == Set::new(
                    |x: u64|
                        exists|j: int|
                            0 <= j < i && #[trigger] old_nodes[subwindows@[j]@.start as u64].stats().covered().contains(
                                x,
                            ),
                ),
                parent_statistics.covered().subset_of(
                    window_offsets(WindowView { start: parent as int, end: parent + i * size }),
                ),
                forall|key: int| #[trigger] parent_statistics.count(key) == (if i >= 1 {
                    old_nodes[parent].stats().count(key)
                } else {
                    0
                }) + (if i >= 2 {
                    old_nodes[(parent + size) as u64].stats().count(key)
                } else {
                    0
                }),
            decreases subwindows@.len() - i,
        {
            let child = subwindows[i].start();
            let ghost child_node = old_nodes[child];
            proof {
                assert(old_nodes.contains_key(subwindows@[i as int]@.start as u64));
                assert(self.nodes().contains_key(child));
                assert(node_ok(child, child_node));
                assert(parent_statistics.covered().disjoint(child_node.stats().covered()));
            }
            let node = self.remove_node(child);
            let ghost before = parent_statistics.covered();
            parent_statistics.add_assign(&node.statistics);
            proof {
                if i == 0 {
                    assert(child == parent);
                } else {
                    assert(child == parent + size);
                }
                assert(parent_statistics.covered() =~= Set::new(
                    |x: u64|
                        exists|j: int|
                            0 <= j < i + 1 && #[trigger] old_nodes[subwindows@[j]@.start as u64].stats().covered().contains(
                                x,
                            ),
                )) by {
                    assert forall|x: u64| parent_statistics.covered().contains(x) implies exists|j: int|
                        0 <= j < i + 1 && #[trigger] old_nodes[subwindows@[j]@.start as u64].stats().covered().contains(
                            x,
                        ) by {
                        if !before.contains(x) {
                            assert(old_nodes[subwindows@[i as int]@.start as u64].stats().covered().contains(x));
                        }
                    }
                }
                assert forall|o: u64| #[trigger] old_nodes.contains_key(o) implies (self.nodes().contains_key(o)
                    <==> !exists|j: int| 0 <= j < i + 1 && o == subwindows@[j]@.start) by {
                    if o == child {
                        assert(o == subwindows@[i as int]@.start);
                    }
                }
                assert(parent + i * size + size == parent + (i + 1) * size) by (nonlinear_arith);
            }
            i = i + 1;
        }
        proof {
            lemma_mul_step(self.nodes().dom().len(), S::memory_per_node());
            lemma_mul_step(self.nodes().dom().len() + 1, S::memory_per_node());
            assert(self.nodes().dom().len() + 2 == old_nodes.dom().len());
            assert(self.nodes().dom().len() * S::memory_per_node() + S::memory_per_node() <= old_nodes.dom().len()
                * S::memory_per_node());
            assert(!self.nodes().contains_key(parent)) by {
                assert(old_nodes.contains_key(subwindows@[0]@.start as u64));
            }
        }
        let ghost merged = parent_statistics.covered();
        self.insert_node(parent, StatisticsTreeNode { tier: parent_tier, statistics: parent_statistics });
        proof {
            assert forall|o: u64| #[trigger] kids.contains(o) <==> (old_nodes.contains_key(o)
                && !self.nodes().contains_key(o) || o == parent) by {
                if kids.contains(o) && o != parent {
                    assert(old_nodes.contains_key(subwindows@[1]@.start as u64));
                }
                if old_nodes.contains_key(o) && !self.nodes().contains_key(o) && o != parent {
                    let j = choose|j: int| 0 <= j < 2 && o == subwindows@[j]@.start;
                }
            }
            assert(self.nodes().dom() =~= old_nodes.dom().difference(kids).insert(parent));
            assert forall|key: int| #[trigger] total_count(self.nodes(), key) == total_count(
                old_nodes,
                key,
            ) by {
                let second = (parent + size) as u64;
                assert(old_nodes.contains_key(subwindows@[1]@.start as u64));
                assert(self.nodes().dom() =~= old_nodes.dom().remove(second));
                lemma_merge_total(old_nodes, self.nodes(), parent, second, key);
            }
            assert(merged =~= Set::new(
                |x: u64|
                    exists|o: u64| #[trigger]
                        kids.contains(o) && old_nodes[o].stats().covered().contains(x),
            )) by {
                assert forall|x: u64| merged.contains(x) implies exists|o: u64| #[trigger]
                    kids.contains(o) && old_nodes[o].stats().covered().contains(x) by {
                    let j = choose|j: int|
                        0 <= j < 2 && #[trigger] old_nodes[subwindows@[j]@.start as u64].stats().covered().contains(x);
                    assert(kids.contains(subwindows@[j]@.start as u64));
                }
                assert forall|x: u64| (exists|o: u64| #[trigger]
                    kids.contains(o) && old_nodes[o].stats().covered().contains(x)) implies merged.contains(x) by {
                    let o = choose|o: u64| #[trigger] kids.contains(o) && old_nodes[o].stats().covered().contains(x);
                    if o == parent {
                        assert(old_nodes[subwindows@[0]@.start as u64].stats().covered().contains(x));
                    } else {
                        assert(old_nodes[subwindows@[1]@.start as u64].stats().covered().contains(x));
                    }
                }
            }
            // the parent overlaps no remaining node: such a node would overlap a child
            assert forall|o: u64| #[trigger] self.nodes().contains_key(o) && o != parent implies !node_window(
                o as int,
                self.nodes()[o].tier(),
            ).overlaps(node_window(parent as int, parent_tier)) by {
                assert(old_nodes.contains_key(o));
                assert(!kids.contains(o));
                let c0 = parent;
                let c1 = (parent + size) as u64;
                assert(kids.contains(c0) && kids.contains(c1));
                assert(old_nodes.contains_key(c0) && old_nodes.contains_key(c1));
            }
            assert(node_offsets(self.nodes()) =~= node_offsets(old_nodes)) by {
                let second = (parent + size) as u64;
                assert(old_nodes.contains_key(subwindows@[0]@.start as u64));
                assert(old_nodes.contains_key(subwindows@[1]@.start as u64));
                assert(tier_size(parent_tier.level()) == 2 * size);
                assert forall|x: int| node_offsets(self.nodes()).contains(x) implies node_offsets(
                    old_nodes,
                ).contains(x) by {
                    let o = choose|o: u64| #[trigger]
                        self.nodes().contains_key(o) && node_window(o as int, self.nodes()[o].tier()).start
                            <= x < node_window(o as int, self.nodes()[o].tier()).end;
                    if o == parent {
                        if x < parent + size {
                            assert(old_nodes.contains_key(parent));
                        } else {
                            assert(old_nodes.contains_key(second));
                        }
                    } else {
                        assert(old_nodes.contains_key(o));
                    }
                }
                assert forall|x: int| node_offsets(old_nodes).contains(x) implies node_offsets(
                    self.nodes(),
                ).contains(x) by {
                    let o = choose|o: u64| #[trigger]
                        old_nodes.contains_key(o) && node_window(o as int, old_nodes[o].tier()).start <= x
                            < node_window(o as int, old_nodes[o].tier()).end;
                    if kids.contains(o) {
                        assert(self.nodes().contains_key(parent));
                    } else {
                        assert(self.nodes().contains_key(o));
                    }
                }
            }
            assert(self.total_covered() =~= old(self).total_covered()) by {
                assert forall|x: u64| old(self).total_covered().contains(x) implies self.total_covered().contains(x) by {
                    let o = choose|o: u64| #[trigger] old_nodes.contains_key(o) && old_nodes[o].stats().covered().contains(x);
                    if kids.contains(o) {
                        assert(self.nodes().contains_key(parent));
                        assert(self.nodes()[parent].stats().covered().contains(x));
                    } else {
                        assert(self.nodes().contains_key(o));
                    }
                }
                assert forall|x: u64| self.total_covered().contains(x) implies old(self).total_covered().contains(x) by {
                    let o = choose|o: u64| #[trigger] self.nodes().contains_key(o) && self.nodes()[o].stats().covered().contains(x);
                    if o == parent {
                        let k = choose|k: u64| #[trigger] kids.contains(k) && old_nodes[k].stats().covered().contains(x);
                        assert(old_nodes.contains_key(k));
                    } else {
                        assert(old_nodes.contains_key(o));
                    }
                }
            }
        }
        Some(parent_window)
    }

    /// The window is not empty and the nodes that lie within it cover each of its offsets.
    pub open spec fn covers_exactly(&self, window: WindowView) -> bool {
        &&& window.start < window.end
        &&& forall|x: int|
            window.start <= x < window.end ==> #[trigger] covered_by_node_in(self.nodes(), x, window)
    }

    /// Returns `true` if the statistics tree already covers the given window exactly: nodes that
    /// lie within the window follow each other from its start to its end.
    pub fn covers_window_exactly(&self, window: Window) -> (r: bool)
        requires
            self.wf(),
        ensures
            r == self.covers_exactly(window@),
    {
        let keys = sorted_keys(&self.nodes);
        let start = window.start();
        let end = window.end();
        let mut i: usize = 0;
        while i < keys.len() && keys[i] < start
            invariant
                i <= keys@.len(),
                forall|j: int| 0 <= j < i ==> keys@[j] < start,
            decreases keys@.len() - i,
        {
            i = i + 1;
        }
        let ghost nodes = self.nodes();
        proof {
            assert forall|j: int| i <= j < keys@.len() implies keys@[j] >= start by {
                if j > i {
                    assert(keys@[i as int] < keys@[j]);
                }
            }
        }
        let mut current: u64 = start;
        while i < keys.len()
            invariant
                self.wf(),
                nodes == self.nodes(),
                keys@.to_set() == nodes.dom(),
                forall|a: int, b: int| 0 <= a < b < keys@.len() ==> keys@[a] < keys@[b],
                i <= keys@.len(),
                start == window@.start,
                end == window@.end,
                start <= current <= end,
                current == end ==> start == end,
                forall|j: int| 0 <= j < i && keys@[j] >= start ==> keys@[j] < current,
                forall|j: int| i <= j < keys@.len() ==> keys@[j] >= current,
                forall|o: u64|
                    #[trigger] nodes.contains_key(o) && start <= o < current ==> o + tier_size(
                        nodes[o].tier().level(),
                    ) <= current,
                forall|x: int|
                    start <= x < current ==> #[trigger] covered_by_node_in(
                        nodes,
                        x,
                        WindowView { start: start as int, end: current as int },
                    ),
            decreases keys@.len() - i,
        {
            let k = keys[i];
            proof {
                assert(nodes.contains_key(k)) by {
                    assert(keys@.to_set().contains(keys@[i as int]));
                }
            }
            if k != current {
                proof {
                    if start < end {
                        self.lemma_offset_uncovered(window@, current as int, keys, i as int);
                    }
                }
                return false;
            }
            let tier = self.nodes.get(&k).unwrap().tier;
            proof {
                assert(node_ok(k, nodes[k]));
                lemma_tier_size_pos(tier.level());
            }
            let ghost before = current;
            current = current + tier.size();
            proof {
                assert forall|o: u64|
                    #[trigger] nodes.contains_key(o) && start <= o < current implies o + tier_size(
                        nodes[o].tier().level(),
                    ) <= current by {
                    if o >= before && o != k {
                        assert(node_ok(o, nodes[o]));
                        lemma_tier_size_pos(nodes[o].tier().level());
                    }
                }
                assert forall|x: int| start <= x < current implies #[trigger] covered_by_node_in(
                    nodes,
                    x,
                    WindowView { start: start as int, end: current as int },
                ) by {
                    if x >= before {
                        assert(nodes.contains_key(k) && node_window(k as int, nodes[k].tier()).contains(x));
                    } else {
                        assert(covered_by_node_in(
                            nodes,
                            x,
                            WindowView { start: start as int, end: before as int },
                        ));
                    }
                }
                assert forall|j: int| i + 1 <= j < keys@.len() implies keys@[j] >= current by {
                    let o = keys@[j];
                    assert(keys@.to_set().contains(o));
                    assert(nodes.contains_key(o));
                    assert(keys@[i as int] < keys@[j]);
                }
            }
            if current == end {
                proof {
                    assert(window@ == WindowView { start: start as int, end: current as int });
                }
                return true;
            }
            if current > end {
                proof {
                    if start < end {
                        // no node within the window covers the offset `k`
                        if covered_by_node_in(nodes, k as int, window@) {
                            let o = choose|o: u64| #[trigger]
                                nodes.contains_key(o) && node_window(o as int, nodes[o].tier()).contains(k as int)
                                    && window@.contains_window(node_window(o as int, nodes[o].tier()));
                            assert(o != k);
                        }
                        assert(!covered_by_node_in(nodes, k as int, window@));
                    }
                }
                return false;
            }
            i = i + 1;
        }
        proof {
            if start < end {
                self.lemma_offset_uncovered(window@, current as int, keys, i as int);
            }
        }
        false
    }

    /// An offset in the window that follows the nodes before it and precedes the keys from the
    /// given index on is covered by no node within the window.
    proof fn lemma_offset_uncovered(&self, window: WindowView, current: int, keys: Vec<u64>, i: int)
        requires
            self.wf(),
            keys@.to_set() == self.nodes().dom(),
            forall|a: int, b: int| 0 <= a < b < keys@.len() ==> keys@[a] < keys@[b],
            0 <= i <= keys@.len(),
            window.start <= current < window.end,
            forall|j: int| 0 <= j < i && keys@[j] >= window.start ==> keys@[j] < current,
            forall|j: int| i <= j < keys@.len() ==> keys@[j] >= current,
            i < keys@.len() ==> keys@[i] != current,
            forall|o: u64|
                #[trigger] self.nodes().contains_key(o) && window.start <= o < current ==> o
                    + tier_size(self.nodes()[o].tier().level()) <= current,
        ensures
            !self.covers_exactly(window),
    {
        let nodes = self.nodes();
        if covered_by_node_in(nodes, current, window) {
            let o = choose|o: u64| #[trigger]
                nodes.contains_key(o) && node_window(o as int, nodes[o].tier()).contains(current)
                    && window.contains_window(node_window(o as int, nodes[o].tier()));
            assert(keys@.to_set().contains(o));
            let j = choose|j: int| 0 <= j < keys@.len() && keys@[j] == o;
            assert(o == current);
            if j > i {
                assert(keys@[i] >= current);
            }
        }
        assert(!covered_by_node_in(nodes, current, window));
    }

    /// The node at the offset starts in the window and its tier is at least `min_tier`.
    pub open spec fn eligible(&self, o: u64, window: WindowView, min_tier: Tier) -> bool {
        &&& self.nodes().contains_key(o)
        &&& window.contains(o as int)
        &&& self.nodes()[o].tier().level() >= min_tier.level()
    }

    /// The eligible nodes that start before `cut`.
    pub open spec fn aggregated(&self, window: WindowView, min_tier: Tier, cut: int) -> Set<u64> {
        Set::new(|o: u64| self.eligible(o, window, min_tier) && o < cut)
    }

    /// The offsets that the statistics of the nodes at the given offsets cover.
    pub open spec fn union_covered(&self, offsets: Set<u64>) -> Set<u64> {
        Set::new(
            |x: u64|
                exists|o: u64| offsets.contains(o) && #[trigger] self.nodes()[o].stats().covered().contains(x),
        )
    }

    /// The aggregation over `window` took the eligible nodes before `cut` and returned `r`: all
    /// of those nodes lie within the window, and either no eligible node from `cut` on lies
    /// within it (then `r` is the window's end), or `work_steps` nodes were taken and `r` is the
    /// end of the last of them.
    pub open spec fn aggregation_ends(
        &self,
        window: WindowView,
        work_steps: usize,
        min_tier: Tier,
        cut: int,
        r: int,
    ) -> bool {
        let taken = self.aggregated(window, min_tier, cut);
        &&& window.start <= cut <= window.end
        &&& forall|o: u64| #[trigger]
            taken.contains(o) ==> o + tier_size(self.nodes()[o].tier().level()) <= window.end
        &&& {
            ||| r == window.end && (cut == window.end || (self.eligible(cut as u64, window, min_tier)
                && cut + tier_size(self.nodes()[cut as u64].tier().level()) > window.end))
            ||| work_steps > 0 && r == cut && taken.len() == work_steps && exists|o: u64| #[trigger]
                taken.contains(o) && o + tier_size(self.nodes()[o].tier().level()) == cut
        }
    }

    /// Aggregates statistics for the given window.
    ///
    /// Adds the statistics of the nodes that start in the window, in order, into the given
    /// statistics, skipping nodes of tiers below `min_tier` and stopping before a node that
    /// reaches past the window. If `work_steps` nodes were added, stops there. Returns the
    /// offset where computation stopped.
    pub fn aggregate_for_window(
        &self,
        statistics: &mut S,
        window: Window,
        work_steps: usize,
        min_tier: Tier,
    ) -> (r: u64)
        requires
            self.wf(),
            old(statistics).wf(),
            forall|o: u64|
                #[trigger] self.nodes().contains_key(o) && window@.contains(o as int) ==> old(
                    statistics,
                ).covered().disjoint(self.nodes()[o].stats().covered()),
        ensures
            final(statistics).wf(),
            exists|cut: int|
                #[trigger] self.aggregation_ends(window@, work_steps, min_tier, cut, r as int)
                    && final(statistics).covered() == old(statistics).covered().union(
                    self.union_covered(self.aggregated(window@, min_tier, cut)),
                ) && forall|key: int| #[trigger] final(statistics).count(key) == old(statistics).count(
                    key,
                ) + sum_over(self.aggregated(window@, min_tier, cut), node_count(self.nodes(), key)),
    {
        let ghost initial = statistics.covered();
        let ghost nodes = self.nodes();
        let keys = sorted_keys(&self.nodes);
        let start = window.start();
        let end = window.end();
        let mut i: usize = 0;
        while i < keys.len() && keys[i] < start
            invariant
                i <= keys@.len(),
                forall|j: int| 0 <= j < i ==> keys@[j] < start,
            decreases keys@.len() - i,
        {
            i = i + 1;
        }
        let mut steps: usize = 0;
        let ghost mut cut: int = if i < keys.len() && keys@[i as int] < end {
            keys@[i as int] as int
        } else {
            end as int
        };
        proof {
            assert(self.aggregated(window@, min_tier, cut) =~= Set::<u64>::empty()) by {
                assert forall|o: u64| !#[trigger] self.aggregated(window@, min_tier, cut).contains(o) by {
                    if self.eligible(o, window@, min_tier) && o < cut {
                        assert(keys@.to_set().contains(o));
                        let j = choose|j: int| 0 <= j < keys@.len() && keys@[j] == o;
                        if j > i {
                            assert(keys@[i as int] < keys@[j]);
                        }
                    }
                }
            }
            assert(statistics.covered() =~= initial.union(
                self.union_covered(self.aggregated(window@, min_tier, cut)),
            ));
            assert forall|key: int| #[trigger] statistics.count(key) == old(statistics).count(key)
                + sum_over(self.aggregated(window@, min_tier, cut), node_count(nodes, key)) by {
                lemma_sum_empty(node_count(nodes, key));
            }
        }
        while i < keys.len() && keys[i] < end
            invariant
                self.wf(),
                nodes == self.nodes(),
                keys@.to_set() == nodes.dom(),
                keys@.len() == nodes.dom().len(),
                forall|a: int, b: int| 0 <= a < b < keys@.len() ==> keys@[a] < keys@[b],
                start == window@.start,
                end == window@.end,
                i <= keys@.len(),
                cut == if i < keys@.len() && keys@[i as int] < end {
                    keys@[i as int] as int
                } else {
                    end as int
                },
                start <= cut <= end,
                forall|j: int| 0 <= j < i ==> keys@[j] < cut,
                forall|j: int| 0 <= j < i ==> keys@[j] < start || keys@[j] < end,
                steps <= i,
                work_steps == 0 || steps < work_steps,
                initial == old(statistics).covered(),
                statistics.wf(),
                forall|o: u64|
                    #[trigger] nodes.contains_key(o) && window@.contains(o as int) ==> initial.disjoint(
                        nodes[o].stats().covered(),
                    ),
                statistics.covered() == initial.union(
                    self.union_covered(self.aggregated(window@, min_tier, cut)),
                ),
                self.aggregated(window@, min_tier, cut).finite(),
                self.aggregated(window@, min_tier, cut).len() == steps,
                forall|key: int| #[trigger] statistics.count(key) == old(statistics).count(key)
                    + sum_over(self.aggregated(window@, min_tier, cut), node_count(nodes, key)),
                forall|o: u64| #[trigger]
                    self.aggregated(window@, min_tier, cut).contains(o) ==> o + tier_size(
                        nodes[o].tier().level(),
                    ) <= end,
            decreases keys@.len() - i,
        {
            let k = keys[i];
            proof {
                assert(nodes.contains_key(k)) by {
                    assert(keys@.to_set().contains(keys@[i as int]));
                }
                assert(node_ok(k, nodes[k]));
                lemma_tier_size_pos(nodes[k].tier().level());
            }
            let node = self.nodes.get(&k).unwrap();
            let tier = node.tier;
            let ghost taken = self.aggregated(window@, min_tier, cut);
            let ghost next_cut: int = if i + 1 < keys.len() && keys@[i + 1] < end {
                keys@[i + 1] as int
            } else {
                end as int
            };
            proof {
                // no key lies strictly between `k` and the next key
                assert forall|o: u64| nodes.contains_key(o) && k < o < next_cut implies false by {
                    assert(keys@.to_set().contains(o));
                    let j = choose|j: int| 0 <= j < keys@.len() && keys@[j] == o;
                    if j < i {
                        assert(keys@[j] < keys@[i as int]);
                    } else if j > i + 1 {
                        assert(keys@[i + 1] < keys@[j]);
                    }
                }
            }
            if tier.level_u8() < min_tier.level_u8() {
                proof {
                    assert(self.aggregated(window@, min_tier, next_cut) =~= taken);
                    cut = next_cut;
                }
                i = i + 1;
            } else {
                let node_end = k + tier.size();
                if node_end > end {
                    proof {
                        assert(self.aggregation_ends(window@, work_steps, min_tier, cut, end as int));
                        assert(statistics.covered() == old(statistics).covered().union(
                            self.union_covered(self.aggregated(window@, min_tier, cut)),
                        ));
                    }
                    return end;
                }
                proof {
                    assert forall|x: u64| statistics.covered().contains(x) implies !node.statistics.covered().contains(
                        x,
                    ) by {
                        if !initial.contains(x) && node.statistics.covered().contains(x) {
                            let o = choose|o: u64| taken.contains(o) && #[trigger] nodes[o].stats().covered().contains(x);
                            assert(node_ok(o, nodes[o]));
                        }
                    }
                }
                let ghost before_add = *statistics;
                statistics.add_assign(&node.statistics);
                steps = steps + 1;
                let ghost grown = taken.insert(k);
                proof {
                    assert(!taken.contains(k));
                    assert forall|key: int| #[trigger] statistics.count(key) == old(statistics).count(key)
                        + sum_over(grown, node_count(nodes, key)) by {
                        lemma_sum_insert(taken, node_count(nodes, key), k);
                        assert(before_add.count(key) == old(statistics).count(key) + sum_over(
                            taken,
                            node_count(nodes, key),
                        ));
                    }
                    assert(self.union_covered(grown) =~= self.union_covered(taken).union(
                        nodes[k].stats().covered(),
                    )) by {
                        assert forall|x: u64| #[trigger] self.union_covered(grown).contains(x) implies self.union_covered(
                            taken,
                        ).union(nodes[k].stats().covered()).contains(x) by {
                            let o = choose|o: u64| grown.contains(o) && #[trigger] nodes[o].stats().covered().contains(x);
                            if o != k {
                                assert(taken.contains(o));
                            }
                        }
                        assert forall|x: u64| #[trigger] self.union_covered(taken).union(
                            nodes[k].stats().covered(),
                        ).contains(x) implies self.union_covered(grown).contains(x) by {
                            if nodes[k].stats().covered().contains(x) {
                                assert(grown.contains(k));
                            } else {
                                let o = choose|o: u64| taken.contains(o) && #[trigger] nodes[o].stats().covered().contains(x);
                                assert(grown.contains(o));
                            }
                        }
                    }
                    assert(statistics.covered() =~= initial.union(self.union_covered(grown)));
                }
                if steps == work_steps {
                    proof {
                        assert(self.aggregated(window@, min_tier, node_end as int) =~= grown) by {
                            assert forall|o: u64| #[trigger]
                                self.aggregated(window@, min_tier, node_end as int).contains(o)
                                    implies grown.contains(o) by {
                                if o > k {
                                    assert(node_ok(o, nodes[o]));
                                }
                            }
                        }
                        assert(grown.contains(k));
                        assert(self.aggregation_ends(
                            window@,
                            work_steps,
                            min_tier,
                            node_end as int,
                            node_end as int,
                        ));
                        assert(statistics.covered() == old(statistics).covered().union(
                            self.union_covered(self.aggregated(window@, min_tier, node_end as int)),
                        ));
                    }
                    return node_end;
                }
                proof {
                    assert(self.aggregated(window@, min_tier, next_cut) =~= grown);
                    cut = next_cut;
                }
                i = i + 1;
            }
        }
        proof {
            assert(cut == end);
            assert(self.aggregation_ends(window@, work_steps, min_tier, cut, end as int));
        }
        end
    }

    /// The node at the offset is a candidate of garbage collection with the given priority: its
    /// tier plus `MAX_ZONE_TIER_GAP` for each window that holds it, and its distance from the
    /// next window that does not hold it.
    pub open spec fn is_gc_candidate(&self, candidate: (u128, u64, u64), windows: Seq<Window>) -> bool {
        &&& self.nodes().contains_key(candidate.2)
        &&& exists|zone: int|
            #[trigger] is_zone(candidate.2, windows, zone) && candidate.0 == self.nodes()[candidate.2].tier().level()
                + zone * MAX_ZONE_TIER_GAP && candidate.1 == if zone >= windows.len() {
                0
            } else if candidate.2 < windows[zone]@.start {
                windows[zone]@.start - candidate.2
            } else {
                candidate.2 - windows[zone]@.end
            }
    }

    /// The candidates of garbage collection, one per node, in the order in which promotion is
    /// tried: nodes in fewer windows and of lower tiers first, then nodes farther from the next
    /// window first.
    #[verifier::spinoff_prover]
    pub fn gc_candidates(&self, windows: &[Window]) -> (r: Vec<(u128, u64, u64)>)
        requires
            self.wf(),
        ensures
            forall|i: int| 0 <= i < r@.len() ==> self.is_gc_candidate(#[trigger] r@[i], windows@),
            forall|o: u64| #[trigger]
                self.nodes().contains_key(o) ==> exists|j: int| 0 <= j < r@.len() && r@[j].2 == o,
            forall|i: int, j: int| 0 <= i < j < r@.len() ==> !gc_before(r@[j], r@[i]),
    {
        let keys = sorted_keys(&self.nodes);
        let mut candidates: Vec<(u128, u64, u64)> = Vec::new();
        let mut i: usize = 0;
        while i < keys.len()
            invariant
                self.wf(),
                keys@.to_set() == self.nodes().dom(),
                i <= keys@.len(),
                candidates@.len() == i,
                forall|j: int| 0 <= j < i ==> (#[trigger] candidates@[j]).2 == keys@[j],
                forall|j: int| 0 <= j < i ==> self.is_gc_candidate(#[trigger] candidates@[j], windows@),
            decreases keys@.len() - i,
        {
            let offset = keys[i];
            proof {
                assert(self.nodes().contains_key(offset)) by {
                    assert(keys@.to_set().contains(keys@[i as int]));
                }
            }
            let tier = self.nodes.get(&offset).unwrap().tier;
            let zone = node_zone(offset, windows);
            let tier_adjusted: u128 = tier.level_u8() as u128 + zone as u128
                * MAX_ZONE_TIER_GAP as u128;
            let distance = distance_from_higher_zone(offset, zone, windows);
            proof {
                assert(tier == self.nodes()[offset].tier());
                assert(is_zone(offset, windows@, zone as int));
                assert(self.is_gc_candidate((tier_adjusted, distance, offset), windows@));
            }
            candidates.push((tier_adjusted, distance, offset));
            proof {
                assert(candidates@[i as int] == (tier_adjusted, distance, offset));
            }
            i = i + 1;
        }
        let sorted = sort_candidates(&candidates);
        proof {
            assert forall|o: u64| #[trigger] self.nodes().contains_key(o) implies exists|j: int|
                0 <= j < sorted@.len() && sorted@[j].2 == o by {
                assert(keys@.to_set().contains(o));
                let j = choose|j: int| 0 <= j < keys@.len() && keys@[j] == o;
                assert(candidates@.contains(candidates@[j]));
                let k = choose|k: int| 0 <= k < sorted@.len() && sorted@[k] == candidates@[j];
            }
            assert forall|i: int| 0 <= i < sorted@.len() implies self.is_gc_candidate(
                #[trigger] sorted@[i],
                windows@,
            ) by {
                assert(candidates@.contains(sorted@[i]));
            }
        }
        sorted
    }

    /// Runs garbage collection by promoting nodes into their parents until memory usage drops to
    /// `memory_limit` or no more promotions are possible.
    ///
    /// `windows` are the windows the user focuses on, from the outermost (largest) to the
    /// innermost (smallest). Nodes outside all windows are promoted first, preserving detail near
    /// the user's focus; adjacent zones are kept within [`MAX_ZONE_TIER_GAP`] tiers of each other
    /// so that large jumps don't require full recomputation.
    ///
    /// Promotion requires all siblings at the same tier, so a node inside a high-priority zone
    /// may be consumed if a sibling outside that zone triggers promotion.
    pub fn garbage_collect(&mut self, memory_limit: u64, windows: &[Window])
        requires
            old(self).wf(),
        ensures
            final(self).wf(),
            final(self).total_covered() == old(self).total_covered(),
            forall|key: int| #[trigger] total_count(final(self).nodes(), key) == total_count(
                old(self).nodes(),
                key,
            ),
            node_offsets(final(self).nodes()) == node_offsets(old(self).nodes()),
            final(self).memory() <= old(self).memory(),
            old(self).memory() <= memory_limit ==> final(self).nodes() == old(self).nodes(),
            final(self).memory() > memory_limit && S::memory_per_node() > 0 ==> forall|o: u64|
                #[trigger] final(self).nodes().contains_key(o) ==> !can_promote(final(self).nodes(), o),
    {
        if self.memory_usage <= memory_limit {
            return;
        }
        let ghost start_memory = self.memory();
        loop
            invariant
                self.wf(),
                self.total_covered() == old(self).total_covered(),
                forall|key: int| #[trigger] total_count(self.nodes(), key) == total_count(
                    old(self).nodes(),
                    key,
                ),
                node_offsets(self.nodes()) == node_offsets(old(self).nodes()),
                self.memory() <= old(self).memory(),
                old(self).memory() > memory_limit,
            decreases self.memory_usage,
        {
            let sorted = self.gc_candidates(windows);
            let ghost pass_nodes = self.nodes();
            let memory_before = self.memory_usage;
            let ghost mut promoted = false;
            let mut j: usize = 0;
            while j < sorted.len()
                invariant
                    self.wf(),
                    self.total_covered() == old(self).total_covered(),
                    forall|key: int| #[trigger] total_count(self.nodes(), key) == total_count(
                        old(self).nodes(),
                        key,
                    ),
                    node_offsets(self.nodes()) == node_offsets(old(self).nodes()),
                    self.memory() <= memory_before,
                    memory_before <= old(self).memory(),
                    memory_before == pass_nodes.dom().len() * S::memory_per_node(),
                    old(self).memory() > memory_limit,
                    j <= sorted@.len(),
                    !promoted ==> self.nodes() == pass_nodes,
                    promoted ==> self.nodes().dom().len() < pass_nodes.dom().len(),
                    !promoted ==> forall|k: int| 0 <= k < j ==> !can_promote(pass_nodes, #[trigger] sorted@[k].2),
                decreases sorted@.len() - j,
            {
                if self.memory_usage <= memory_limit {
                    return;
                }
                let ghost len_before = self.nodes().dom().len();
                let r = self.try_promote(sorted[j].2);
                proof {
                    if r is Some {
                        promoted = true;
                        vstd::arithmetic::mul::lemma_mul_inequality(
                            self.nodes().dom().len() as int,
                            len_before as int,
                            S::memory_per_node() as int,
                        );
                    }
                }
                j = j + 1;
            }
            proof {
                if promoted {
                    vstd::arithmetic::mul::lemma_mul_inequality(
                        self.nodes().dom().len() as int,
                        pass_nodes.dom().len() as int,
                        S::memory_per_node() as int,
                    );
                    if S::memory_per_node() > 0 {
                        lemma_mul_step(self.nodes().dom().len(), S::memory_per_node());
                        vstd::arithmetic::mul::lemma_mul_inequality(
                            self.nodes().dom().len() + 1int,
                            pass_nodes.dom().len() as int,
                            S::memory_per_node() as int,
                        );
                    }
                }
            }
            if self.memory_usage >= memory_before {
                proof {
                    if S::memory_per_node() > 0 {
                        assert(!promoted);
                        assert forall|o: u64| #[trigger] self.nodes().contains_key(o) implies !can_promote(
                            self.nodes(),
                            o,
                        ) by {
                            let k = choose|k: int| 0 <= k < sorted@.len() && sorted@[k].2 == o;
                            assert(!can_promote(pass_nodes, sorted@[k].2));
                        }
                    }
                }
                return;
            }
        }
    }

    /// Inserts a node at the given tier into the tree.
    ///
    /// Removes every node whose range overlaps the new node's range: the descendants within it
    /// and an ancestor that covers its offset (losing statistics for the ancestor's remaining
    /// range).
    pub fn insert(&mut self, offset: u64, tier: Tier, statistics: S)
        requires
            old(self).wf(),
            tier.level() <= MAX_TIER,
            offset as int % tier_size(tier.level()) == 0,
            offset + tier_size(tier.level()) <= u64::MAX,
            statistics.wf(),
            statistics.covered().subset_of(window_offsets(node_window(offset as int, tier))),
            old(self).memory() + S::memory_per_node() <= u64::MAX,
        ensures
            final(self).wf(),
            final(self).nodes().dom() == old(self).nodes().dom().difference(
                overlapping(old(self).nodes(), node_window(offset as int, tier)),
            ).insert(offset),
            final(self).nodes()[offset].tier() == tier,
            final(self).nodes()[offset].stats() == statistics,
            forall|o: u64|
                #[trigger] final(self).nodes().contains_key(o) && o != offset
                    ==> final(self).nodes()[o] == old(self).nodes()[o],
    {
        let size = tier.size();
        let end = offset + size;
        let ghost w = node_window(offset as int, tier);
        let ghost old_nodes = self.nodes();
        let ghost old_memory = self.memory();
        let keys = sorted_keys(&self.nodes);
        let mut before: Option<u64> = None;
        let mut i: usize = 0;
        while i < keys.len()
            invariant
                i <= keys@.len(),
                keys@.to_set() == old_nodes.dom(),
                forall|a: int, b: int| 0 <= a < b < keys@.len() ==> keys@[a] < keys@[b],
                old_nodes.dom().finite(),
                self.nodes().dom().finite(),
                self.memory() == self.nodes().dom().len() * S::memory_per_node(),
                self.memory() <= old_memory,
                old_memory + S::memory_per_node() <= u64::MAX,
                self.nodes().submap_of(old_nodes),
                end == offset + size,
                forall|j: int|
                    0 <= j < keys@.len() ==> (#[trigger] self.nodes().contains_key(keys@[j])
                        <==> (j >= i || !(offset <= keys@[j] < end))),
                before is None ==> forall|j: int| 0 <= j < i ==> #[trigger] keys@[j] >= offset,
                before matches Some(b) ==> b < offset && old_nodes.contains_key(b) && forall|j: int|
                    0 <= j < i && #[trigger] keys@[j] < offset ==> keys@[j] <= b,
            decreases keys@.len() - i,
        {
            let k = keys[i];
            proof {
                assert(old_nodes.dom().contains(k)) by {
                    assert(keys@.to_set().contains(keys@[i as int]));
                }
            }
            if k < offset {
                before = Some(k);
            } else if k < end {
                proof {
                    lemma_mul_step(self.nodes().dom().len(), S::memory_per_node());
                }
                let _ = self.remove_node(k);
                proof {
                    assert forall|j: int|
                        0 <= j < keys@.len() implies (#[trigger] self.nodes().contains_key(keys@[j])
                        <==> (j >= i + 1 || !(offset <= keys@[j] < end))) by {
                        if j != i {
                            assert(keys@[j] != k);
                        }
                    }
                }
            }
            i = i + 1;
        }
        proof {
            assert forall|k: u64| old_nodes.contains_key(k) && k >= offset && !(k < end)
                implies !#[trigger] w.overlaps(node_window(k as int, old_nodes[k].tier())) by {}
            assert forall|k: u64| #[trigger] self.nodes().contains_key(k) implies old_nodes.contains_key(k)
                && !(offset <= k < end) by {
                assert(keys@.to_set().contains(k));
                let j = choose|j: int| 0 <= j < keys@.len() && keys@[j] == k;
                assert(self.nodes().contains_key(keys@[j]));
            }
        }
        let ghost mid_nodes = self.nodes();
        match before {
            Some(b) => {
                let ancestor_tier = self.nodes.get(&b).unwrap().tier;
                proof {
                    assert(self.nodes().contains_key(b)) by {
                        assert(keys@.to_set().contains(b));
                        let j = choose|j: int| 0 <= j < keys@.len() && keys@[j] == b;
                        assert(self.nodes().contains_key(keys@[j]));
                    }
                    assert(node_ok(b, old_nodes[b]));
                }
                let ancestor_end = b + ancestor_tier.size();
                if ancestor_end > offset {
                    let _ = self.remove_node(b);
                }
            },
            None => {},
        }
        proof {
            // every remaining node lies outside the new node's window
            assert forall|k: u64| #[trigger] self.nodes().contains_key(k) implies !node_window(
                k as int,
                self.nodes()[k].tier(),
            ).overlaps(w) by {
                lemma_tier_size_pos(old_nodes[k].tier().level());
                assert(mid_nodes.contains_key(k));
                assert(keys@.to_set().contains(k));
                let j = choose|j: int| 0 <= j < keys@.len() && keys@[j] == k;
                if k < offset {
                    let b = before->0;
                    if k != b {
                        assert(old_nodes.contains_key(b));
                        assert(old_nodes.contains_key(k));
                    }
                }
            }
            assert(self.nodes().dom() =~= old_nodes.dom().difference(overlapping(old_nodes, w))) by {
                assert forall|k: u64| old_nodes.contains_key(k) && #[trigger] overlapping(
                    old_nodes,
                    w,
                ).contains(k) implies !self.nodes().contains_key(k) by {}
                assert forall|k: u64| old_nodes.contains_key(k) && !#[trigger] overlapping(
                    old_nodes,
                    w,
                ).contains(k) implies self.nodes().contains_key(k) by {
                    lemma_tier_size_pos(old_nodes[k].tier().level());
                    assert(keys@.to_set().contains(k));
                    let j = choose|j: int| 0 <= j < keys@.len() && keys@[j] == k;
                    assert(mid_nodes.contains_key(keys@[j]));
                }
            }
            lemma_mul_step(self.nodes().dom().len(), S::memory_per_node());
            lemma_tier_size_pos(tier.level());
            if self.nodes().contains_key(offset) {
                lemma_tier_size_pos(self.nodes()[offset].tier().level());
            }
        }
        self.insert_node(offset, StatisticsTreeNode { tier, statistics });
    }
}

} // verus!
