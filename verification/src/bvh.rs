//! Construction of the bounding-volume hierarchy: which primitive ends up
//! under which branch. Primitives are known here by their number and by
//! three integer keys that order them as the minimum corners of their
//! bounding boxes do along each axis.
use vstd::prelude::*;
use vstd::seq_lib::*;
use rand::Rng;

verus! {

/// A primitive to be placed in the hierarchy: its number in the caller's
/// list and, for each axis, a key that grows with the minimum coordinate of
/// its bounding box on that axis.
#[derive(Clone, Copy, Debug, PartialEq, Eq, Structural)]
pub struct BvhItem {
    pub object: usize,
    pub min_x: i64,
    pub min_y: i64,
    pub min_z: i64,
}

impl BvhItem {
    /// The key on `axis`: 0 is x, 1 is y, anything else z.
    pub open spec fn spec_key(&self, axis: usize) -> i64 {
        if axis == 0 {
            self.min_x
        } else if axis == 1 {
            self.min_y
        } else {
            self.min_z
        }
    }

    pub fn key(&self, axis: usize) -> (k: i64)
        ensures
            k == self.spec_key(axis),
    {
        if axis == 0 {
            self.min_x
        } else if axis == 1 {
            self.min_y
        } else {
            self.min_z
        }
    }
}

/// A node of the hierarchy. A branch records the axis it was split on.
#[derive(Debug)]
pub enum BVHNode {
    Leaf { item: BvhItem },
    Branch { axis: usize, left: Box<BVHNode>, right: Box<BVHNode> },
}

/// Whether the keys on `axis` never decrease along `items`.
pub open spec fn sorted_on(items: Seq<BvhItem>, axis: usize) -> bool {
    forall|a: int, b: int|
        0 <= a < b < items.len() ==> items[a].spec_key(axis) <= items[b].spec_key(axis)
}

/// Whether no item of `low` has a greater key on `axis` than an item of
/// `high`.
pub open spec fn separated_on(low: Seq<BvhItem>, high: Seq<BvhItem>, axis: usize) -> bool {
    forall|a: int, b: int|
        0 <= a < low.len() && 0 <= b < high.len() ==> low[a].spec_key(axis) <= high[b].spec_key(
            axis,
        )
}

/// The items of `items` whose key on `axis` is `v`, in their order.
pub open spec fn items_with_key(items: Seq<BvhItem>, axis: usize, v: i64) -> Seq<BvhItem> {
    items.filter(|item: BvhItem| item.spec_key(axis) == v)
}

/// Whether `after` is `before` sorted on `axis` by a stable sort: the same
/// items, keys in non-decreasing order, and items with equal keys in the
/// order they had.
pub open spec fn is_stable_sort(before: Seq<BvhItem>, after: Seq<BvhItem>, axis: usize) -> bool {
    &&& after.len() == before.len()
    &&& after.to_multiset() == before.to_multiset()
    &&& sorted_on(after, axis)
    &&& forall|v: i64| #[trigger] items_with_key(after, axis, v) == items_with_key(before, axis, v)
}

/// Draws the axis to split on by calling `rand::Rng::gen_range` on the
/// thread-local generator with the range `0..3`, which is not empty, so the
/// call does not panic. Of the value only its range is claimed.
#[verifier::external_body]
fn random_axis() -> (axis: usize)
    ensures
        axis < 3,
{
    rand::thread_rng().gen_range(0..3)
}

/// Sorts the items by their key on `axis` with `slice::sort_by_key`, which
/// std documents as a stable sort. The contract claims that much: the same
/// items come back, their keys in non-decreasing order, and items with
/// equal keys in the order they had.
#[verifier::external_body]
fn sort_by_axis(items: &mut Vec<BvhItem>, axis: usize)
    ensures
        is_stable_sort(old(items)@, final(items)@, axis),
{
    items.sort_by_key(|item| item.key(axis));
}

/// Every item of a sequence occurs in each sequence with the same multiset.
proof fn lemma_same_items(a: Seq<BvhItem>, b: Seq<BvhItem>, k: int)
    requires
        a.to_multiset() == b.to_multiset(),
        0 <= k < a.len(),
    ensures
        exists|m: int| 0 <= m < b.len() && b[m] == a[k],
{
    assert(a.contains(a[k]));
    to_multiset_contains(a, a[k]);
    to_multiset_contains(b, a[k]);
    assert(b.contains(a[k]));
}

impl BVHNode {
    /// The items under this node, from left to right.
    pub open spec fn leaves(&self) -> Seq<BvhItem>
        decreases self,
    {
        match self {
            BVHNode::Leaf { item } => seq![*item],
            BVHNode::Branch { axis, left, right } => left.leaves() + right.leaves(),
        }
    }

    /// Whether every branch is split at the midpoint, the smaller half to
    /// the left, and on its axis keeps the lesser keys to the left.
    pub open spec fn wf(&self) -> bool
        decreases self,
    {
        match self {
            BVHNode::Leaf { item } => true,
            BVHNode::Branch { axis, left, right } => {
                &&& *axis < 3
                &&& left.wf()
                &&& right.wf()
                &&& left.leaves().len() == self.leaves().len() / 2
                &&& separated_on(left.leaves(), right.leaves(), *axis)
            },
        }
    }

    /// The items under the left child of a branch; none for a leaf.
    pub open spec fn left_leaves(&self) -> Seq<BvhItem> {
        match self {
            BVHNode::Leaf { item } => Seq::empty(),
            BVHNode::Branch { axis, left, right } => left.leaves(),
        }
    }

    /// The items under the right child of a branch; none for a leaf.
    pub open spec fn right_leaves(&self) -> Seq<BvhItem> {
        match self {
            BVHNode::Leaf { item } => Seq::empty(),
            BVHNode::Branch { axis, left, right } => right.leaves(),
        }
    }

    /// Whether the children of this node hold the two halves of `sorted`,
    /// divided at the midpoint.
    pub open spec fn halves_of(&self, sorted: Seq<BvhItem>) -> bool {
        &&& self.left_leaves().to_multiset() == sorted.subrange(
            0,
            sorted.len() as int / 2,
        ).to_multiset()
        &&& self.right_leaves().to_multiset() == sorted.subrange(
            sorted.len() as int / 2,
            sorted.len() as int,
        ).to_multiset()
    }

    /// The axis a branch was split on.
    pub open spec fn split_axis(&self) -> Option<usize> {
        match self {
            BVHNode::Leaf { item } => None,
            BVHNode::Branch { axis, left, right } => Some(*axis),
        }
    }

    /// The branch over two items: the one with the lesser key on `axis`
    /// goes left; when neither is lesser, the second one does.
    pub fn pair(first: BvhItem, second: BvhItem, axis: usize) -> (node: BVHNode)
        requires
            axis < 3,
        ensures
            node.wf(),
            node.split_axis() == Some(axis),
            node.leaves() == if first.spec_key(axis) < second.spec_key(axis) {
                seq![first, second]
            } else {
                seq![second, first]
            },
    {
        proof {
            reveal_with_fuel(BVHNode::leaves, 2);
            reveal_with_fuel(BVHNode::wf, 2);
        }
        if first.key(axis) < second.key(axis) {
            let node = BVHNode::Branch {
                axis,
                left: Box::new(BVHNode::Leaf { item: first }),
                right: Box::new(BVHNode::Leaf { item: second }),
            };
            assert(node.leaves() =~= seq![first, second]);
            node
        } else {
            let node = BVHNode::Branch {
                axis,
                left: Box::new(BVHNode::Leaf { item: second }),
                right: Box::new(BVHNode::Leaf { item: first }),
            };
            assert(node.leaves() =~= seq![second, first]);
            node
        }
    }

    /// Builds the hierarchy over `items`, drawing a fresh axis at random for
    /// every node. Whatever is drawn, the hierarchy is well formed and holds
    /// exactly the given items.
    pub fn make(items: Vec<BvhItem>) -> (node: BVHNode)
        requires
            items@.len() >= 1,
        ensures
            node.wf(),
            node.leaves().to_multiset() == items@.to_multiset(),
            node.leaves().len() == items@.len(),
            items@.len() == 1 ==> node == (BVHNode::Leaf { item: items@[0] }),
            items@.len() >= 2 ==> node.split_axis() is Some,
        decreases items@.len(), 1int,
    {
        let axis = random_axis();
        BVHNode::make_on_axis(items, axis)
    }

    /// Builds the hierarchy over `items` with the root split on `axis`:
    /// one item becomes a leaf, two become a pair, and more are sorted on
    /// the axis, stably, and divided at the midpoint into two hierarchies
    /// of their own, each built with axes drawn afresh.
    pub fn make_on_axis(items: Vec<BvhItem>, axis: usize) -> (node: BVHNode)
        requires
            items@.len() >= 1,
            axis < 3,
        ensures
            node.wf(),
            node.leaves().to_multiset() == items@.to_multiset(),
            node.leaves().len() == items@.len(),
            items@.len() == 1 ==> node == (BVHNode::Leaf { item: items@[0] }),
            items@.len() >= 2 ==> node.split_axis() == Some(axis),
            items@.len() == 2 ==> node.leaves() == if items@[0].spec_key(axis) < items@[1].spec_key(
                axis,
            ) {
                seq![items@[0], items@[1]]
            } else {
                seq![items@[1], items@[0]]
            },
            items@.len() >= 3 ==> exists|sorted: Seq<BvhItem>| #[trigger]
                is_stable_sort(items@, sorted, axis) && node.halves_of(sorted),
        decreases items@.len(), 0int,
    {
        let n: usize = items.len();
        if n == 1 {
            let node = BVHNode::Leaf { item: items[0] };
            assert(node.leaves() =~= items@);
            node
        } else if n == 2 {
            let node = BVHNode::pair(items[0], items[1], axis);
            proof {
                assert(items@ =~= seq![items@[0]] + seq![items@[1]]);
                assert(seq![items@[0], items@[1]] =~= seq![items@[0]] + seq![items@[1]]);
                assert(seq![items@[1], items@[0]] =~= seq![items@[1]] + seq![items@[0]]);
                lemma_seq_union_to_multiset_commutative(seq![items@[0]], seq![items@[1]]);
            }
            node
        } else {
            let ghost given = items@;
            let mut items = items;
            sort_by_axis(&mut items, axis);
            let ghost sorted = items@;
            let half: usize = n / 2;
            let upper = items.split_off(half);
            let ghost low = items@;
            let ghost high = upper@;
            let left = BVHNode::make(items);
            let right = BVHNode::make(upper);
            proof {
                assert(sorted =~= low + high);
                lemma_multiset_commutative(low, high);
                lemma_multiset_commutative(left.leaves(), right.leaves());
                assert forall|a: int, b: int|
                    0 <= a < left.leaves().len() && 0 <= b < right.leaves().len() implies left.leaves()[a].spec_key(
                    axis,
                ) <= right.leaves()[b].spec_key(axis) by {
                    lemma_same_items(left.leaves(), low, a);
                    lemma_same_items(right.leaves(), high, b);
                    let p = choose|m: int| 0 <= m < low.len() && low[m] == left.leaves()[a];
                    let q = choose|m: int| 0 <= m < high.len() && high[m] == right.leaves()[b];
                    assert(sorted[p] == low[p]);
                    assert(sorted[half + q] == high[q]);
                }
            }
            let node = BVHNode::Branch { axis, left: Box::new(left), right: Box::new(right) };
            proof {
                assert(low =~= sorted.subrange(0, sorted.len() as int / 2));
                assert(high =~= sorted.subrange(sorted.len() as int / 2, sorted.len() as int));
                assert(is_stable_sort(given, sorted, axis) && node.halves_of(sorted));
            }
            node
        }
    }
}

} // verus!
