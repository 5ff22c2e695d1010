//! The bounding volume hierarchy: a binary tree over the primitives of a
//! scene, each node of which knows a box around everything below it.

use vstd::prelude::*;
use vstd::seq_lib::*;
use crate::aabb::Aabb;
use crate::scalar::Scalar;
use crate::rt_rand::rand_usize;
use crate::hitable::HitablePtr;
use crate::hitable::Hitable;
use crate::hitable::HitRecord;
use crate::hitable::answers;
use crate::hitable::closer;
use crate::hitable::nearer;
use crate::hitable::scanned;
use crate::hitable::kept;
use crate::hitable::reach;
use crate::permutation::identity;
use crate::permutation::lemma_permutation_holds;

verus! {

/// The rank, along an axis, of the least corner of the box of primitive `i`.
pub open spec fn min_rank(boxes: Seq<Aabb>, axis: int, i: usize) -> int {
    boxes[i as int].min.axis(axis).rank()
}

/// Every index names a box.
pub open spec fn in_range(indices: Seq<usize>, n: int) -> bool {
    forall|p: int| 0 <= p < indices.len() ==> (#[trigger] indices[p]) < n
}

/// Every box is well formed.
pub open spec fn all_wf(boxes: Seq<Aabb>) -> bool {
    forall|i: int| 0 <= i < boxes.len() ==> (#[trigger] boxes[i]).wf()
}

/// `after` lists the items of `before` by rising rank of their boxes' least
/// corners along the axis, items of equal rank in the order in which `before`
/// has them; `origin` gives, for each place in `after`, the place in `before`
/// that its item came from.
pub open spec fn sorted_from(
    before: Seq<usize>,
    after: Seq<usize>,
    boxes: Seq<Aabb>,
    axis: int,
    origin: Seq<int>,
) -> bool {
    &&& origin.len() == before.len()
    &&& after.len() == before.len()
    &&& forall|p: int|
        0 <= p < after.len() ==> 0 <= #[trigger] origin[p] < before.len() && after[p]
            == before[origin[p]]
    &&& forall|p: int, q: int|
        0 <= p < q < after.len() ==> {
            let kp = min_rank(boxes, axis, #[trigger] after[p]);
            let kq = min_rank(boxes, axis, #[trigger] after[q]);
            kp < kq || (kp == kq && origin[p] < origin[q])
        }
}

/// `after` is `before`, stably sorted by the least corners along the axis.
pub open spec fn stably_sorted(before: Seq<usize>, after: Seq<usize>, boxes: Seq<Aabb>, axis: int) -> bool {
    exists|origin: Seq<int>| sorted_from(before, after, boxes, axis, origin)
}

/// Whether every box is well formed.
pub fn boxes_wf(boxes: &Vec<Aabb>) -> (r: bool)
    ensures
        r == all_wf(boxes@),
{
    let mut i: usize = 0;
    while i < boxes.len()
        invariant
            i <= boxes@.len(),
            forall|k: int| 0 <= k < i ==> (#[trigger] boxes@[k]).wf(),
        decreases boxes@.len() - i,
    {
        if !boxes[i].is_wf() {
            return false;
        }
        i += 1;
    }
    true
}

/// Whether the box of `i` starts strictly before the box of `j` along the axis.
fn starts_before(boxes: &Vec<Aabb>, axis: usize, i: usize, j: usize) -> (r: bool)
    requires
        axis < 3,
        i < boxes.len(),
        j < boxes.len(),
        all_wf(boxes@),
    ensures
        r == (min_rank(boxes@, axis as int, i) < min_rank(boxes@, axis as int, j)),
{
    boxes[i].min.index(axis).lt(boxes[j].min.index(axis))
}

/// Sorts primitive indices by the least corner of their boxes along an axis,
/// keeping the order of those that start at the same place.
pub fn sort_by_min(indices: &mut Vec<usize>, boxes: &Vec<Aabb>, axis: usize)
    requires
        axis < 3,
        in_range(old(indices)@, boxes.len() as int),
        all_wf(boxes@),
    ensures
        stably_sorted(old(indices)@, final(indices)@, boxes@, axis as int),
        final(indices)@.to_multiset() == old(indices)@.to_multiset(),
{
    let n: usize = indices.len();
    let ghost before: Seq<usize> = indices@;
    let ghost mut origin: Seq<int> = Seq::new(n as nat, |p: int| p);
    let mut j: usize = 0;
    while j < n
        invariant
            j <= n,
            n == before.len(),
            axis < 3,
            all_wf(boxes@),
            in_range(before, boxes.len() as int),
            indices@.len() == n,
            origin.len() == n,
            indices@.to_multiset() == before.to_multiset(),
            in_range(indices@, boxes.len() as int),
            forall|p: int|
                0 <= p < n ==> 0 <= #[trigger] origin[p] < n && indices@[p] == before[origin[p]],
            forall|p: int| j <= p < n ==> origin[p] == p,
            forall|p: int| 0 <= p < j ==> origin[p] < j,
            forall|p: int, q: int|
                0 <= p < q < j ==> {
                    let kp = min_rank(boxes@, axis as int, #[trigger] indices@[p]);
                    let kq = min_rank(boxes@, axis as int, #[trigger] indices@[q]);
                    kp < kq || (kp == kq && origin[p] < origin[q])
                },
        decreases n - j,
    {
        let x: usize = indices[j];
        let mut p: usize = j;
        while p > 0 && starts_before(boxes, axis, x, indices[p - 1])
            invariant
                p <= j < n,
                axis < 3,
                all_wf(boxes@),
                indices@.len() == n,
                x == indices@[j as int],
                x < boxes.len(),
                forall|q: int| 0 <= q < n ==> (#[trigger] indices@[q]) < boxes.len(),
                forall|q: int|
                    p <= q < j ==> min_rank(boxes@, axis as int, x) < min_rank(
                        boxes@,
                        axis as int,
                        #[trigger] indices@[q],
                    ),
            decreases p,
        {
            p -= 1;
        }
        let ghost s0: Seq<usize> = indices@;
        let ghost o0: Seq<int> = origin;
        indices.remove(j);
        indices.insert(p, x);
        proof {
            origin = o0.remove(j as int).insert(p as int, j as int);
            let s1: Seq<usize> = s0.remove(j as int);
            let o1: Seq<int> = o0.remove(j as int);
            assert(o0[j as int] == j);
            assert(indices@ == s1.insert(p as int, x));
            to_multiset_remove(s0, j as int);
            to_multiset_insert(s1, p as int, x);
            to_multiset_contains(s0, x);
            assert(s0.contains(x));
            assert(s0.to_multiset().remove(x).insert(x) =~= s0.to_multiset()) by {
                broadcast use vstd::multiset::group_multiset_axioms;

            }
            assert(indices@.to_multiset() == before.to_multiset());
            assert forall|a: int| 0 <= a < n implies 0 <= #[trigger] origin[a] < n && indices@[a]
                == before[origin[a]] by {
                if a < p {
                    assert(origin[a] == o1[a] && indices@[a] == s1[a]);
                    assert(origin[a] == o0[a] && indices@[a] == s0[a]);
                } else if a == p {
                    assert(origin[a] == j && indices@[a] == x);
                } else if a <= j {
                    assert(origin[a] == o1[a - 1] && indices@[a] == s1[a - 1]);
                    assert(origin[a] == o0[a - 1] && indices@[a] == s0[a - 1]);
                } else {
                    assert(origin[a] == o1[a - 1] && indices@[a] == s1[a - 1]);
                    assert(origin[a] == o0[a] && indices@[a] == s0[a]);
                }
            }
            assert forall|a: int| 0 <= a < n implies (#[trigger] indices@[a]) < boxes.len() by {
                assert(indices@[a] == before[origin[a]]);
            }
            assert forall|a: int| j + 1 <= a < n implies origin[a] == a by {
                assert(origin[a] == o0[a]);
            }
            assert forall|a: int| 0 <= a < j + 1 implies origin[a] < j + 1 by {
                if a < p {
                    assert(origin[a] == o0[a]);
                } else if a == p {
                } else {
                    assert(origin[a] == o0[a - 1]);
                }
            }
            assert forall|a: int, b: int| 0 <= a < b < j + 1 implies ({
                let ka = min_rank(boxes@, axis as int, #[trigger] indices@[a]);
                let kb = min_rank(boxes@, axis as int, #[trigger] indices@[b]);
                ka < kb || (ka == kb && origin[a] < origin[b])
            }) by {
                let old_a = if a < p { a } else { a - 1 };
                let old_b = if b < p { b } else { b - 1 };
                if a != p {
                    assert(indices@[a] == s0[old_a] && origin[a] == o0[old_a]);
                }
                if b != p {
                    assert(indices@[b] == s0[old_b] && origin[b] == o0[old_b]);
                }
                if b == p {
                    // a < p: the item at p - 1 does not start after x, and
                    // none before it starts after that one.
                    assert(!(min_rank(boxes@, axis as int, x) < min_rank(
                        boxes@,
                        axis as int,
                        s0[p - 1],
                    )));
                    if a < p - 1 {
                        let ka = min_rank(boxes@, axis as int, s0[a]);
                        let kb = min_rank(boxes@, axis as int, s0[p - 1]);
                        assert(ka < kb || (ka == kb && o0[a] < o0[p - 1]));
                    }
                    assert(o0[a] < j);
                } else if a == p {
                    assert(p <= old_b < j);
                } else {
                    let ka = min_rank(boxes@, axis as int, s0[old_a]);
                    let kb = min_rank(boxes@, axis as int, s0[old_b]);
                    assert(ka < kb || (ka == kb && o0[old_a] < o0[old_b]));
                }
            }
        }
        j += 1;
    }
    proof {
        assert(sorted_from(before, indices@, boxes@, axis as int, origin));
    }
}

/// What hangs under a node: a primitive, named by its place in the list the
/// hierarchy was built over, or another node, named by its place in the arena.
#[derive(Clone, Copy, Debug)]
pub enum Child {
    Prim(usize),
    Node(usize),
}

/// A node of the hierarchy. A node over a single primitive has no right
/// child.
#[derive(Clone, Copy, Debug)]
pub struct BvhNode {
    pub left: Child,
    pub right: Option<Child>,
    pub bbox: Aabb,
}

/// The box of a child.
pub open spec fn child_box(nodes: Seq<BvhNode>, boxes: Seq<Aabb>, c: Child) -> Aabb {
    match c {
        Child::Prim(i) => boxes[i as int],
        Child::Node(j) => nodes[j as int].bbox,
    }
}

/// A child of node `k` names a primitive that exists or a node built before
/// `k`.
pub open spec fn child_ok(c: Child, k: int, n: int) -> bool {
    match c {
        Child::Prim(i) => i < n,
        Child::Node(j) => j < k,
    }
}

/// Node `k` has sound children, and its box is the join of theirs.
pub open spec fn node_ok(nodes: Seq<BvhNode>, boxes: Seq<Aabb>, k: int) -> bool {
    let node = nodes[k];
    &&& child_ok(node.left, k, boxes.len() as int)
    &&& match node.right {
        None => node.bbox == child_box(nodes, boxes, node.left),
        Some(r) => child_ok(r, k, boxes.len() as int) && node.bbox == child_box(
            nodes,
            boxes,
            node.left,
        ).join(child_box(nodes, boxes, r)),
    }
}

/// Every node of the arena is sound. Children come before their parents, so
/// the arena holds no cycle.
pub open spec fn tree_ok(nodes: Seq<BvhNode>, boxes: Seq<Aabb>) -> bool {
    forall|k: int| 0 <= k < nodes.len() ==> node_ok(nodes, boxes, k)
}

/// `b` holds `a` and perhaps more nodes after it.
pub open spec fn extends(b: Seq<BvhNode>, a: Seq<BvhNode>) -> bool {
    a.len() <= b.len() && forall|i: int| 0 <= i < a.len() ==> a[i] == b[i]
}

/// The primitives under a child of node `k`.
pub open spec fn child_leaves(nodes: Seq<BvhNode>, c: Child, k: int) -> Seq<usize>
    decreases k, 0int,
{
    match c {
        Child::Prim(i) => seq![i],
        Child::Node(j) => if 0 <= j < k {
            leaves(nodes, j as int)
        } else {
            Seq::empty()
        },
    }
}

/// The primitives under node `k`, from left to right.
pub open spec fn leaves(nodes: Seq<BvhNode>, k: int) -> Seq<usize>
    decreases k, 1int,
{
    if 0 <= k < nodes.len() {
        child_leaves(nodes, nodes[k].left, k) + match nodes[k].right {
            None => Seq::empty(),
            Some(r) => child_leaves(nodes, r, k),
        }
    } else {
        Seq::empty()
    }
}

/// The subtree of node `k` has the shape that halving gives: a node holds one
/// primitive, or two, or two subtrees over three primitives or more, of which
/// the left one has half of them, rounded down.
pub open spec fn balanced(nodes: Seq<BvhNode>, k: int) -> bool
    decreases k,
{
    0 <= k < nodes.len() && match (nodes[k].left, nodes[k].right) {
        (Child::Prim(_), None) => true,
        (Child::Prim(_), Some(Child::Prim(_))) => true,
        (Child::Node(l), Some(Child::Node(r))) => {
            &&& 0 <= l < k
            &&& 0 <= r < k
            &&& balanced(nodes, l as int)
            &&& balanced(nodes, r as int)
            &&& leaves(nodes, l as int).len() + leaves(nodes, r as int).len() >= 3
            &&& leaves(nodes, l as int).len() == (leaves(nodes, l as int).len() + leaves(
                nodes,
                r as int,
            ).len()) / 2
        },
        _ => false,
    }
}

/// Along the axis, no box of `left` starts after a box of `right`.
pub open spec fn split_along(boxes: Seq<Aabb>, axis: int, left: Seq<usize>, right: Seq<usize>) -> bool {
    forall|p: int, q: int|
        0 <= p < left.len() && 0 <= q < right.len() ==> min_rank(boxes, axis, #[trigger] left[p])
            <= min_rank(boxes, axis, #[trigger] right[q])
}

/// Wherever a node of the subtree of `k` has two subtrees, there is an axis
/// along which no box of the left one starts after a box of the right one.
pub open spec fn ordered(nodes: Seq<BvhNode>, boxes: Seq<Aabb>, k: int) -> bool
    decreases k,
{
    0 <= k < nodes.len() && match (nodes[k].left, nodes[k].right) {
        (Child::Node(l), Some(Child::Node(r))) => {
            &&& 0 <= l < k
            &&& 0 <= r < k
            &&& ordered(nodes, boxes, l as int)
            &&& ordered(nodes, boxes, r as int)
            &&& exists|axis: int|
                0 <= axis < 3 && #[trigger] split_along(
                    boxes,
                    axis,
                    leaves(nodes, l as int),
                    leaves(nodes, r as int),
                )
        },
        _ => true,
    }
}

/// Nodes added to an arena change nothing under the nodes that were there.
pub proof fn lemma_extends(a: Seq<BvhNode>, b: Seq<BvhNode>, boxes: Seq<Aabb>, k: int)
    requires
        extends(b, a),
        0 <= k < a.len(),
    ensures
        leaves(b, k) == leaves(a, k),
        balanced(b, k) == balanced(a, k),
        ordered(b, boxes, k) == ordered(a, boxes, k),
    decreases k,
{
    assert(a[k] == b[k]);
    match a[k].left {
        Child::Node(l) => {
            if 0 <= l < k {
                lemma_extends(a, b, boxes, l as int);
            }
        },
        _ => {},
    }
    match a[k].right {
        Some(Child::Node(r)) => {
            if 0 <= r < k {
                lemma_extends(a, b, boxes, r as int);
            }
        },
        _ => {},
    }
}

/// In a sound arena over well-formed boxes every node's box is well formed
/// and contains the box of every primitive under the node.
pub proof fn lemma_node_box(nodes: Seq<BvhNode>, boxes: Seq<Aabb>, k: int, p: int)
    requires
        tree_ok(nodes, boxes),
        all_wf(boxes),
        0 <= k < nodes.len(),
        0 <= p < leaves(nodes, k).len(),
    ensures
        nodes[k].bbox.wf(),
        leaves(nodes, k)[p] < boxes.len(),
        nodes[k].bbox.contains(boxes[leaves(nodes, k)[p] as int]),
    decreases k,
{
    lemma_node_wf(nodes, boxes, k);
    assert(node_ok(nodes, boxes, k));
    let left = child_leaves(nodes, nodes[k].left, k);
    let lb = child_box(nodes, boxes, nodes[k].left);
    assert(lb.wf()) by {
        match nodes[k].left {
            Child::Prim(i) => {},
            Child::Node(j) => {
                lemma_node_wf(nodes, boxes, j as int);
            },
        }
    }
    match nodes[k].right {
        None => {},
        Some(r) => {
            match r {
                Child::Prim(i) => {},
                Child::Node(j) => {
                    lemma_node_wf(nodes, boxes, j as int);
                },
            }
        },
    }
    if p < left.len() {
        match nodes[k].left {
            Child::Prim(i) => {},
            Child::Node(j) => {
                lemma_node_box(nodes, boxes, j as int, p);
            },
        }
    } else {
        match nodes[k].right {
            None => {},
            Some(Child::Prim(i)) => {},
            Some(Child::Node(j)) => {
                lemma_node_box(nodes, boxes, j as int, p - left.len());
            },
        }
    }
}

/// In a sound arena over well-formed boxes every node's box is well formed.
pub proof fn lemma_node_wf(nodes: Seq<BvhNode>, boxes: Seq<Aabb>, k: int)
    requires
        tree_ok(nodes, boxes),
        all_wf(boxes),
        0 <= k < nodes.len(),
    ensures
        nodes[k].bbox.wf(),
    decreases k,
{
    assert(node_ok(nodes, boxes, k));
    match nodes[k].left {
        Child::Prim(i) => {},
        Child::Node(j) => {
            lemma_node_wf(nodes, boxes, j as int);
        },
    }
    match nodes[k].right {
        Some(Child::Node(j)) => {
            lemma_node_wf(nodes, boxes, j as int);
        },
        _ => {},
    }
}

/// Builds the subtree over the primitives that `indices` names, adds its
/// nodes to the arena, and returns the place of its root, which is the last
/// node added.
///
/// One primitive gives a node with a single child, two give a node that holds
/// both. Three or more are sorted along an axis drawn at random, by the least
/// corner of their boxes, and split in the middle; each half becomes a
/// subtree. Whatever the axes drawn, the subtree holds each primitive once,
/// every node's box is the join of its children's boxes, the halves have the
/// sizes that halving gives, and at each split no box of the left half starts
/// after a box of the right half along some axis.
pub fn build(boxes: &Vec<Aabb>, indices: Vec<usize>, nodes: &mut Vec<BvhNode>) -> (root: usize)
    requires
        indices@.len() > 0,
        in_range(indices@, boxes@.len() as int),
        all_wf(boxes@),
        tree_ok(old(nodes)@, boxes@),
    ensures
        extends(final(nodes)@, old(nodes)@),
        final(nodes)@.len() > old(nodes)@.len(),
        root == final(nodes)@.len() - 1,
        tree_ok(final(nodes)@, boxes@),
        leaves(final(nodes)@, root as int).to_multiset() == indices@.to_multiset(),
        balanced(final(nodes)@, root as int),
        ordered(final(nodes)@, boxes@, root as int),
    decreases indices@.len(),
{
    let mut indices = indices;
    let n: usize = indices.len();
    let ghost given: Seq<usize> = indices@;
    let ghost arena0: Seq<BvhNode> = nodes@;
    if n == 1 {
        let i: usize = indices[0];
        nodes.push(BvhNode { left: Child::Prim(i), right: None, bbox: boxes[i] });
        proof {
            let k = nodes@.len() - 1;
            assert(node_ok(nodes@, boxes@, k));
            assert forall|j: int| 0 <= j < nodes@.len() implies node_ok(nodes@, boxes@, j) by {
                if j < k {
                    assert(node_ok(arena0, boxes@, j));
                }
            }
            assert(leaves(nodes@, k) =~= seq![i]);
            assert(given =~= seq![i]);
        }
        nodes.len() - 1
    } else if n == 2 {
        let i: usize = indices[0];
        let j: usize = indices[1];
        let bbox: Aabb = Aabb::surrounding_box(&boxes[i], &boxes[j]);
        nodes.push(BvhNode { left: Child::Prim(i), right: Some(Child::Prim(j)), bbox });
        proof {
            let k = nodes@.len() - 1;
            assert(node_ok(nodes@, boxes@, k));
            assert forall|m: int| 0 <= m < nodes@.len() implies node_ok(nodes@, boxes@, m) by {
                if m < k {
                    assert(node_ok(arena0, boxes@, m));
                }
            }
            assert(leaves(nodes@, k) =~= seq![i, j]);
            assert(given =~= seq![i, j]);
        }
        nodes.len() - 1
    } else {
        let axis: usize = rand_usize() % 3;
        sort_by_min(&mut indices, boxes, axis);
        let ghost sorted: Seq<usize> = indices@;
        let right: Vec<usize> = indices.split_off(n / 2);
        let ghost left_seq: Seq<usize> = indices@;
        let ghost right_seq: Seq<usize> = right@;
        proof {
            assert(sorted =~= left_seq + right_seq);
            lemma_multiset_commutative(left_seq, right_seq);
            let origin = choose|origin: Seq<int>|
                sorted_from(given, sorted, boxes@, axis as int, origin);
            assert forall|p: int| 0 <= p < sorted.len() implies (#[trigger] sorted[p])
                < boxes@.len() by {
                assert(sorted[p] == given[origin[p]]);
            }
            assert forall|p: int| 0 <= p < left_seq.len() implies (#[trigger] left_seq[p])
                < boxes@.len() by {
                assert(left_seq[p] == sorted[p]);
            }
            assert forall|p: int| 0 <= p < right_seq.len() implies (#[trigger] right_seq[p])
                < boxes@.len() by {
                assert(right_seq[p] == sorted[p + n / 2]);
            }
        }
        let l: usize = build(boxes, indices, nodes);
        let ghost arena1: Seq<BvhNode> = nodes@;
        let r: usize = build(boxes, right, nodes);
        let ghost arena2: Seq<BvhNode> = nodes@;
        let bbox: Aabb = Aabb::surrounding_box(&nodes[l].bbox, &nodes[r].bbox);
        nodes.push(BvhNode { left: Child::Node(l), right: Some(Child::Node(r)), bbox });
        proof {
            let k = nodes@.len() - 1;
            let arena3 = nodes@;
            assert(extends(arena3, arena2));
            assert(extends(arena2, arena1));
            assert(extends(arena3, arena1));
            lemma_extends(arena1, arena3, boxes@, l as int);
            lemma_extends(arena2, arena3, boxes@, r as int);
            assert(node_ok(arena3, boxes@, k));
            assert forall|m: int| 0 <= m < arena3.len() implies node_ok(arena3, boxes@, m) by {
                if m < k {
                    assert(node_ok(arena2, boxes@, m));
                }
            }
            let ll = leaves(arena3, l as int);
            let rl = leaves(arena3, r as int);
            assert(leaves(arena3, k) == ll + rl);
            lemma_multiset_commutative(ll, rl);
            assert(leaves(arena3, k).to_multiset() =~= given.to_multiset());
            to_multiset_len(ll);
            to_multiset_len(rl);
            to_multiset_len(left_seq);
            to_multiset_len(right_seq);
            assert(ll.len() == n / 2);
            assert(rl.len() == n - n / 2);
            assert(balanced(arena3, k));
            assert(split_along(boxes@, axis as int, ll, rl)) by {
                assert forall|p: int, q: int| 0 <= p < ll.len() && 0 <= q < rl.len() implies min_rank(
                    boxes@,
                    axis as int,
                    #[trigger] ll[p],
                ) <= min_rank(boxes@, axis as int, #[trigger] rl[q]) by {
                    to_multiset_contains(ll, ll[p]);
                    to_multiset_contains(left_seq, ll[p]);
                    to_multiset_contains(rl, rl[q]);
                    to_multiset_contains(right_seq, rl[q]);
                    assert(ll.contains(ll[p]));
                    assert(rl.contains(rl[q]));
                    let a = choose|a: int| 0 <= a < left_seq.len() && left_seq[a] == ll[p];
                    let b = choose|b: int| 0 <= b < right_seq.len() && right_seq[b] == rl[q];
                    assert(sorted[a] == ll[p]);
                    assert(sorted[b + n / 2] == rl[q]);
                }
            }
            assert(ordered(arena3, boxes@, k));
        }
        nodes.len() - 1
    }
}

/// A bounding volume hierarchy over a list of surfaces. Its parts can be
/// read but not changed, so that every hierarchy is a well-formed one.
pub struct Bvh {
    hitables: Vec<HitablePtr>,
    boxes: Vec<Aabb>,
    nodes: Vec<BvhNode>,
    root: usize,
}

/// What a hierarchy holds: the surfaces, their boxes, the arena of nodes and
/// the place of the root in it.
pub struct BvhView {
    pub hitables: Seq<HitablePtr>,
    pub boxes: Seq<Aabb>,
    pub nodes: Seq<BvhNode>,
    pub root: int,
}

impl BvhView {
    /// The hierarchy is a sound tree over the boxes of its surfaces, holds
    /// each surface once, and has the shape and the order that building by
    /// halving gives.
    pub open spec fn wf(self) -> bool {
        &&& self.boxes.len() == self.hitables.len()
        &&& self.boxes.len() > 0
        &&& self.boxes.len() <= usize::MAX
        &&& all_wf(self.boxes)
        &&& tree_ok(self.nodes, self.boxes)
        &&& 0 <= self.root < self.nodes.len()
        &&& leaves(self.nodes, self.root).to_multiset() == identity(self.boxes.len()).to_multiset()
        &&& balanced(self.nodes, self.root)
        &&& ordered(self.nodes, self.boxes, self.root)
    }
}

impl View for Bvh {
    type V = BvhView;

    closed spec fn view(&self) -> BvhView {
        BvhView {
            hitables: self.hitables@,
            boxes: self.boxes@,
            nodes: self.nodes@,
            root: self.root as int,
        }
    }
}

/// What a box test may answer: `(b, lo, hi, r)` stands for "asked whether
/// the ray meets the box `b` between `lo` and `hi`, the test may return `r`".
pub open spec fn tests<B: Fn(&Aabb, Scalar, Scalar) -> bool>(box_test: &B) -> spec_fn(
    Aabb,
    Scalar,
    Scalar,
    bool,
) -> bool {
    |b: Aabb, lo: Scalar, hi: Scalar, r: bool| box_test.ensures((&b, lo, hi), r)
}

/// `r` is what a query may find under a child of node `k`: for a primitive an
/// answer of the probe, for a node what a query may find under it.
pub open spec fn child_visited(
    nodes: Seq<BvhNode>,
    box_rel: spec_fn(Aabb, Scalar, Scalar, bool) -> bool,
    rel: spec_fn(int, Scalar, Scalar, Option<HitRecord>) -> bool,
    t_min: Scalar,
    t_max: Scalar,
    c: Child,
    k: int,
    r: Option<HitRecord>,
) -> bool
    decreases k, 0int,
{
    match c {
        Child::Prim(i) => rel(i as int, t_min, t_max, r),
        Child::Node(j) => 0 <= j < k && visited(nodes, box_rel, rel, t_min, t_max, j as int, r),
    }
}

/// `r` is what a query between `t_min` and `t_max` may find under node `k`:
/// nothing where the test on the node's box fails; else what it finds under
/// the only child, or the nearer of what it finds under the two children,
/// each asked over the whole range.
pub open spec fn visited(
    nodes: Seq<BvhNode>,
    box_rel: spec_fn(Aabb, Scalar, Scalar, bool) -> bool,
    rel: spec_fn(int, Scalar, Scalar, Option<HitRecord>) -> bool,
    t_min: Scalar,
    t_max: Scalar,
    k: int,
    r: Option<HitRecord>,
) -> bool
    decreases k, 1int,
{
    0 <= k < nodes.len() && ((box_rel(nodes[k].bbox, t_min, t_max, false) && r is None) || (box_rel(
        nodes[k].bbox,
        t_min,
        t_max,
        true,
    ) && match nodes[k].right {
        None => child_visited(nodes, box_rel, rel, t_min, t_max, nodes[k].left, k, r),
        Some(right) => exists|a: Option<HitRecord>, b: Option<HitRecord>|
            #![trigger nearer(a, b)]
            child_visited(nodes, box_rel, rel, t_min, t_max, nodes[k].left, k, a) && child_visited(
                nodes,
                box_rel,
                rel,
                t_min,
                t_max,
                right,
                k,
                b,
            ) && r == nearer(a, b),
    }))
}

impl Bvh {
    #[verifier::type_invariant]
    closed spec fn inv(&self) -> bool {
        self@.wf()
    }

    /// The hierarchy over the given surfaces, of which `boxes` holds the
    /// bounding boxes, one for each surface and in the same order.
    pub fn new(hitables: Vec<HitablePtr>, boxes: Vec<Aabb>) -> (r: Bvh)
        requires
            hitables@.len() == boxes@.len(),
            boxes@.len() > 0,
            all_wf(boxes@),
        ensures
            r@.wf(),
            r@.hitables == hitables@,
            r@.boxes == boxes@,
    {
        let n: usize = hitables.len();
        let mut indices: Vec<usize> = Vec::with_capacity(n);
        let mut i: usize = 0;
        while i < n
            invariant
                i <= n,
                indices@.len() == i,
                forall|k: int| 0 <= k < i ==> indices@[k] == k,
            decreases n - i,
        {
            indices.push(i);
            i += 1;
        }
        assert(indices@ =~= identity(n as nat));
        let mut nodes: Vec<BvhNode> = Vec::new();
        let root: usize = build(&boxes, indices, &mut nodes);
        Bvh { hitables, boxes, nodes, root }
    }

    /// The surfaces of the hierarchy, in the order in which they were given.
    pub fn hitables(&self) -> (r: &Vec<HitablePtr>)
        ensures
            r@ == self@.hitables,
            self@.wf(),
    {
        proof {
            use_type_invariant(self);
        }
        &self.hitables
    }

    /// The boxes of the surfaces.
    pub fn boxes(&self) -> (r: &Vec<Aabb>)
        ensures
            r@ == self@.boxes,
            self@.wf(),
    {
        proof {
            use_type_invariant(self);
        }
        &self.boxes
    }

    /// The arena of nodes.
    pub fn nodes(&self) -> (r: &Vec<BvhNode>)
        ensures
            r@ == self@.nodes,
            self@.wf(),
    {
        proof {
            use_type_invariant(self);
        }
        &self.nodes
    }

    /// The place of the root in the arena.
    pub fn root(&self) -> (r: usize)
        ensures
            r == self@.root,
            self@.wf(),
    {
        proof {
            use_type_invariant(self);
        }
        self.root
    }

    /// What a query finds under a child of node `k`.
    fn hit_child<B: Fn(&Aabb, Scalar, Scalar) -> bool, P: Fn(&Hitable, Scalar, Scalar) -> Option<
        HitRecord,
    >>(&self, box_test: &B, probe: &P, c: Child, k: usize, t_min: Scalar, t_max: Scalar) -> (r:
        Option<HitRecord>)
        requires
            k < self@.nodes.len(),
            child_ok(c, k as int, self@.boxes.len() as int),
            forall|b: Aabb, lo: Scalar, hi: Scalar| box_test.requires((&b, lo, hi)),
            forall|i: int, lo: Scalar, hi: Scalar|
                0 <= i < self@.hitables.len() ==> probe.requires((&*self@.hitables[i], lo, hi)),
        ensures
            child_visited(
                self@.nodes,
                tests(box_test),
                answers(self@.hitables, probe),
                t_min,
                t_max,
                c,
                k as int,
                r,
            ),
        decreases k, 0int,
    {
        proof {
            use_type_invariant(self);
        }
        match c {
            Child::Prim(i) => probe(&*self.hitables[i], t_min, t_max),
            Child::Node(j) => self.hit_node(box_test, probe, j, t_min, t_max),
        }
    }

    /// What a query finds under node `k`.
    fn hit_node<B: Fn(&Aabb, Scalar, Scalar) -> bool, P: Fn(&Hitable, Scalar, Scalar) -> Option<
        HitRecord,
    >>(&self, box_test: &B, probe: &P, k: usize, t_min: Scalar, t_max: Scalar) -> (r: Option<
        HitRecord,
    >)
        requires
            k < self@.nodes.len(),
            forall|b: Aabb, lo: Scalar, hi: Scalar| box_test.requires((&b, lo, hi)),
            forall|i: int, lo: Scalar, hi: Scalar|
                0 <= i < self@.hitables.len() ==> probe.requires((&*self@.hitables[i], lo, hi)),
        ensures
            visited(
                self@.nodes,
                tests(box_test),
                answers(self@.hitables, probe),
                t_min,
                t_max,
                k as int,
                r,
            ),
        decreases k, 1int,
    {
        proof {
            use_type_invariant(self);
        }
        let node: BvhNode = self.nodes[k];
        assert(node_ok(self.nodes@, self.boxes@, k as int));
        if !box_test(&node.bbox, t_min, t_max) {
            return None;
        }
        match node.right {
            None => self.hit_child(box_test, probe, node.left, k, t_min, t_max),
            Some(right) => {
                let a: Option<HitRecord> = self.hit_child(box_test, probe, node.left, k, t_min, t_max);
                let b: Option<HitRecord> = self.hit_child(box_test, probe, right, k, t_min, t_max);
                let ghost ga = a;
                let ghost gb = b;
                let r = closer(a, b);
                assert(r == nearer(ga, gb));
                r
            },
        }
    }

    /// The nearest hit on the surfaces of the hierarchy between `t_min` and
    /// `t_max`, where `box_test` tells whether the ray meets a box and
    /// `probe` finds the hit on one surface. A node whose box the ray misses
    /// is left out with all that hangs under it.
    pub fn hit<B: Fn(&Aabb, Scalar, Scalar) -> bool, P: Fn(&Hitable, Scalar, Scalar) -> Option<
        HitRecord,
    >>(&self, box_test: &B, probe: &P, t_min: Scalar, t_max: Scalar) -> (r: Option<HitRecord>)
        requires
            forall|b: Aabb, lo: Scalar, hi: Scalar| box_test.requires((&b, lo, hi)),
            forall|i: int, lo: Scalar, hi: Scalar|
                0 <= i < self@.hitables.len() ==> probe.requires((&*self@.hitables[i], lo, hi)),
        ensures
            self@.wf(),
            visited(
                self@.nodes,
                tests(box_test),
                answers(self@.hitables, probe),
                t_min,
                t_max,
                self@.root,
                r,
            ),
    {
        proof {
            use_type_invariant(self);
        }
        self.hit_node(box_test, probe, self.root, t_min, t_max)
    }

    /// The box around all the surfaces of the hierarchy, whatever the time.
    pub fn bounding_box(&self) -> (r: Aabb)
        ensures
            self@.wf(),
            r == self@.nodes[self@.root].bbox,
            r.wf(),
            forall|i: int| 0 <= i < self@.boxes.len() ==> r.contains(#[trigger] self@.boxes[i]),
    {
        proof {
            use_type_invariant(self);
            lemma_node_wf(self.nodes@, self.boxes@, self.root as int);
            assert forall|i: int| 0 <= i < self.boxes@.len() implies self.nodes@[self.root as int].bbox.contains(
                #[trigger] self.boxes@[i],
            ) by {
                let all = leaves(self.nodes@, self.root as int);
                let x: usize = i as usize;
                to_multiset_len(all);
                to_multiset_len(identity(self.boxes@.len()));
                assert(all.len() == self.boxes@.len());
                lemma_permutation_holds(all, x);
                let p = choose|p: int| 0 <= p < all.len() && all[p] == x;
                lemma_node_box(self.nodes@, self.boxes@, self.root as int, p);
            }
        }
        self.nodes[self.root].bbox
    }
}

/// Whether, asked for a hit on primitive `i` between `lo` and `hi`, the probe
/// may return `r`.
pub open spec fn asked(
    rel: spec_fn(int, Scalar, Scalar, Option<HitRecord>) -> bool,
    i: int,
    lo: Scalar,
    hi: Scalar,
    r: Option<HitRecord>,
) -> bool {
    rel(i, lo, hi, r)
}

/// The probe answers as surfaces do that a ray meets at fixed places, of
/// which `first(i)` is the nearest on primitive `i` between `t_min` and
/// `t_max`: asked up to a bound that is not beyond `t_max`, it finds a hit
/// only at the distance of the first one and not beyond the bound, and it
/// finds nothing only where there is no first hit, or where the bound is
/// short of `t_max` and the first hit is not short of the bound.
pub open spec fn consistent(
    rel: spec_fn(int, Scalar, Scalar, Option<HitRecord>) -> bool,
    first: spec_fn(int) -> Option<HitRecord>,
    n: int,
    t_min: Scalar,
    t_max: Scalar,
) -> bool {
    &&& !t_max.nan()
    &&& forall|i: int, hi: Scalar, r: Option<HitRecord>|
        0 <= i < n && !hi.nan() && hi.rank() <= t_max.rank() && #[trigger] asked(
            rel,
            i,
            t_min,
            hi,
            r,
        ) ==> match r {
            Some(h) => first(i) matches Some(f) && !h.t.nan() && h.t.rank() == f.t.rank()
                && h.t.rank() <= hi.rank(),
            None => first(i) matches Some(f) ==> hi.rank() <= f.t.rank() && hi.rank()
                < t_max.rank(),
        }
}

/// The box test errs on one side only: where it may fail on a box, the ray
/// has no first hit on any primitive whose box lies within that box.
pub open spec fn conservative(
    box_rel: spec_fn(Aabb, Scalar, Scalar, bool) -> bool,
    first: spec_fn(int) -> Option<HitRecord>,
    boxes: Seq<Aabb>,
    t_min: Scalar,
    t_max: Scalar,
) -> bool {
    forall|b: Aabb, i: int|
        0 <= i < boxes.len() && #[trigger] b.contains(boxes[i]) && box_rel(b, t_min, t_max, false)
            ==> first(i) is None
}

/// `hit` is as near as the nearest of the first hits on the primitives
/// listed: there is none where none of them has a first hit, and else it lies
/// at the distance of one of them and no farther than any.
pub open spec fn nearest_of(
    first: spec_fn(int) -> Option<HitRecord>,
    prims: Seq<usize>,
    hit: Option<HitRecord>,
) -> bool {
    match hit {
        None => forall|p: int| 0 <= p < prims.len() ==> first(#[trigger] prims[p] as int) is None,
        Some(h) => {
            &&& !h.t.nan()
            &&& forall|p: int|
                0 <= p < prims.len() ==> (first(#[trigger] prims[p] as int) matches Some(f)
                    ==> h.t.rank() <= f.t.rank())
            &&& exists|p: int|
                0 <= p < prims.len() && (first(#[trigger] prims[p] as int) matches Some(f)
                    && f.t.rank() == h.t.rank())
        },
    }
}

/// The nearer of the nearest hits on two lists of primitives is the nearest
/// hit on both lists together.
pub proof fn lemma_nearest_joined(
    first: spec_fn(int) -> Option<HitRecord>,
    x: Seq<usize>,
    y: Seq<usize>,
    a: Option<HitRecord>,
    b: Option<HitRecord>,
)
    requires
        nearest_of(first, x, a),
        nearest_of(first, y, b),
    ensures
        nearest_of(first, x + y, nearer(a, b)),
{
    let z = x + y;
    let r = nearer(a, b);
    assert forall|p: int| 0 <= p < z.len() implies (#[trigger] z[p]) == if p < x.len() {
        x[p]
    } else {
        y[p - x.len()]
    } by {}
    if a is Some {
        let p = choose|p: int|
            0 <= p < x.len() && (first(#[trigger] x[p] as int) matches Some(f) && f.t.rank()
                == a->0.t.rank());
        assert(z[p] == x[p]);
    }
    if b is Some {
        let q = choose|q: int|
            0 <= q < y.len() && (first(#[trigger] y[q] as int) matches Some(f) && f.t.rank()
                == b->0.t.rank());
        assert(z[q + x.len()] == y[q]);
    }
    match r {
        None => {
            assert forall|p: int| 0 <= p < z.len() implies first(#[trigger] z[p] as int) is None by {
                if p < x.len() {
                    assert(z[p] == x[p]);
                } else {
                    assert(z[p] == y[p - x.len()]);
                }
            }
        },
        Some(h) => {
            assert forall|p: int| 0 <= p < z.len() implies (first(#[trigger] z[p] as int) matches Some(
                f,
            ) ==> h.t.rank() <= f.t.rank()) by {
                if p < x.len() {
                    assert(z[p] == x[p]);
                } else {
                    assert(z[p] == y[p - x.len()]);
                }
            }
        },
    }
}

/// With a consistent probe, what a scan of the first `n` primitives holds is
/// the nearest of their first hits, and the scan looks no further than that.
pub proof fn lemma_scanned_nearest(
    rel: spec_fn(int, Scalar, Scalar, Option<HitRecord>) -> bool,
    first: spec_fn(int) -> Option<HitRecord>,
    total: int,
    t_min: Scalar,
    t_max: Scalar,
    n: int,
    hit: Option<HitRecord>,
    closest: Scalar,
)
    requires
        consistent(rel, first, total, t_min, t_max),
        0 <= n <= total <= usize::MAX,
        scanned(rel, t_min, t_max, n, hit, closest),
    ensures
        nearest_of(first, identity(n as nat), hit),
        !closest.nan(),
        closest.rank() <= t_max.rank(),
        closest == reach(t_max, hit),
    decreases n,
{
    if n > 0 {
        let (held, c0, found) = choose|held: Option<HitRecord>, c0: Scalar, found: Option<HitRecord>|
            #![trigger kept(held, found), reach(c0, found)]
            scanned(rel, t_min, t_max, n - 1, held, c0) && rel(n - 1, t_min, c0, found) && hit
                == kept(held, found) && closest == reach(c0, found);
        lemma_scanned_nearest(rel, first, total, t_min, t_max, n - 1, held, c0);
        assert(asked(rel, n - 1, t_min, c0, found));
        let before = identity((n - 1) as nat);
        let now = identity(n as nat);
        assert forall|p: int| 0 <= p < n - 1 implies (#[trigger] now[p]) == before[p] by {}
        assert(now[n - 1] == (n - 1) as usize);
        match found {
            Some(h) => {
                assert forall|p: int| 0 <= p < now.len() implies (first(
                    #[trigger] now[p] as int,
                ) matches Some(g) ==> h.t.rank() <= g.t.rank()) by {
                    if p < n - 1 {
                        assert(now[p] == before[p]);
                    }
                }
                assert(first(now[n - 1] as int) matches Some(f) && f.t.rank() == h.t.rank());
            },
            None => {
                match held {
                    None => {
                        assert forall|p: int| 0 <= p < now.len() implies first(
                            #[trigger] now[p] as int,
                        ) is None by {
                            if p < n - 1 {
                                assert(now[p] == before[p]);
                            }
                        }
                    },
                    Some(m) => {
                        assert forall|p: int| 0 <= p < now.len() implies (first(
                            #[trigger] now[p] as int,
                        ) matches Some(g) ==> m.t.rank() <= g.t.rank()) by {
                            if p < n - 1 {
                                assert(now[p] == before[p]);
                            }
                        }
                        let w = choose|w: int|
                            0 <= w < before.len() && (first(#[trigger] before[w] as int) matches Some(
                                f,
                            ) && f.t.rank() == m.t.rank());
                        assert(now[w] == before[w]);
                    },
                }
            },
        }
    } else {
        assert(identity(n as nat).len() == 0);
    }
}

/// With a consistent probe and a conservative box test, what a query finds
/// under a child of node `k` is the nearest of the first hits on the
/// primitives under that child.
pub proof fn lemma_child_nearest(
    nodes: Seq<BvhNode>,
    boxes: Seq<Aabb>,
    box_rel: spec_fn(Aabb, Scalar, Scalar, bool) -> bool,
    rel: spec_fn(int, Scalar, Scalar, Option<HitRecord>) -> bool,
    first: spec_fn(int) -> Option<HitRecord>,
    t_min: Scalar,
    t_max: Scalar,
    c: Child,
    k: int,
    r: Option<HitRecord>,
)
    requires
        tree_ok(nodes, boxes),
        all_wf(boxes),
        0 <= k < nodes.len(),
        child_ok(c, k, boxes.len() as int),
        consistent(rel, first, boxes.len() as int, t_min, t_max),
        conservative(box_rel, first, boxes, t_min, t_max),
        child_visited(nodes, box_rel, rel, t_min, t_max, c, k, r),
    ensures
        nearest_of(first, child_leaves(nodes, c, k), r),
    decreases k, 0int,
{
    match c {
        Child::Prim(i) => {
            let one = child_leaves(nodes, c, k);
            assert(one[0] == i);
            assert(asked(rel, i as int, t_min, t_max, r));
            if r is Some {
                assert(first(one[0] as int) is Some);
            }
        },
        Child::Node(j) => {
            lemma_visited_nearest(nodes, boxes, box_rel, rel, first, t_min, t_max, j as int, r);
        },
    }
}

/// With a consistent probe and a conservative box test, what a query finds
/// under node `k` is the nearest of the first hits on the primitives under
/// that node.
pub proof fn lemma_visited_nearest(
    nodes: Seq<BvhNode>,
    boxes: Seq<Aabb>,
    box_rel: spec_fn(Aabb, Scalar, Scalar, bool) -> bool,
    rel: spec_fn(int, Scalar, Scalar, Option<HitRecord>) -> bool,
    first: spec_fn(int) -> Option<HitRecord>,
    t_min: Scalar,
    t_max: Scalar,
    k: int,
    r: Option<HitRecord>,
)
    requires
        tree_ok(nodes, boxes),
        all_wf(boxes),
        0 <= k < nodes.len(),
        consistent(rel, first, boxes.len() as int, t_min, t_max),
        conservative(box_rel, first, boxes, t_min, t_max),
        visited(nodes, box_rel, rel, t_min, t_max, k, r),
    ensures
        nearest_of(first, leaves(nodes, k), r),
    decreases k, 1int,
{
    assert(node_ok(nodes, boxes, k));
    let node = nodes[k];
    let under = leaves(nodes, k);
    let open = box_rel(node.bbox, t_min, t_max, true) && match node.right {
        None => child_visited(nodes, box_rel, rel, t_min, t_max, node.left, k, r),
        Some(right) => exists|a: Option<HitRecord>, b: Option<HitRecord>|
            #![trigger nearer(a, b)]
            child_visited(nodes, box_rel, rel, t_min, t_max, node.left, k, a) && child_visited(
                nodes,
                box_rel,
                rel,
                t_min,
                t_max,
                right,
                k,
                b,
            ) && r == nearer(a, b),
    };
    if open {
        match node.right {
            None => {
                lemma_child_nearest(nodes, boxes, box_rel, rel, first, t_min, t_max, node.left, k, r);
                assert(under =~= child_leaves(nodes, node.left, k));
            },
            Some(right) => {
                let (a, b) = choose|a: Option<HitRecord>, b: Option<HitRecord>|
                    #![trigger nearer(a, b)]
                    child_visited(nodes, box_rel, rel, t_min, t_max, node.left, k, a)
                        && child_visited(nodes, box_rel, rel, t_min, t_max, right, k, b) && r
                        == nearer(a, b);
                lemma_child_nearest(nodes, boxes, box_rel, rel, first, t_min, t_max, node.left, k, a);
                lemma_child_nearest(nodes, boxes, box_rel, rel, first, t_min, t_max, right, k, b);
                lemma_nearest_joined(
                    first,
                    child_leaves(nodes, node.left, k),
                    child_leaves(nodes, right, k),
                    a,
                    b,
                );
            },
        }
    } else {
        assert(r is None);
        assert forall|p: int| 0 <= p < under.len() implies first(#[trigger] under[p] as int) is None by {
            lemma_node_box(nodes, boxes, k, p);
            assert(node.bbox.contains(boxes[under[p] as int]));
        }
    }
}

/// A hierarchy finds what a flat list finds. Let the probe answer
/// consistently and the box test be conservative. Then a query on the
/// hierarchy and a scan of the list of the same surfaces, over the same
/// range, both find nothing or both find a hit, and then at the same
/// distance.
pub proof fn lemma_bvh_agrees_with_list(
    bvh: BvhView,
    box_rel: spec_fn(Aabb, Scalar, Scalar, bool) -> bool,
    rel: spec_fn(int, Scalar, Scalar, Option<HitRecord>) -> bool,
    first: spec_fn(int) -> Option<HitRecord>,
    t_min: Scalar,
    t_max: Scalar,
    by_list: Option<HitRecord>,
    closest: Scalar,
    by_tree: Option<HitRecord>,
)
    requires
        bvh.wf(),
        consistent(rel, first, bvh.boxes.len() as int, t_min, t_max),
        conservative(box_rel, first, bvh.boxes, t_min, t_max),
        scanned(rel, t_min, t_max, bvh.boxes.len() as int, by_list, closest),
        visited(bvh.nodes, box_rel, rel, t_min, t_max, bvh.root, by_tree),
    ensures
        by_list is Some <==> by_tree is Some,
        by_list matches Some(a) ==> by_tree matches Some(b) && !a.t.nan() && !b.t.nan() && a.t.rank()
            == b.t.rank(),
{
    let n = bvh.boxes.len();
    let all = identity(n);
    let under = leaves(bvh.nodes, bvh.root);
    lemma_scanned_nearest(rel, first, n as int, t_min, t_max, n as int, by_list, closest);
    lemma_visited_nearest(bvh.nodes, bvh.boxes, box_rel, rel, first, t_min, t_max, bvh.root, by_tree);
    to_multiset_len(all);
    to_multiset_len(under);
    match by_list {
        None => {
            if by_tree is Some {
                let q = choose|q: int|
                    0 <= q < under.len() && (first(#[trigger] under[q] as int) matches Some(f)
                        && f.t.rank() == by_tree->0.t.rank());
                to_multiset_contains(under, under[q]);
                to_multiset_contains(all, under[q]);
                assert(under.contains(under[q]));
                let p = choose|p: int| 0 <= p < all.len() && all[p] == under[q];
                assert(first(all[p] as int) is None);
            }
        },
        Some(a) => {
            let p = choose|p: int|
                0 <= p < all.len() && (first(#[trigger] all[p] as int) matches Some(f) && f.t.rank()
                    == a.t.rank());
            lemma_permutation_holds(under, all[p]);
            let q = choose|q: int| 0 <= q < under.len() && under[q] == all[p];
            assert(first(under[q] as int) is Some);
            let b = by_tree->0;
            let q2 = choose|q2: int|
                0 <= q2 < under.len() && (first(#[trigger] under[q2] as int) matches Some(f)
                    && f.t.rank() == b.t.rank());
            to_multiset_contains(under, under[q2]);
            to_multiset_contains(all, under[q2]);
            assert(under.contains(under[q2]));
            let p2 = choose|p2: int| 0 <= p2 < all.len() && all[p2] == under[q2];
            assert(first(all[p2] as int) is Some);
        },
    }
}

/// Whether the first hit on primitive `i` is the hit `h`.
pub open spec fn first_is(first: spec_fn(int) -> Option<HitRecord>, i: int, h: HitRecord) -> bool {
    first(i) == Some(h)
}

/// Whether primitive `i` has its first hit at the distance of rank `d`.
pub open spec fn first_at(first: spec_fn(int) -> Option<HitRecord>, i: int, d: int) -> bool {
    first(i) matches Some(f) && f.t.rank() == d
}

/// The probe is a function of the primitive where it finds a hit: asked up to
/// a bound that is not beyond `t_max`, it hands back, if anything, the first
/// hit on the primitive itself.
pub open spec fn exact(
    rel: spec_fn(int, Scalar, Scalar, Option<HitRecord>) -> bool,
    first: spec_fn(int) -> Option<HitRecord>,
    n: int,
    t_min: Scalar,
    t_max: Scalar,
) -> bool {
    forall|i: int, hi: Scalar, h: HitRecord|
        0 <= i < n && !hi.nan() && hi.rank() <= t_max.rank() && #[trigger] asked(
            rel,
            i,
            t_min,
            hi,
            Some(h),
        ) ==> first(i) == Some(h)
}

/// No two of the first `n` primitives have their first hit at the distance of
/// rank `d`.
pub open spec fn alone(first: spec_fn(int) -> Option<HitRecord>, n: int, d: int) -> bool {
    forall|i: int, j: int|
        0 <= i < n && 0 <= j < n && #[trigger] first_at(first, i, d) && #[trigger] first_at(
            first,
            j,
            d,
        ) ==> i == j
}

/// With a consistent and exact probe, the hit that a scan of the first `n`
/// primitives holds is the first hit on one of them.
pub proof fn lemma_scanned_source(
    rel: spec_fn(int, Scalar, Scalar, Option<HitRecord>) -> bool,
    first: spec_fn(int) -> Option<HitRecord>,
    total: int,
    t_min: Scalar,
    t_max: Scalar,
    n: int,
    hit: Option<HitRecord>,
    closest: Scalar,
)
    requires
        consistent(rel, first, total, t_min, t_max),
        exact(rel, first, total, t_min, t_max),
        0 <= n <= total <= usize::MAX,
        scanned(rel, t_min, t_max, n, hit, closest),
    ensures
        hit matches Some(h) ==> exists|i: int| 0 <= i < n && #[trigger] first_is(first, i, h),
    decreases n,
{
    if n > 0 {
        let (held, c0, found) = choose|held: Option<HitRecord>, c0: Scalar, found: Option<HitRecord>|
            #![trigger kept(held, found), reach(c0, found)]
            scanned(rel, t_min, t_max, n - 1, held, c0) && rel(n - 1, t_min, c0, found) && hit
                == kept(held, found) && closest == reach(c0, found);
        lemma_scanned_nearest(rel, first, total, t_min, t_max, n - 1, held, c0);
        lemma_scanned_source(rel, first, total, t_min, t_max, n - 1, held, c0);
        match found {
            Some(h) => {
                // The last answer is the hit that the scan holds.
                assert(asked(rel, n - 1, t_min, c0, Some(h)));
                assert(first_is(first, n - 1, h));
            },
            None => {
                // The scan holds what it held.
                if held is Some {
                    let i = choose|i: int| 0 <= i < n - 1 && #[trigger] first_is(first, i, held->0);
                    assert(first_is(first, i, hit->0));
                }
            },
        }
    }
}

/// With a consistent and exact probe, the hit that a query finds under a
/// child of node `k` is the first hit on one of the primitives under it.
pub proof fn lemma_child_source(
    nodes: Seq<BvhNode>,
    boxes: Seq<Aabb>,
    box_rel: spec_fn(Aabb, Scalar, Scalar, bool) -> bool,
    rel: spec_fn(int, Scalar, Scalar, Option<HitRecord>) -> bool,
    first: spec_fn(int) -> Option<HitRecord>,
    t_min: Scalar,
    t_max: Scalar,
    c: Child,
    k: int,
    r: Option<HitRecord>,
)
    requires
        tree_ok(nodes, boxes),
        0 <= k < nodes.len(),
        child_ok(c, k, boxes.len() as int),
        !t_max.nan(),
        exact(rel, first, boxes.len() as int, t_min, t_max),
        child_visited(nodes, box_rel, rel, t_min, t_max, c, k, r),
    ensures
        r matches Some(h) ==> exists|i: int|
            0 <= i < boxes.len() && #[trigger] first_is(first, i, h),
    decreases k, 0int,
{
    match c {
        Child::Prim(i) => {
            if r is Some {
                assert(asked(rel, i as int, t_min, t_max, Some(r->0)));
                assert(first_is(first, i as int, r->0));
            }
        },
        Child::Node(j) => {
            lemma_visited_source(nodes, boxes, box_rel, rel, first, t_min, t_max, j as int, r);
        },
    }
}

/// With a consistent and exact probe, the hit that a query finds under node
/// `k` is the first hit on one of the primitives.
pub proof fn lemma_visited_source(
    nodes: Seq<BvhNode>,
    boxes: Seq<Aabb>,
    box_rel: spec_fn(Aabb, Scalar, Scalar, bool) -> bool,
    rel: spec_fn(int, Scalar, Scalar, Option<HitRecord>) -> bool,
    first: spec_fn(int) -> Option<HitRecord>,
    t_min: Scalar,
    t_max: Scalar,
    k: int,
    r: Option<HitRecord>,
)
    requires
        tree_ok(nodes, boxes),
        0 <= k < nodes.len(),
        !t_max.nan(),
        exact(rel, first, boxes.len() as int, t_min, t_max),
        visited(nodes, box_rel, rel, t_min, t_max, k, r),
    ensures
        r matches Some(h) ==> exists|i: int|
            0 <= i < boxes.len() && #[trigger] first_is(first, i, h),
    decreases k, 1int,
{
    assert(node_ok(nodes, boxes, k));
    let node = nodes[k];
    if r is Some {
        // A hit is found only past the box test.
        match node.right {
            None => {
                lemma_child_source(nodes, boxes, box_rel, rel, first, t_min, t_max, node.left, k, r);
            },
            Some(right) => {
                let (a, b) = choose|a: Option<HitRecord>, b: Option<HitRecord>|
                    #![trigger nearer(a, b)]
                    child_visited(nodes, box_rel, rel, t_min, t_max, node.left, k, a)
                        && child_visited(nodes, box_rel, rel, t_min, t_max, right, k, b) && r
                        == nearer(a, b);
                lemma_child_source(nodes, boxes, box_rel, rel, first, t_min, t_max, node.left, k, a);
                lemma_child_source(nodes, boxes, box_rel, rel, first, t_min, t_max, right, k, b);
                // The nearer of the two is one of the two.
                assert(r == a || r == b);
            },
        }
    }
}

/// A hierarchy finds the very hit that a flat list finds. Let the probe
/// answer consistently and exactly and the box test be conservative, and let
/// one primitive alone have its first hit at the distance of the hit that the
/// list finds. Then the query on the hierarchy finds the same hit, with the
/// same point, normal, surface coordinates and material.
pub proof fn lemma_bvh_agrees_on_record(
    bvh: BvhView,
    box_rel: spec_fn(Aabb, Scalar, Scalar, bool) -> bool,
    rel: spec_fn(int, Scalar, Scalar, Option<HitRecord>) -> bool,
    first: spec_fn(int) -> Option<HitRecord>,
    t_min: Scalar,
    t_max: Scalar,
    by_list: Option<HitRecord>,
    closest: Scalar,
    by_tree: Option<HitRecord>,
)
    requires
        bvh.wf(),
        consistent(rel, first, bvh.boxes.len() as int, t_min, t_max),
        exact(rel, first, bvh.boxes.len() as int, t_min, t_max),
        conservative(box_rel, first, bvh.boxes, t_min, t_max),
        scanned(rel, t_min, t_max, bvh.boxes.len() as int, by_list, closest),
        visited(bvh.nodes, box_rel, rel, t_min, t_max, bvh.root, by_tree),
        by_list matches Some(a) ==> alone(first, bvh.boxes.len() as int, a.t.rank()),
    ensures
        by_list == by_tree,
{
    let n = bvh.boxes.len() as int;
    lemma_bvh_agrees_with_list(bvh, box_rel, rel, first, t_min, t_max, by_list, closest, by_tree);
    lemma_scanned_source(rel, first, n, t_min, t_max, n, by_list, closest);
    lemma_visited_source(bvh.nodes, bvh.boxes, box_rel, rel, first, t_min, t_max, bvh.root, by_tree);
    if by_list is Some {
        let a = by_list->0;
        let b = by_tree->0;
        let i = choose|i: int| 0 <= i < n && #[trigger] first_is(first, i, a);
        let j = choose|j: int| 0 <= j < n && #[trigger] first_is(first, j, b);
        // Both lie at the one distance, so on the one primitive.
        assert(first_at(first, i, a.t.rank()));
        assert(first_at(first, j, a.t.rank()));
        assert(i == j);
    }
}

} // verus!
