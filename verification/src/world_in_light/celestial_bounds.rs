//! Conservative screen-space bounds for the expensive celestial composite pass.
//!
//! Overlapping scissor rectangles are merged into their bounding rectangle until no two
//! remaining rectangles overlap, so every pixel is shaded by at most one pass.

use vstd::prelude::*;
use vstd::multiset::Multiset;

verus! {

#[derive(Clone, Copy, Debug, PartialEq, Eq)]
pub struct ScissorRect {
    pub x: i32,
    pub y: i32,
    pub width: i32,
    pub height: i32,
}

/// Left, bottom, right and top edges of a rectangle.
pub open spec fn edges(rect: ScissorRect) -> (int, int, int, int) {
    (rect.x as int, rect.y as int, rect.x + rect.width, rect.y + rect.height)
}

/// Closed rectangles given by their edges share at least a boundary point.
pub open spec fn edges_overlap(a: (int, int, int, int), b: (int, int, int, int)) -> bool {
    a.0 <= b.2 && b.0 <= a.2 && a.1 <= b.3 && b.1 <= a.3
}

pub open spec fn min(a: int, b: int) -> int {
    if a <= b {
        a
    } else {
        b
    }
}

pub open spec fn max(a: int, b: int) -> int {
    if a >= b {
        a
    } else {
        b
    }
}

/// Edges of the smallest rectangle containing both.
pub open spec fn bounding_edges(a: (int, int, int, int), b: (int, int, int, int)) -> (
    int,
    int,
    int,
    int,
) {
    (min(a.0, b.0), min(a.1, b.1), max(a.2, b.2), max(a.3, b.3))
}

/// The rectangles' edges are representable, and so is the width and height of the bounding
/// rectangle of any of them.
pub open spec fn fits_in_i32(rects: Seq<ScissorRect>) -> bool {
    &&& forall|i: int|
        0 <= i < rects.len() ==> i32::MIN <= edges(#[trigger] rects[i]).2 <= i32::MAX
            && i32::MIN <= edges(rects[i]).3 <= i32::MAX
    &&& forall|i: int, j: int|
        #![trigger rects[i], rects[j]]
        0 <= i < rects.len() && 0 <= j < rects.len() ==> i32::MIN <= edges(rects[j]).2 - edges(
            rects[i],
        ).0 <= i32::MAX && i32::MIN <= edges(rects[j]).3 - edges(rects[i]).1 <= i32::MAX
}

/// How a merged rectangle was formed: an input rectangle, or two merged rectangles that
/// overlapped.
pub enum MergeTree {
    Input(usize),
    Merged(Box<MergeTree>, Box<MergeTree>),
}

/// Edges of the rectangle that a merge tree produces.
pub open spec fn tree_edges(rects: Seq<ScissorRect>, tree: MergeTree) -> (int, int, int, int)
    decreases tree,
{
    match tree {
        MergeTree::Input(index) => edges(rects[index as int]),
        MergeTree::Merged(left, right) => bounding_edges(
            tree_edges(rects, *left),
            tree_edges(rects, *right),
        ),
    }
}

/// Every merge in the tree joined two overlapping rectangles, and every leaf is an input.
pub open spec fn is_valid_merge(rects: Seq<ScissorRect>, tree: MergeTree) -> bool
    decreases tree,
{
    match tree {
        MergeTree::Input(index) => index < rects.len(),
        MergeTree::Merged(left, right) => {
            &&& is_valid_merge(rects, *left)
            &&& is_valid_merge(rects, *right)
            &&& edges_overlap(tree_edges(rects, *left), tree_edges(rects, *right))
        },
    }
}

/// Input indices at the leaves of a merge tree, with multiplicity.
pub open spec fn tree_inputs(tree: MergeTree) -> Multiset<int>
    decreases tree,
{
    match tree {
        MergeTree::Input(index) => Multiset::singleton(index as int),
        MergeTree::Merged(left, right) => tree_inputs(*left).add(tree_inputs(*right)),
    }
}

/// Input indices at the leaves of all trees, with multiplicity.
pub open spec fn forest_inputs(trees: Seq<MergeTree>) -> Multiset<int>
    decreases trees.len(),
{
    if trees.len() == 0 {
        Multiset::empty()
    } else {
        forest_inputs(trees.drop_last()).add(tree_inputs(trees.last()))
    }
}

/// Each of `0..count` exactly once.
pub open spec fn first_indices(count: int) -> Multiset<int>
    decreases count,
{
    if count <= 0 {
        Multiset::empty()
    } else {
        first_indices(count - 1).insert(count - 1)
    }
}

/// No two of the rectangles overlap.
pub open spec fn pairwise_disjoint(rects: Seq<ScissorRect>) -> bool {
    forall|a: int, b: int|
        0 <= a < rects.len() && 0 <= b < rects.len() && a != b ==> !edges_overlap(
            #[trigger] edges(rects[a]),
            #[trigger] edges(rects[b]),
        )
}

/// `merged` is a merge of all of `rects`: each merged rectangle is built by merge tree from
/// overlapping inputs, and every input is used by exactly one tree.
pub open spec fn is_merge_of(rects: Seq<ScissorRect>, merged: Seq<ScissorRect>, trees: Seq<MergeTree>) -> bool {
    &&& trees.len() == merged.len()
    &&& forall|k: int|
        0 <= k < merged.len() ==> is_valid_merge(rects, #[trigger] trees[k]) && edges(merged[k])
            == tree_edges(rects, trees[k])
    &&& forest_inputs(trees) == first_indices(rects.len() as int)
}

/// A rectangle given by its edges has representable edges, width and height.
pub open spec fn box_fits(e: (int, int, int, int)) -> bool {
    &&& i32::MIN <= e.0 <= i32::MAX
    &&& i32::MIN <= e.1 <= i32::MAX
    &&& i32::MIN <= e.2 <= i32::MAX
    &&& i32::MIN <= e.3 <= i32::MAX
    &&& i32::MIN <= e.2 - e.0 <= i32::MAX
    &&& i32::MIN <= e.3 - e.1 <= i32::MAX
}

/// Every rectangle that overlapping inputs can merge into, each input included, has
/// representable edges, width and height. Rectangles that never merge constrain only
/// themselves.
pub open spec fn merges_fit(rects: Seq<ScissorRect>) -> bool {
    forall|tree: MergeTree| #[trigger] is_valid_merge(rects, tree) ==> box_fits(tree_edges(rects, tree))
}

/// `outer` contains `inner`, both given by their edges.
pub open spec fn contains_edges(outer: (int, int, int, int), inner: (int, int, int, int)) -> bool {
    outer.0 <= inner.0 && outer.1 <= inner.1 && inner.2 <= outer.2 && inner.3 <= outer.3
}

/// Some rectangle of `rects` contains `inner`.
pub open spec fn inside_some(rects: Seq<ScissorRect>, inner: (int, int, int, int)) -> bool {
    exists|k: int| 0 <= k < rects.len() && contains_edges(#[trigger] edges(rects[k]), inner)
}

/// Edges of each rectangle, in order.
pub open spec fn edge_list(rects: Seq<ScissorRect>) -> Seq<(int, int, int, int)> {
    rects.map_values(|rect: ScissorRect| edges(rect))
}

/// One candidate absorbing the merged rectangles it overlaps: scanning from `index`, the
/// first overlapping rectangle is taken out the way `Vec::swap_remove` does, joined to the
/// candidate, and the scan restarts; returns what is left and the grown candidate.
pub open spec fn absorb(
    merged: Seq<(int, int, int, int)>,
    candidate: (int, int, int, int),
    index: int,
) -> (Seq<(int, int, int, int)>, (int, int, int, int))
    decreases merged.len(), merged.len() - index,
{
    if index < 0 || index >= merged.len() {
        (merged, candidate)
    } else if edges_overlap(candidate, merged[index]) {
        absorb(
            merged.update(index, merged.last()).drop_last(),
            bounding_edges(candidate, merged[index]),
            0,
        )
    } else {
        absorb(merged, candidate, index + 1)
    }
}

/// The merged rectangles' edges: each input in turn absorbs what it overlaps among the
/// rectangles merged so far and is then appended.
pub open spec fn merged_edges(inputs: Seq<(int, int, int, int)>) -> Seq<(int, int, int, int)>
    decreases inputs.len(),
{
    if inputs.len() == 0 {
        Seq::empty()
    } else {
        let (rest, candidate) = absorb(merged_edges(inputs.drop_last()), inputs.last(), 0);
        rest.push(candidate)
    }
}

impl ScissorRect {
    fn right(self) -> (r: i32)
        requires
            i32::MIN <= self.x + self.width <= i32::MAX,
        ensures
            r == self.x + self.width,
    {
        self.x + self.width
    }

    fn top(self) -> (r: i32)
        requires
            i32::MIN <= self.y + self.height <= i32::MAX,
        ensures
            r == self.y + self.height,
    {
        self.y + self.height
    }

    fn overlaps(self, other: Self) -> (r: bool)
        requires
            i32::MIN <= self.x + self.width <= i32::MAX,
            i32::MIN <= self.y + self.height <= i32::MAX,
            i32::MIN <= other.x + other.width <= i32::MAX,
            i32::MIN <= other.y + other.height <= i32::MAX,
        ensures
            r == edges_overlap(edges(self), edges(other)),
    {
        self.x <= other.right() && other.x <= self.right() && self.y <= other.top() && other.y
            <= self.top()
    }

    fn union(self, other: Self) -> (r: Self)
        requires
            i32::MIN <= self.x + self.width <= i32::MAX,
            i32::MIN <= self.y + self.height <= i32::MAX,
            i32::MIN <= other.x + other.width <= i32::MAX,
            i32::MIN <= other.y + other.height <= i32::MAX,
            i32::MIN <= bounding_edges(edges(self), edges(other)).2 - bounding_edges(
                edges(self),
                edges(other),
            ).0 <= i32::MAX,
            i32::MIN <= bounding_edges(edges(self), edges(other)).3 - bounding_edges(
                edges(self),
                edges(other),
            ).1 <= i32::MAX,
        ensures
            edges(r) == bounding_edges(edges(self), edges(other)),
    {
        let x = if self.x <= other.x { self.x } else { other.x };
        let y = if self.y <= other.y { self.y } else { other.y };
        let right = if self.right() >= other.right() { self.right() } else { other.right() };
        let top = if self.top() >= other.top() { self.top() } else { other.top() };
        ScissorRect { x, y, width: right - x, height: top - y }
    }
}

/// Each edge of a valid merge tree is an edge of one of its inputs.
proof fn lemma_tree_edges_are_input_edges(rects: Seq<ScissorRect>, tree: MergeTree)
    requires
        is_valid_merge(rects, tree),
    ensures
        exists|i: int| 0 <= i < rects.len() && tree_edges(rects, tree).0 == #[trigger] edges(rects[i]).0,
        exists|i: int| 0 <= i < rects.len() && tree_edges(rects, tree).1 == #[trigger] edges(rects[i]).1,
        exists|i: int| 0 <= i < rects.len() && tree_edges(rects, tree).2 == #[trigger] edges(rects[i]).2,
        exists|i: int| 0 <= i < rects.len() && tree_edges(rects, tree).3 == #[trigger] edges(rects[i]).3,
    decreases tree,
{
    match tree {
        MergeTree::Input(index) => {
            let e = edges(rects[index as int]);
            assert(tree_edges(rects, tree) == e);
            assert(tree_edges(rects, tree).0 == edges(rects[index as int]).0);
            assert(tree_edges(rects, tree).1 == edges(rects[index as int]).1);
            assert(tree_edges(rects, tree).2 == edges(rects[index as int]).2);
            assert(tree_edges(rects, tree).3 == edges(rects[index as int]).3);
        },
        MergeTree::Merged(left, right) => {
            lemma_tree_edges_are_input_edges(rects, *left);
            lemma_tree_edges_are_input_edges(rects, *right);
        },
    }
}

/// A merged rectangle is the bounding rectangle of a nonempty set of inputs: every input of
/// its merge tree lies inside it, and each of its edges is an edge of one of those inputs.
pub proof fn lemma_merge_tree_bounds_its_inputs(rects: Seq<ScissorRect>, tree: MergeTree)
    requires
        is_valid_merge(rects, tree),
    ensures
        tree_inputs(tree).len() >= 1,
        forall|i: int|
            #[trigger] tree_inputs(tree).count(i) > 0 ==> 0 <= i < rects.len() && contains_edges(
                tree_edges(rects, tree),
                edges(rects[i]),
            ),
        exists|i: int| tree_inputs(tree).count(i) > 0 && tree_edges(rects, tree).0 == #[trigger] edges(rects[i]).0,
        exists|i: int| tree_inputs(tree).count(i) > 0 && tree_edges(rects, tree).1 == #[trigger] edges(rects[i]).1,
        exists|i: int| tree_inputs(tree).count(i) > 0 && tree_edges(rects, tree).2 == #[trigger] edges(rects[i]).2,
        exists|i: int| tree_inputs(tree).count(i) > 0 && tree_edges(rects, tree).3 == #[trigger] edges(rects[i]).3,
    decreases tree,
{
    broadcast use vstd::multiset::group_multiset_axioms;

    match tree {
        MergeTree::Input(index) => {
            let i = index as int;
            assert(tree_inputs(tree).count(i) > 0);
            assert(tree_edges(rects, tree) == edges(rects[i]));
            assert(tree_edges(rects, tree).0 == edges(rects[i]).0);
            assert(tree_edges(rects, tree).1 == edges(rects[i]).1);
            assert(tree_edges(rects, tree).2 == edges(rects[i]).2);
            assert(tree_edges(rects, tree).3 == edges(rects[i]).3);
        },
        MergeTree::Merged(left, right) => {
            lemma_merge_tree_bounds_its_inputs(rects, *left);
            lemma_merge_tree_bounds_its_inputs(rects, *right);
            let l = tree_inputs(*left);
            let r = tree_inputs(*right);
            assert(tree_inputs(tree) == l.add(r));
            let el = tree_edges(rects, *left);
            let er = tree_edges(rects, *right);
            assert(tree_edges(rects, tree) == bounding_edges(el, er));
            let i0 = if el.0 <= er.0 {
                choose|i: int| l.count(i) > 0 && el.0 == #[trigger] edges(rects[i]).0
            } else {
                choose|i: int| r.count(i) > 0 && er.0 == #[trigger] edges(rects[i]).0
            };
            assert(tree_inputs(tree).count(i0) > 0);
            let i1 = if el.1 <= er.1 {
                choose|i: int| l.count(i) > 0 && el.1 == #[trigger] edges(rects[i]).1
            } else {
                choose|i: int| r.count(i) > 0 && er.1 == #[trigger] edges(rects[i]).1
            };
            assert(tree_inputs(tree).count(i1) > 0);
            let i2 = if el.2 >= er.2 {
                choose|i: int| l.count(i) > 0 && el.2 == #[trigger] edges(rects[i]).2
            } else {
                choose|i: int| r.count(i) > 0 && er.2 == #[trigger] edges(rects[i]).2
            };
            assert(tree_inputs(tree).count(i2) > 0);
            let i3 = if el.3 >= er.3 {
                choose|i: int| l.count(i) > 0 && el.3 == #[trigger] edges(rects[i]).3
            } else {
                choose|i: int| r.count(i) > 0 && er.3 == #[trigger] edges(rects[i]).3
            };
            assert(tree_inputs(tree).count(i3) > 0);
            assert forall|i: int| #[trigger] tree_inputs(tree).count(i) > 0 implies 0 <= i < rects.len()
                && contains_edges(tree_edges(rects, tree), edges(rects[i])) by {
                if l.count(i) > 0 {
                } else {
                    assert(r.count(i) > 0);
                }
            }
        },
    }
}

/// The rectangle of a valid merge tree is representable when every merge is.
proof fn lemma_tree_edges_fit(rects: Seq<ScissorRect>, tree: MergeTree)
    requires
        merges_fit(rects),
        is_valid_merge(rects, tree),
    ensures
        box_fits(tree_edges(rects, tree)),
{
}

/// Inputs whose right and top edges are representable, and for which the bounding rectangle
/// of any two has a representable width and height, have only representable merges.
pub proof fn lemma_bounded_inputs_merge_within_i32(rects: Seq<ScissorRect>)
    requires
        fits_in_i32(rects),
    ensures
        merges_fit(rects),
{
    assert forall|tree: MergeTree| #[trigger] is_valid_merge(rects, tree) implies box_fits(
        tree_edges(rects, tree),
    ) by {
        lemma_pairwise_bounded_tree_fits(rects, tree);
    }
}

proof fn lemma_pairwise_bounded_tree_fits(rects: Seq<ScissorRect>, tree: MergeTree)
    requires
        fits_in_i32(rects),
        is_valid_merge(rects, tree),
    ensures
        box_fits(tree_edges(rects, tree)),
{
    lemma_tree_edges_are_input_edges(rects, tree);
    let i0 = choose|i: int| 0 <= i < rects.len() && tree_edges(rects, tree).0 == #[trigger] edges(rects[i]).0;
    let i1 = choose|i: int| 0 <= i < rects.len() && tree_edges(rects, tree).1 == #[trigger] edges(rects[i]).1;
    let i2 = choose|i: int| 0 <= i < rects.len() && tree_edges(rects, tree).2 == #[trigger] edges(rects[i]).2;
    let i3 = choose|i: int| 0 <= i < rects.len() && tree_edges(rects, tree).3 == #[trigger] edges(rects[i]).3;
    assert(i32::MIN <= edges(rects[i2]).2 - edges(rects[i0]).0 <= i32::MAX);
    assert(i32::MIN <= edges(rects[i3]).3 - edges(rects[i1]).1 <= i32::MAX);
    assert(i32::MIN <= edges(rects[i2]).2 <= i32::MAX);
    assert(i32::MIN <= edges(rects[i3]).3 <= i32::MAX);
}

proof fn lemma_forest_push(trees: Seq<MergeTree>, tree: MergeTree)
    ensures
        forest_inputs(trees.push(tree)) == forest_inputs(trees).add(tree_inputs(tree)),
{
    assert(trees.push(tree).drop_last() =~= trees);
}

proof fn lemma_forest_update(trees: Seq<MergeTree>, k: int, tree: MergeTree)
    requires
        0 <= k < trees.len(),
    ensures
        forest_inputs(trees.update(k, tree)).add(tree_inputs(trees[k])) == forest_inputs(trees).add(
            tree_inputs(tree),
        ),
    decreases trees.len(),
{
    broadcast use vstd::multiset::group_multiset_axioms;

    let updated = trees.update(k, tree);
    assert(forest_inputs(updated) == forest_inputs(updated.drop_last()).add(tree_inputs(updated.last())));
    assert(forest_inputs(trees) == forest_inputs(trees.drop_last()).add(tree_inputs(trees.last())));
    if k == trees.len() - 1 {
        assert(updated.drop_last() =~= trees.drop_last());
        assert(updated.last() == tree);
        assert(forest_inputs(updated).add(tree_inputs(trees[k])) =~= forest_inputs(trees).add(
            tree_inputs(tree),
        ));
    } else {
        assert(updated.drop_last() =~= trees.drop_last().update(k, tree));
        assert(updated.last() == trees.last());
        assert(trees.drop_last()[k] == trees[k]);
        lemma_forest_update(trees.drop_last(), k, tree);
        let a = forest_inputs(trees.drop_last().update(k, tree));
        let b = tree_inputs(trees.last());
        let c = tree_inputs(trees[k]);
        let d = forest_inputs(trees.drop_last());
        let e = tree_inputs(tree);
        assert(forest_inputs(updated) == a.add(b));
        assert(a.add(c) == d.add(e));
        assert forall|x: int| #[trigger] a.add(b).add(c).count(x) == d.add(b).add(e).count(x) by {
            assert(a.add(c).count(x) == d.add(e).count(x));
        }
        assert(a.add(b).add(c) =~= d.add(b).add(e));
    }
}

/// Taking tree `k` out the way `Vec::swap_remove` does leaves the other trees' inputs.
proof fn lemma_forest_swap_remove(trees: Seq<MergeTree>, k: int)
    requires
        0 <= k < trees.len(),
    ensures
        forest_inputs(trees.update(k, trees.last()).drop_last()).add(tree_inputs(trees[k]))
            == forest_inputs(trees),
{
    broadcast use vstd::multiset::group_multiset_axioms;

    let last = trees.last();
    let swapped = trees.update(k, last);
    if k == trees.len() - 1 {
        assert(swapped =~= trees);
    } else {
        lemma_forest_update(trees, k, last);
        assert(swapped.last() == last);
        assert(forest_inputs(swapped) == forest_inputs(swapped.drop_last()).add(tree_inputs(last)));
        let a = forest_inputs(swapped.drop_last());
        let b = tree_inputs(last);
        let c = tree_inputs(trees[k]);
        let f = forest_inputs(trees);
        assert(a.add(b).add(c) == f.add(b));
        assert forall|x: int| #[trigger] a.add(c).count(x) == f.count(x) by {
            assert(a.add(b).add(c).count(x) == f.add(b).count(x));
        }
        assert(a.add(c) =~= f);
    }
}

/// Merges overlapping rectangles, repeatedly and transitively, until no two overlap.
///
/// Each candidate absorbs every already merged rectangle it overlaps (restarting the scan
/// after each absorption) before it is appended.
pub fn merge_overlapping_rects(rects: &[ScissorRect]) -> (r: Vec<ScissorRect>)
    requires
        merges_fit(rects@),
    ensures
        edge_list(r@) == merged_edges(edge_list(rects@)),
        r@.len() <= rects@.len(),
        forall|j: int| 0 <= j < rects@.len() ==> inside_some(r@, #[trigger] edges(rects@[j])),
        pairwise_disjoint(r@),
        exists|trees: Seq<MergeTree>| is_merge_of(rects@, r@, trees),
{
    let mut merged: Vec<ScissorRect> = Vec::new();
    let ghost mut trees: Seq<MergeTree> = Seq::empty();
    let mut i: usize = 0;
    while i < rects.len()
        invariant
            i <= rects@.len(),
            merges_fit(rects@),
            merged@.len() <= i,
            forall|j: int| 0 <= j < i ==> inside_some(merged@, #[trigger] edges(rects@[j])),
            trees.len() == merged@.len(),
            forall|k: int|
                0 <= k < merged@.len() ==> is_valid_merge(rects@, #[trigger] trees[k]) && edges(
                    merged@[k],
                ) == tree_edges(rects@, trees[k]),
            pairwise_disjoint(merged@),
            forest_inputs(trees) == first_indices(i as int),
            edge_list(merged@) == merged_edges(edge_list(rects@).take(i as int)),
        decreases rects@.len() - i,
    {
        let mut candidate = rects[i];
        let ghost mut candidate_tree = MergeTree::Input(i);
        let ghost start = edge_list(merged@);
        proof {
            assert(tree_inputs(candidate_tree) =~= Multiset::singleton(i as int));
            assert(first_indices(i + 1) == first_indices(i as int).insert(i as int));
            assert(forest_inputs(trees).add(tree_inputs(candidate_tree)) =~= first_indices(i + 1));
        }
        let mut index: usize = 0;
        while index < merged.len()
            invariant
                i < rects@.len(),
                merges_fit(rects@),
                merged@.len() <= i,
                contains_edges(edges(candidate), edges(rects@[i as int])),
                forall|j: int|
                    0 <= j < i ==> contains_edges(edges(candidate), #[trigger] edges(rects@[j]))
                        || inside_some(merged@, edges(rects@[j])),
                trees.len() == merged@.len(),
                index <= merged@.len(),
                forall|k: int|
                    0 <= k < merged@.len() ==> is_valid_merge(rects@, #[trigger] trees[k]) && edges(
                        merged@[k],
                    ) == tree_edges(rects@, trees[k]),
                pairwise_disjoint(merged@),
                is_valid_merge(rects@, candidate_tree),
                edges(candidate) == tree_edges(rects@, candidate_tree),
                forest_inputs(trees).add(tree_inputs(candidate_tree)) == first_indices(i + 1),
                forall|k: int| 0 <= k < index ==> !edges_overlap(edges(candidate), #[trigger] edges(merged@[k])),
                absorb(edge_list(merged@), edges(candidate), index as int) == absorb(
                    start,
                    edges(rects@[i as int]),
                    0,
                ),
            decreases merged@.len(), merged@.len() - index,
        {
            proof {
                lemma_tree_edges_fit(rects@, candidate_tree);
                lemma_tree_edges_fit(rects@, trees[index as int]);
            }
            if candidate.overlaps(merged[index]) {
                let ghost before = merged@;
                let ghost before_trees = trees;
                let ghost absorbed = trees[index as int];
                let ghost joined = MergeTree::Merged(Box::new(candidate_tree), Box::new(absorbed));
                proof {
                    lemma_tree_edges_fit(rects@, joined);
                }
                let ghost before_candidate = edges(candidate);
                let other = merged.swap_remove(index);
                candidate = candidate.union(other);
                proof {
                    assert(edge_list(merged@) =~= edge_list(before).update(
                        index as int,
                        edge_list(before).last(),
                    ).drop_last());
                    assert(edge_list(before)[index as int] == edges(other));
                    lemma_forest_swap_remove(before_trees, index as int);
                    trees = before_trees.update(index as int, before_trees.last()).drop_last();
                    candidate_tree = joined;
                    assert(forest_inputs(trees).add(tree_inputs(candidate_tree)) =~= first_indices(i + 1));
                    assert forall|k: int| 0 <= k < merged@.len() implies is_valid_merge(rects@, #[trigger] trees[k])
                        && edges(merged@[k]) == tree_edges(rects@, trees[k]) by {
                        if k == index {
                            assert(merged@[k] == before.last());
                            assert(trees[k] == before_trees.last());
                        } else {
                            assert(merged@[k] == before[k]);
                            assert(trees[k] == before_trees[k]);
                        }
                    }
                    assert forall|a: int, b: int|
                        0 <= a < merged@.len() && 0 <= b < merged@.len() && a != b implies !edges_overlap(
                        #[trigger] edges(merged@[a]),
                        #[trigger] edges(merged@[b]),
                    ) by {
                        let sa = if a == index { before.len() - 1 } else { a };
                        let sb = if b == index { before.len() - 1 } else { b };
                        assert(merged@[a] == before[sa]);
                        assert(merged@[b] == before[sb]);
                        assert(!edges_overlap(edges(before[sa]), edges(before[sb])));
                    }
                    assert forall|j: int| 0 <= j < i implies contains_edges(
                        edges(candidate),
                        #[trigger] edges(rects@[j]),
                    ) || inside_some(merged@, edges(rects@[j])) by {
                        let e = edges(rects@[j]);
                        if !contains_edges(before_candidate, e) {
                            let k = choose|k: int|
                                0 <= k < before.len() && contains_edges(#[trigger] edges(before[k]), e);
                            if k == index {
                            } else if k == before.len() - 1 {
                                assert(merged@[index as int] == before[k]);
                                assert(contains_edges(edges(merged@[index as int]), e));
                            } else {
                                assert(merged@[k] == before[k]);
                                assert(contains_edges(edges(merged@[k]), e));
                            }
                        }
                    }
                }
                index = 0;
            } else {
                index += 1;
            }
        }
        let ghost before = merged@;
        merged.push(candidate);
        proof {
            let inputs = edge_list(rects@).take(i + 1);
            assert(inputs.drop_last() =~= edge_list(rects@).take(i as int));
            assert(inputs.last() == edges(rects@[i as int]));
            assert(edge_list(merged@) =~= edge_list(before).push(edges(candidate)));
            assert forall|j: int| 0 <= j < i + 1 implies inside_some(
                merged@,
                #[trigger] edges(rects@[j]),
            ) by {
                let e = edges(rects@[j]);
                if contains_edges(edges(candidate), e) {
                    assert(merged@[before.len() as int] == candidate);
                    assert(contains_edges(edges(merged@[before.len() as int]), e));
                } else {
                    let k = choose|k: int|
                        0 <= k < before.len() && contains_edges(#[trigger] edges(before[k]), e);
                    assert(merged@[k] == before[k]);
                    assert(contains_edges(edges(merged@[k]), e));
                }
            }
            lemma_forest_push(trees, candidate_tree);
            trees = trees.push(candidate_tree);
            assert forall|k: int| 0 <= k < merged@.len() implies is_valid_merge(rects@, #[trigger] trees[k])
                && edges(merged@[k]) == tree_edges(rects@, trees[k]) by {
                if k < before.len() {
                    assert(merged@[k] == before[k]);
                }
            }
            assert forall|a: int, b: int|
                0 <= a < merged@.len() && 0 <= b < merged@.len() && a != b implies !edges_overlap(
                #[trigger] edges(merged@[a]),
                #[trigger] edges(merged@[b]),
            ) by {
                if a < before.len() && b < before.len() {
                    assert(merged@[a] == before[a]);
                    assert(merged@[b] == before[b]);
                } else if a == before.len() {
                    assert(merged@[b] == before[b]);
                    assert(!edges_overlap(edges(candidate), edges(before[b])));
                } else {
                    assert(merged@[a] == before[a]);
                    assert(!edges_overlap(edges(candidate), edges(before[a])));
                }
            }
        }
        i += 1;
    }
    assert(is_merge_of(rects@, merged@, trees));
    assert(edge_list(rects@).take(rects@.len() as int) =~= edge_list(rects@));
    merged
}

} // verus!
