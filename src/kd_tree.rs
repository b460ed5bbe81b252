use vstd::prelude::*;

use crate::nearest_neighbour::{is_nearest, point_set};
use crate::point::{dist2, distance_squared, lemma_dist2_ge_axis, points_equal};

verus! {

/// The splitting axis that follows `axis` one level further down.
pub open spec fn next_axis_spec(axis: int, n: int) -> int {
    if axis + 1 == n { 0 } else { axis + 1 }
}

fn next_axis<const N: usize>(axis: usize) -> (r: usize)
    requires
        axis < N,
    ensures
        r == next_axis_spec(axis as int, N as int),
        r < N,
{
    if axis + 1 == N { 0 } else { axis + 1 }
}

/// One node of the tree: a point, and the subtrees on either side of the
/// plane through it.
struct KDNode<const N: usize> {
    internal_data: [i32; N],
    left: Option<Box<KDNode<N>>>,
    right: Option<Box<KDNode<N>>>,
}

impl<const N: usize> KDNode<N> {
    spec fn optional_points(node: Option<Box<KDNode<N>>>) -> Set<Seq<i32>>
        decreases node,
    {
        match node {
            None => Set::empty(),
            Some(n) => n.points(),
        }
    }

    spec fn points(self) -> Set<Seq<i32>>
        decreases self,
    {
        Self::optional_points(self.left).union(Self::optional_points(self.right)).insert(
            self.internal_data@,
        )
    }

    spec fn optional_in_order(node: Option<Box<KDNode<N>>>) -> Seq<Seq<i32>>
        decreases node,
    {
        match node {
            None => Seq::empty(),
            Some(n) => n.in_order(),
        }
    }

    spec fn in_order(self) -> Seq<Seq<i32>>
        decreases self,
    {
        Self::optional_in_order(self.left).push(self.internal_data@) + Self::optional_in_order(
            self.right,
        )
    }

    spec fn optional_nodes(node: Option<Box<KDNode<N>>>) -> Map<Seq<bool>, Seq<i32>>
        decreases node,
    {
        match node {
            None => Map::empty(),
            Some(n) => n.nodes(),
        }
    }

    spec fn nodes(self) -> Map<Seq<bool>, Seq<i32>>
        decreases self,
    {
        join(Self::optional_nodes(self.left), Self::optional_nodes(self.right), self.internal_data@)
    }

    spec fn optional_well_formed(node: Option<Box<KDNode<N>>>, axis: int) -> bool
        decreases node,
    {
        match node {
            None => true,
            Some(n) => n.well_formed(axis),
        }
    }

    /// Points left of the node are strictly below it on the splitting axis,
    /// points right of it are at or above it.
    spec fn well_formed(self, axis: int) -> bool
        decreases self,
    {
        &&& 0 <= axis < N
        &&& forall|p: Seq<i32>| #[trigger]
            Self::optional_points(self.left).contains(p) ==> p[axis] < self.internal_data@[axis]
        &&& forall|p: Seq<i32>| #[trigger]
            Self::optional_points(self.right).contains(p) ==> p[axis] >= self.internal_data@[axis]
        &&& Self::optional_well_formed(self.left, next_axis_spec(axis, N as int))
        &&& Self::optional_well_formed(self.right, next_axis_spec(axis, N as int))
    }

    proof fn lemma_points_len(node: Option<Box<KDNode<N>>>)
        ensures
            forall|p: Seq<i32>| #[trigger] Self::optional_points(node).contains(p) ==> p.len() == N,
        decreases node,
    {
        if let Some(n) = node {
            Self::lemma_points_len(n.left);
            Self::lemma_points_len(n.right);
            assert forall|p: Seq<i32>| #[trigger] Self::optional_points(node).contains(p) implies p.len() == N by {
                if Self::optional_points(n.left).contains(p) {
                } else if Self::optional_points(n.right).contains(p) {
                } else {
                    assert(p == n.internal_data@);
                }
            }
        }
    }

    /// A subtree holds finitely many points: those of its in-order listing.
    proof fn lemma_points_shape(node: Option<Box<KDNode<N>>>)
        ensures
            Self::optional_points(node).finite(),
            Self::optional_in_order(node).to_set() == Self::optional_points(node),
        decreases node,
    {
        match node {
            None => {
                assert(Self::optional_in_order(node).to_set() =~= Set::empty());
            },
            Some(n) => {
                Self::lemma_points_shape(n.left);
                Self::lemma_points_shape(n.right);
                let l = Self::optional_points(n.left);
                let r = Self::optional_points(n.right);
                let d = n.internal_data@;
                let ls = Self::optional_in_order(n.left);
                let rs = Self::optional_in_order(n.right);
                let all = ls.push(d) + rs;
                assert(all.to_set() =~= l.union(r).insert(d)) by {
                    assert forall|x: Seq<i32>| all.contains(x) implies l.union(r).insert(d).contains(x) by {
                        let i = choose|i: int| 0 <= i < all.len() && all[i] == x;
                        if i < ls.len() {
                            assert(ls.contains(x));
                            assert(ls.to_set().contains(x));
                        } else if i > ls.len() {
                            assert(rs[i - ls.len() - 1] == x);
                            assert(rs.contains(x));
                            assert(rs.to_set().contains(x));
                        }
                    }
                    assert forall|x: Seq<i32>| l.union(r).insert(d).contains(x) implies all.contains(x) by {
                        if x == d {
                            assert(all[ls.len() as int] == d);
                        } else if l.contains(x) {
                            assert(ls.to_set().contains(x));
                            let i = choose|i: int| 0 <= i < ls.len() && ls[i] == x;
                            assert(all[i] == x);
                        } else {
                            assert(rs.to_set().contains(x));
                            let i = choose|i: int| 0 <= i < rs.len() && rs[i] == x;
                            assert(all[ls.len() + 1 + i] == x);
                        }
                    }
                }
            },
        }
    }

    /// Adding `x` to the in-order listing of one branch adds it to the node's.
    proof fn lemma_in_order_multiset(ls: Seq<Seq<i32>>, ls2: Seq<Seq<i32>>, d: Seq<i32>, rs: Seq<Seq<i32>>, x: Seq<i32>, left: bool)
        requires
            left ==> ls2.to_multiset() == ls.to_multiset().insert(x),
            !left ==> ls2.to_multiset() == rs.to_multiset().insert(x),
        ensures
            left ==> (ls2.push(d) + rs).to_multiset() == (ls.push(d) + rs).to_multiset().insert(x),
            !left ==> (ls.push(d) + ls2).to_multiset() == (ls.push(d) + rs).to_multiset().insert(x),
    {
        broadcast use vstd::seq_lib::group_to_multiset_ensures;
        if left {
            vstd::seq_lib::lemma_multiset_commutative(ls2.push(d), rs);
            vstd::seq_lib::lemma_multiset_commutative(ls.push(d), rs);
            assert((ls2.push(d) + rs).to_multiset() =~= (ls.push(d) + rs).to_multiset().insert(x));
        } else {
            vstd::seq_lib::lemma_multiset_commutative(ls.push(d), ls2);
            vstd::seq_lib::lemma_multiset_commutative(ls.push(d), rs);
            assert((ls.push(d) + ls2).to_multiset() =~= (ls.push(d) + rs).to_multiset().insert(x));
        }
    }

    fn new(root: [i32; N]) -> (r: Self)
        ensures
            r.internal_data == root,
            r.left.is_none(),
            r.right.is_none(),
    {
        KDNode { internal_data: root, left: None, right: None }
    }

    fn insert_into_optional(
        node: &mut Option<Box<KDNode<N>>>,
        data: [i32; N],
        axis: usize,
        reject_duplicates: bool,
    ) -> (r: bool)
        requires
            Self::optional_well_formed(*old(node), axis as int),
            axis < N,
        ensures
            Self::optional_well_formed(*final(node), axis as int),
            Self::optional_points(*final(node)) == Self::optional_points(*old(node)).insert(data@),
            r == !(reject_duplicates && Self::optional_points(*old(node)).contains(data@)),
            !r ==> *final(node) == *old(node),
            r ==> Self::optional_in_order(*final(node)).to_multiset()
                == Self::optional_in_order(*old(node)).to_multiset().insert(data@),
            r ==> exists|path: Seq<bool>| is_new_leaf(
                Self::optional_nodes(*old(node)),
                Self::optional_nodes(*final(node)),
                path,
                data@,
            ),
        decreases *old(node),
    {
        match node.take() {
            None => {
                let leaf = KDNode::new(data);
                proof {
                    assert(leaf.points() =~= Set::empty().insert(data@));
                    assert(leaf.well_formed(axis as int));
                    assert(leaf.in_order() =~= seq![data@]);
                    broadcast use vstd::seq_lib::group_to_multiset_ensures;
                    assert(seq![data@] =~= Seq::<Seq<i32>>::empty().push(data@));
                    assert(Self::optional_in_order(*old(node)) =~= Seq::empty());
                    assert(Self::optional_nodes(*old(node)) =~= Map::empty());
                    assert(below(Map::<Seq<bool>, Seq<i32>>::empty(), false) =~= Map::empty());
                    assert(below(Map::<Seq<bool>, Seq<i32>>::empty(), true) =~= Map::empty());
                    assert(leaf.nodes() =~= Map::<Seq<bool>, Seq<i32>>::empty().insert(Seq::empty(), data@));
                    assert(is_new_leaf(Map::empty(), leaf.nodes(), Seq::<bool>::empty(), data@));
                }
                *node = Some(Box::new(leaf));
                proof {
                    assert(Self::optional_nodes(*node) == leaf.nodes());
                    assert(is_new_leaf(
                        Self::optional_nodes(*old(node)),
                        Self::optional_nodes(*node),
                        Seq::<bool>::empty(),
                        data@,
                    ));
                }
                true
            },
            Some(mut boxed_node) => {
                let ghost before = *boxed_node;
                let r = (&mut *boxed_node).insert(data, axis, reject_duplicates);
                *node = Some(boxed_node);
                proof {
                    assert(Self::optional_nodes(*old(node)) == before.nodes());
                    assert(Self::optional_nodes(*node) == boxed_node.nodes());
                    if r {
                        let path = choose|path: Seq<bool>| is_new_leaf(before.nodes(), boxed_node.nodes(), path, data@);
                        assert(is_new_leaf(Self::optional_nodes(*old(node)), Self::optional_nodes(*node), path, data@));
                    }
                }
                r
            },
        }
    }

    /// Inserts `data` as a new leaf below this node. With
    /// `reject_duplicates`, a point equal to one already stored is left out.
    ///
    /// An equal point can only lie on the path that `data` itself descends, so
    /// the check along that path finds every duplicate.
    fn insert(&mut self, data: [i32; N], axis: usize, reject_duplicates: bool) -> (r: bool)
        requires
            old(self).well_formed(axis as int),
        ensures
            final(self).well_formed(axis as int),
            final(self).points() == old(self).points().insert(data@),
            r == !(reject_duplicates && old(self).points().contains(data@)),
            !r ==> *final(self) == *old(self),
            r ==> final(self).in_order().to_multiset() == old(self).in_order().to_multiset().insert(data@),
            r ==> exists|path: Seq<bool>| is_new_leaf(old(self).nodes(), final(self).nodes(), path, data@),
        decreases *old(self),
    {
        let ghost l = Self::optional_points(self.left);
        let ghost rp = Self::optional_points(self.right);
        let ghost ln = Self::optional_nodes(self.left);
        let ghost rn = Self::optional_nodes(self.right);
        if reject_duplicates && points_equal(&data, &self.internal_data) {
            proof {
                assert(self.points().insert(data@) =~= self.points());
            }
            return false;
        }
        let nxt = next_axis::<N>(axis);
        if data[axis as usize] < self.internal_data[axis as usize] {
            let ghost old_left = self.left;
            let r = Self::insert_into_optional(&mut self.left, data, nxt, reject_duplicates);
            proof {
                assert(!rp.contains(data@));
                assert(self.points() =~= old(self).points().insert(data@));
                if !r {
                    assert(self.left == old_left);
                    assert(*self == *old(self));
                } else {
                    Self::lemma_in_order_multiset(
                        Self::optional_in_order(old_left),
                        Self::optional_in_order(self.left),
                        self.internal_data@,
                        Self::optional_in_order(self.right),
                        data@,
                        true,
                    );
                    let lp = choose|lp: Seq<bool>| is_new_leaf(ln, Self::optional_nodes(self.left), lp, data@);
                    lemma_below_new_leaf(ln, Self::optional_nodes(self.left), lp, data@, false, rn, self.internal_data@);
                    assert(is_new_leaf(old(self).nodes(), self.nodes(), seq![false] + lp, data@));
                }
            }
            r
        } else {
            let ghost old_right = self.right;
            let r = Self::insert_into_optional(&mut self.right, data, nxt, reject_duplicates);
            proof {
                if reject_duplicates {
                    assert(!l.contains(data@));
                }
                assert(self.points() =~= old(self).points().insert(data@));
                if !r {
                    assert(self.right == old_right);
                    assert(*self == *old(self));
                } else {
                    Self::lemma_in_order_multiset(
                        Self::optional_in_order(self.left),
                        Self::optional_in_order(self.right),
                        self.internal_data@,
                        Self::optional_in_order(old_right),
                        data@,
                        false,
                    );
                    let lp = choose|lp: Seq<bool>| is_new_leaf(rn, Self::optional_nodes(self.right), lp, data@);
                    lemma_below_new_leaf(rn, Self::optional_nodes(self.right), lp, data@, true, ln, self.internal_data@);
                    assert(is_new_leaf(old(self).nodes(), self.nodes(), seq![true] + lp, data@));
                }
            }
            r
        }
    }

    /// Finds a point of this subtree nearest to `target`.
    ///
    /// The branch on the target's side of the splitting plane is searched
    /// first; the other branch only when the plane is closer to the target than
    /// the best point found so far.
    fn nearest(&self, target: &[i32; N], axis: usize) -> (r: [i32; N])
        requires
            self.well_formed(axis as int),
        ensures
            is_nearest(r@, self.points(), target@),
        decreases self,
    {
        let ghost l = Self::optional_points(self.left);
        let ghost rp = Self::optional_points(self.right);
        let ghost d = self.internal_data@;
        proof {
            Self::lemma_points_len(self.left);
            Self::lemma_points_len(self.right);
        }
        let nxt = next_axis::<N>(axis);
        let go_left = target[axis] < self.internal_data[axis];
        let (next_branch, opposite_branch) = if go_left {
            (&self.left, &self.right)
        } else {
            (&self.right, &self.left)
        };
        let ghost nb = Self::optional_points(*next_branch);
        let ghost ob = Self::optional_points(*opposite_branch);
        let mut best = match next_branch {
            Some(branch) => branch.nearest(target, nxt),
            None => self.internal_data,
        };
        let mut best_distance = distance_squared(&best, target);
        let node_distance = distance_squared(&self.internal_data, target);
        if node_distance < best_distance {
            best = self.internal_data;
            best_distance = node_distance;
        }
        proof {
            assert(nb.contains(best@) || best@ == d);
            assert(dist2(best@, target@) <= dist2(d, target@));
            assert forall|q: Seq<i32>| #[trigger] nb.contains(q) implies dist2(best@, target@) <= dist2(q, target@) by {
                assert(next_branch.is_some());
            }
        }
        let axis_distance = (target[axis] as i64) - (self.internal_data[axis] as i64);
        proof {
            assert(axis_distance * axis_distance <= 0x1_0000_0000 * 0x1_0000_0000) by (nonlinear_arith)
                requires -0x1_0000_0000 <= axis_distance <= 0x1_0000_0000;
            assert(axis_distance * axis_distance >= 0) by (nonlinear_arith);
        }
        let axis_square = ((axis_distance as i128) * (axis_distance as i128)) as u128;
        if axis_square < best_distance {
            match opposite_branch {
                Some(branch) => {
                    let opposite_best = branch.nearest(target, nxt);
                    let opposite_distance = distance_squared(&opposite_best, target);
                    if opposite_distance < best_distance {
                        proof {
                            assert forall|q: Seq<i32>| #[trigger] self.points().contains(q) implies
                                dist2(opposite_best@, target@) <= dist2(q, target@) by {
                                if nb.contains(q) || q == d {
                                } else {
                                    assert(ob.contains(q));
                                }
                            }
                        }
                        return opposite_best;
                    }
                },
                None => {},
            }
        } else {
            proof {
                assert forall|q: Seq<i32>| #[trigger] ob.contains(q) implies
                    dist2(best@, target@) <= dist2(q, target@) by {
                    let ax = axis as int;
                    let t = target@;
                    lemma_dist2_ge_axis(q, t, N as int, ax);
                    let qa = q[ax] as int;
                    let ta = t[ax] as int;
                    let da = d[ax] as int;
                    if go_left {
                        assert(qa >= da);
                        assert((qa - ta) * (qa - ta) >= (da - ta) * (da - ta)) by (nonlinear_arith)
                            requires qa >= da, da > ta;
                    } else {
                        assert(qa < da);
                        assert((qa - ta) * (qa - ta) >= (da - ta) * (da - ta)) by (nonlinear_arith)
                            requires qa < da, da <= ta;
                    }
                    assert((ta - da) * (ta - da) == (da - ta) * (da - ta)) by (nonlinear_arith);
                }
            }
        }
        proof {
            assert forall|q: Seq<i32>| #[trigger] self.points().contains(q) implies
                dist2(best@, target@) <= dist2(q, target@) by {
                if nb.contains(q) || q == d {
                } else {
                    assert(ob.contains(q));
                }
            }
        }
        best
    }

    /// Appends the points of this subtree to `out`, in order: left branch,
    /// node, right branch.
    fn traverse_branch(&self, out: &mut Vec<[i32; N]>)
        ensures
            final(out)@.map_values(|p: [i32; N]| p@) == old(out)@.map_values(|p: [i32; N]| p@)
                + self.in_order(),
        decreases self,
    {
        if let Some(left) = &self.left {
            left.traverse_branch(out);
        }
        proof {
            assert(old(out)@.map_values(|p: [i32; N]| p@) + Self::optional_in_order(self.left)
                == out@.map_values(|p: [i32; N]| p@));
        }
        let ghost before = out@;
        out.push(self.internal_data);
        proof {
            assert(out@.map_values(|p: [i32; N]| p@) =~= before.map_values(|p: [i32; N]| p@).push(
                self.internal_data@,
            ));
        }
        let ghost middle = out@;
        if let Some(right) = &self.right {
            right.traverse_branch(out);
        }
        proof {
            assert(out@.map_values(|p: [i32; N]| p@) == middle.map_values(|p: [i32; N]| p@)
                + Self::optional_in_order(self.right));
            assert(out@.map_values(|p: [i32; N]| p@) =~= old(out)@.map_values(|p: [i32; N]| p@)
                + self.in_order());
        }
    }
}

/// The nodes of a subtree hung below a parent on `side` (`false` for left,
/// `true` for right): each path gains that first step.
pub open spec fn below(m: Map<Seq<bool>, Seq<i32>>, side: bool) -> Map<Seq<bool>, Seq<i32>> {
    Map::new(
        |k: Seq<bool>| k.len() > 0 && k[0] == side && m.dom().contains(k.drop_first()),
        |k: Seq<bool>| m[k.drop_first()],
    )
}

/// The nodes of a tree whose root holds `d`, with branches `l` and `r`.
pub open spec fn join(l: Map<Seq<bool>, Seq<i32>>, r: Map<Seq<bool>, Seq<i32>>, d: Seq<i32>) -> Map<Seq<bool>, Seq<i32>> {
    below(l, false).union_prefer_right(below(r, true)).insert(Seq::empty(), d)
}

/// `after` is `before` with one more node, holding `point`, at the free
/// child position `path` of an existing node (or at the root of an empty
/// tree). Paths run from the root, `false` for a step left and `true` for a
/// step right.
pub open spec fn is_new_leaf(
    before: Map<Seq<bool>, Seq<i32>>,
    after: Map<Seq<bool>, Seq<i32>>,
    path: Seq<bool>,
    point: Seq<i32>,
) -> bool {
    &&& !before.dom().contains(path)
    &&& (path.len() > 0 ==> before.dom().contains(path.drop_last()))
    &&& after == before.insert(path, point)
}

/// A new leaf in one branch is a new leaf of the node above it.
proof fn lemma_below_new_leaf(
    m: Map<Seq<bool>, Seq<i32>>,
    m2: Map<Seq<bool>, Seq<i32>>,
    lp: Seq<bool>,
    v: Seq<i32>,
    side: bool,
    other: Map<Seq<bool>, Seq<i32>>,
    d: Seq<i32>,
)
    requires
        is_new_leaf(m, m2, lp, v),
    ensures
        side ==> is_new_leaf(join(other, m, d), join(other, m2, d), seq![side] + lp, v),
        !side ==> is_new_leaf(join(m, other, d), join(m2, other, d), seq![side] + lp, v),
{
    let path = seq![side] + lp;
    assert(path.drop_first() =~= lp);
    assert(below(m2, side) =~= below(m, side).insert(path, v)) by {
        assert forall|k: Seq<bool>| #[trigger] below(m2, side).dom().contains(k) <==> below(m, side).insert(path, v).dom().contains(k) by {
            if k.len() > 0 && k[0] == side && k.drop_first() == lp {
                assert(k =~= path);
            }
        }
        assert forall|k: Seq<bool>| #[trigger] below(m2, side).dom().contains(k) implies below(m2, side)[k] == below(m, side).insert(path, v)[k] by {
            if k.len() > 0 && k[0] == side && k.drop_first() == lp {
                assert(k =~= path);
            }
        }
    }
    assert(!below(other, !side).dom().contains(path));
    assert(path != Seq::<bool>::empty()) by {
        assert(path.len() > 0);
    }
    if side {
        assert(join(other, m2, d) =~= join(other, m, d).insert(path, v));
    } else {
        assert(join(m2, other, d) =~= join(m, other, d).insert(path, v));
    }
    if lp.len() > 0 {
        assert(path.drop_last() =~= seq![side] + lp.drop_last());
        assert((seq![side] + lp.drop_last()).drop_first() =~= lp.drop_last());
        assert(below(m, side).dom().contains(path.drop_last()));
    } else {
        assert(path.drop_last() =~= Seq::<bool>::empty());
    }
}

/// `func` can take a point with coordinates `from` to one with coordinates `to`.
pub open spec fn maps_to<const N: usize, F: Fn([i32; N]) -> [i32; N]>(func: F, from: Seq<i32>, to: Seq<i32>) -> bool {
    exists|p: [i32; N], q: [i32; N]| p@ == from && q@ == to && func.ensures((p,), q)
}

/// A k-dimensional tree of integer points, for nearest-neighbour queries.
///
/// At depth `d` a node splits its points on axis `d mod N`: points strictly
/// below it on that axis go left, the others go right. [`KDTree::insert`]
/// leaves out a point equal to one already stored; rewriting the points with
/// [`KDTree::traverse_tree_mut`] keeps every one of them, equal or not.
pub struct KDTree<const N: usize> {
    root: Option<Box<KDNode<N>>>,
    element_count: usize,
}

impl<const N: usize> View for KDTree<N> {
    type V = Set<Seq<i32>>;

    /// The set of points held by the tree.
    closed spec fn view(&self) -> Set<Seq<i32>> {
        KDNode::<N>::optional_points(self.root)
    }
}

impl<const N: usize> KDTree<N> {
    /// The stored points in order: for each node its left branch, then the
    /// node, then its right branch. A point stored twice appears twice.
    pub closed spec fn in_order(&self) -> Seq<Seq<i32>> {
        KDNode::<N>::optional_in_order(self.root)
    }

    /// The stored points by position: the path from the root to each node,
    /// `false` for a step left and `true` for a step right.
    pub closed spec fn nodes(&self) -> Map<Seq<bool>, Seq<i32>> {
        KDNode::<N>::optional_nodes(self.root)
    }

    /// The splitting invariant holds at every node, and the element count is
    /// the number of stored points.
    pub closed spec fn well_formed(&self) -> bool {
        &&& N > 0
        &&& KDNode::<N>::optional_well_formed(self.root, 0)
        &&& self.element_count == self.in_order().len()
    }

    /// The points held by a tree are finitely many, have `N` coordinates each,
    /// and are those of its in-order listing.
    pub proof fn lemma_view_shape(&self)
        ensures
            self@.finite(),
            forall|p: Seq<i32>| #[trigger] self@.contains(p) ==> p.len() == N,
            self.in_order().to_set() == self@,
            self.in_order().len() == 0 <==> self@ == Set::<Seq<i32>>::empty(),
    {
        KDNode::<N>::lemma_points_len(self.root);
        KDNode::<N>::lemma_points_shape(self.root);
        if self.in_order().len() > 0 {
            assert(self.in_order().to_set().contains(self.in_order()[0]));
        } else {
            assert(self.in_order().to_set() =~= Set::<Seq<i32>>::empty());
        }
    }

    /// Creates an empty tree.
    pub fn new() -> (r: Self)
        requires
            N > 0,
        ensures
            r.well_formed(),
            r@ == Set::<Seq<i32>>::empty(),
            r.in_order() == Seq::<Seq<i32>>::empty(),
            r.nodes() == Map::<Seq<bool>, Seq<i32>>::empty(),
    {
        let r = KDTree { root: None, element_count: 0 };
        proof {
            assert(r@ =~= Set::<Seq<i32>>::empty());
        }
        r
    }

    fn insert_point(&mut self, data: [i32; N], reject_duplicates: bool) -> (added: bool)
        requires
            old(self).well_formed(),
            old(self).in_order().len() < usize::MAX,
        ensures
            final(self).well_formed(),
            final(self)@ == old(self)@.insert(data@),
            added == !(reject_duplicates && old(self)@.contains(data@)),
            !added ==> final(self).in_order() == old(self).in_order() && final(self).nodes() == old(self).nodes(),
            final(self).in_order().len() == old(self).in_order().len() + (if added { 1int } else { 0int }),
            added ==> final(self).in_order().to_multiset() == old(self).in_order().to_multiset().insert(data@),
            added ==> exists|path: Seq<bool>| is_new_leaf(old(self).nodes(), final(self).nodes(), path, data@),
    {
        let added = KDNode::<N>::insert_into_optional(&mut self.root, data, 0, reject_duplicates);
        if added {
            self.element_count = self.element_count + 1;
        }
        proof {
            if added {
                vstd::seq_lib::to_multiset_len(self.in_order());
                vstd::seq_lib::to_multiset_len(old(self).in_order());
                vstd::multiset::lemma_insert_len(old(self).in_order().to_multiset(), data@);
                let path = choose|path: Seq<bool>| is_new_leaf(
                    KDNode::<N>::optional_nodes(old(self).root),
                    KDNode::<N>::optional_nodes(self.root),
                    path,
                    data@,
                );
                assert(is_new_leaf(old(self).nodes(), self.nodes(), path, data@));
            }
        }
        added
    }

    /// Inserts a point into the tree as a new leaf: the nodes already there
    /// keep their places. A point equal to one already held is left out and
    /// the tree stays as it is.
    pub fn insert(&mut self, data: [i32; N])
        requires
            old(self).well_formed(),
            old(self).in_order().len() < usize::MAX,
        ensures
            final(self).well_formed(),
            final(self)@ == old(self)@.insert(data@),
            old(self)@.contains(data@) ==> final(self).in_order() == old(self).in_order()
                && final(self).nodes() == old(self).nodes(),
            !old(self)@.contains(data@) ==> final(self).in_order().to_multiset()
                == old(self).in_order().to_multiset().insert(data@),
            !old(self)@.contains(data@) ==> exists|path: Seq<bool>|
                is_new_leaf(old(self).nodes(), final(self).nodes(), path, data@),
    {
        self.insert_point(data, true);
    }

    /// Returns the number of points stored in the tree.
    pub fn len(&self) -> (r: usize)
        requires
            self.well_formed(),
        ensures
            r == self.in_order().len(),
    {
        self.element_count
    }

    /// Returns whether the tree holds no point.
    pub fn is_empty(&self) -> (r: bool)
        requires
            self.well_formed(),
        ensures
            r == (self.in_order().len() == 0),
            r == (self@ == Set::<Seq<i32>>::empty()),
    {
        proof {
            self.lemma_view_shape();
        }
        self.element_count == 0
    }

    /// Finds a point of the tree nearest to `target`; `None` when the tree is empty.
    pub fn nearest(&self, target: &[i32; N]) -> (r: Option<[i32; N]>)
        requires
            self.well_formed(),
        ensures
            r.is_none() <==> self@.len() == 0,
            r.is_some() ==> is_nearest(r.unwrap()@, self@, target@),
    {
        proof {
            self.lemma_view_shape();
            if self@.len() == 0 {
                vstd::set_lib::lemma_set_empty_equivalency_len(self@);
            }
        }
        match &self.root {
            None => {
                proof {
                    assert(self@ =~= Set::<Seq<i32>>::empty());
                }
                None
            },
            Some(root) => {
                proof {
                    assert(self@.contains(root.internal_data@));
                }
                Some(root.nearest(target, 0))
            },
        }
    }

    /// Lists the stored points in order: for each node its left branch, then
    /// the node, then its right branch.
    pub fn traverse_tree(&self) -> (r: Vec<[i32; N]>)
        requires
            self.well_formed(),
        ensures
            r@.map_values(|p: [i32; N]| p@) == self.in_order(),
    {
        let mut out: Vec<[i32; N]> = Vec::new();
        if let Some(root) = &self.root {
            root.traverse_branch(&mut out);
        }
        proof {
            assert(out@.map_values(|p: [i32; N]| p@) =~= self.in_order());
        }
        out
    }

    /// Replaces every stored point `p` by `func(p)`, one for one, and rebuilds
    /// the splitting structure over the new points so that queries stay
    /// correct. The number of stored points does not change, also where some
    /// of them become equal.
    pub fn traverse_tree_mut<F: Fn([i32; N]) -> [i32; N]>(&mut self, func: F)
        requires
            old(self).well_formed(),
            forall|p: [i32; N]| #[trigger] func.requires((p,)),
        ensures
            final(self).well_formed(),
            final(self).in_order().len() == old(self).in_order().len(),
            exists|mapped: Seq<Seq<i32>>| #![trigger mapped.to_multiset()] {
                &&& mapped.len() == old(self).in_order().len()
                &&& forall|i: int| 0 <= i < mapped.len() ==> maps_to(func, old(self).in_order()[i], #[trigger] mapped[i])
                &&& final(self).in_order().to_multiset() == mapped.to_multiset()
            },
    {
        let points = self.traverse_tree();
        let ghost old_order = self.in_order();
        let mut tree = KDTree::new();
        let ghost mut mapped: Seq<Seq<i32>> = Seq::empty();
        let mut i: usize = 0;
        while i < points.len()
            invariant
                N > 0,
                i <= points@.len(),
                points@.len() == old_order.len() == old(self).in_order().len(),
                old_order == old(self).in_order(),
                points@.map_values(|p: [i32; N]| p@) == old_order,
                forall|p: [i32; N]| #[trigger] func.requires((p,)),
                tree.well_formed(),
                tree.in_order().len() == i,
                mapped.len() == i,
                forall|j: int| 0 <= j < i ==> maps_to(func, old_order[j], #[trigger] mapped[j]),
                tree.in_order().to_multiset() == mapped.to_multiset(),
            decreases points@.len() - i,
        {
            let point = points[i];
            let image = func(point);
            proof {
                assert(points@.map_values(|p: [i32; N]| p@)[i as int] == point@);
                assert(points@.len() <= usize::MAX);
            }
            tree.insert_point(image, false);
            proof {
                broadcast use vstd::seq_lib::group_to_multiset_ensures;
                let old_mapped = mapped;
                mapped = mapped.push(image@);
                assert(tree.in_order().len() == i + 1);
                assert forall|j: int| 0 <= j < i + 1 implies maps_to(func, old_order[j], #[trigger] mapped[j]) by {
                    if j < i {
                        assert(mapped[j] == old_mapped[j]);
                    } else {
                        assert(point@ == old_order[j] && func.ensures((point,), image) && image@ == mapped[j]);
                    }
                }
            }
            i = i + 1;
        }
        *self = tree;
    }

    /// Builds a tree holding the points of `point_cloud`.
    pub fn from(point_cloud: &[[i32; N]]) -> (r: Self)
        requires
            N > 0,
            point_cloud@.len() < usize::MAX,
        ensures
            r.well_formed(),
            r@ == point_set(point_cloud@),
            r.in_order().len() <= point_cloud@.len(),
    {
        let mut tree = KDTree::new();
        let mut i: usize = 0;
        while i < point_cloud.len()
            invariant
                N > 0,
                i <= point_cloud@.len() < usize::MAX,
                tree.well_formed(),
                tree.in_order().len() <= i,
                tree@ == point_set(point_cloud@.take(i as int)),
            decreases point_cloud@.len() - i,
        {
            tree.insert_point(point_cloud[i], true);
            proof {
                let pre = point_cloud@.take(i as int);
                let post = point_cloud@.take(i as int + 1);
                assert(post == pre.push(point_cloud@[i as int]));
                assert(point_set(post) =~= point_set(pre).insert(point_cloud@[i as int]@)) by {
                    assert forall|p: Seq<i32>| point_set(post).contains(p) implies point_set(pre).insert(point_cloud@[i as int]@).contains(p) by {
                        let j = choose|j: int| 0 <= j < post.len() && post[j]@ == p;
                        if j < i {
                            assert(pre[j]@ == p);
                        }
                    }
                    assert forall|p: Seq<i32>| point_set(pre).insert(point_cloud@[i as int]@).contains(p) implies point_set(post).contains(p) by {
                        if p == point_cloud@[i as int]@ {
                            assert(post[i as int]@ == p);
                        } else {
                            let j = choose|j: int| 0 <= j < pre.len() && pre[j]@ == p;
                            assert(post[j]@ == p);
                        }
                    }
                }
            }
            i = i + 1;
        }
        proof {
            assert(point_cloud@.take(i as int) == point_cloud@);
        }
        tree
    }
}

/// A nearest-neighbour query answered by a tree built over a point cloud is
/// exactly as close to the target as the point an exhaustive scan of that
/// cloud finds, and is that very point when no other point of the cloud is as
/// close.
pub proof fn lemma_nearest_matches_scan<const N: usize>(
    tree: KDTree<N>,
    cloud: Seq<[i32; N]>,
    target: Seq<i32>,
    from_tree: Seq<i32>,
    from_scan: Seq<i32>,
)
    requires
        tree@ == point_set(cloud),
        is_nearest(from_tree, tree@, target),
        is_nearest(from_scan, point_set(cloud), target),
    ensures
        dist2(from_tree, target) == dist2(from_scan, target),
        (forall|q: Seq<i32>| #[trigger] point_set(cloud).contains(q) && q != from_scan
            ==> dist2(q, target) > dist2(from_scan, target)) ==> from_tree == from_scan,
        point_set(cloud).contains(from_tree),
        tree@.contains(from_scan),
{
}

} // verus!
