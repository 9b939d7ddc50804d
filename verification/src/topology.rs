//! Ordered orbit trees, and how well a guessed tree matches the true one.
use crate::order::sort_by_key;
use crate::sim::{BodyKind, Scene, SceneView};
use vstd::prelude::*;

verus! {

#[derive(Clone, Copy, Debug, PartialEq, Eq, Structural)]
pub struct Traits {
    pub star: bool,
    pub rings: bool,
}

impl Traits {
    /// Neither a star nor ringed.
    pub fn none() -> (r: Traits)
        ensures
            r == (Traits { star: false, rings: false }),
    {
        Traits { star: false, rings: false }
    }
}

/// Children are explicitly ordered by orbital size, independent of storage order.
#[derive(Debug)]
pub struct Topology {
    pub root: usize,
    pub children: Vec<Vec<usize>>,
    pub traits: Vec<Traits>,
}

pub struct TopologyView {
    pub root: usize,
    pub children: Seq<Seq<usize>>,
    pub traits: Seq<Traits>,
}

impl View for Topology {
    type V = TopologyView;

    open spec fn view(&self) -> TopologyView {
        TopologyView {
            root: self.root,
            children: self.children@.map_values(|v: Vec<usize>| v@),
            traits: self.traits@,
        }
    }
}

/// The children of `p`, in index order.
pub open spec fn family(parents: Seq<Option<usize>>, p: usize) -> Seq<usize> {
    crate::order::picked(parents.len(), |i: int| parents[i] == Some(p))
}

/// Index of the first body without a parent.
pub open spec fn first_root(parents: Seq<Option<usize>>) -> int {
    parents.index_of_first(None::<usize>)->0
}

/// A root exists and parents are indices into the same list.
pub open spec fn parents_valid(parents: Seq<Option<usize>>) -> bool {
    &&& parents.contains(None::<usize>)
    &&& forall|i: int|
        0 <= i < parents.len() ==> ((#[trigger] parents[i]) matches Some(p) ==> p < parents.len())
}

/// The tree in which each family is ordered by `order`, ties by index.
pub open spec fn ordered_tree(
    parents: Seq<Option<usize>>,
    order: Seq<i128>,
    traits: Seq<Traits>,
) -> TopologyView {
    TopologyView {
        root: first_root(parents) as usize,
        children: Seq::new(
            parents.len(),
            |p: int| crate::order::sorted_by(family(parents, p as usize), order),
        ),
        traits,
    }
}

impl TopologyView {
    pub open spec fn size(self) -> nat {
        self.children.len()
    }

    /// Whether `c` is the `k`-th child of `i`.
    pub open spec fn child(self, i: usize, k: int, c: usize) -> bool {
        i < self.size() && 0 <= k < self.children[i as int].len() && self.children[i as int][k] == c
    }

    /// Every node has one place at most, and the root is nobody's child.
    pub open spec fn well_formed(self) -> bool {
        &&& self.root < self.size() <= usize::MAX
        &&& self.traits.len() == self.size()
        &&& forall|i: usize, k: int, c: usize|
            #[trigger] self.child(i, k, c) ==> c < self.size() && c != self.root
        &&& forall|i: usize, k: int, j: usize, m: int, c: usize|
            #[trigger] self.child(i, k, c) && #[trigger] self.child(j, m, c) ==> i == j && k == m
    }

    /// The node whose child `x` is.
    pub open spec fn parent(self, x: usize) -> Option<usize> {
        if exists|i: usize, k: int| self.child(i, k, x) {
            let (i, k) = choose|i: usize, k: int| self.child(i, k, x);
            Some(i)
        } else {
            None
        }
    }

    /// The node `d` levels above `x`.
    pub open spec fn above(self, x: usize, d: nat) -> Option<usize>
        decreases d,
    {
        if d == 0 {
            Some(x)
        } else {
            match self.above(x, (d - 1) as nat) {
                Some(y) => self.parent(y),
                None => None,
            }
        }
    }

    /// Whether `x` is `i` or lies below it.
    pub open spec fn under(self, x: usize, i: usize) -> bool {
        x < self.size() && exists|d: nat| #[trigger] self.above(x, d) == Some(i)
    }

    /// The nodes of the subtree at `i`.
    pub open spec fn subtree(self, i: usize) -> Set<usize> {
        Set::new(|x: usize| self.under(x, i))
    }

    /// Every node belongs to the tree at the root.
    pub open spec fn connected(self) -> bool {
        forall|x: usize| x < self.size() ==> #[trigger] self.under(x, self.root)
    }

    /// The node reached from `i` by taking, level by level, the child of the
    /// given orbital rank.
    pub open spec fn follow(self, i: usize, ranks: Seq<nat>) -> Option<usize>
        decreases ranks.len(),
    {
        if ranks.len() == 0 {
            Some(i)
        } else if i < self.size() && ranks[0] < self.children[i as int].len() {
            self.follow(self.children[i as int][ranks[0] as int], ranks.skip(1))
        } else {
            None
        }
    }
}

/// What the two trees have in common below a pair of nodes.
pub struct Tally {
    pub count: nat,
    pub traits: nat,
    pub viewer: bool,
}

impl Tally {
    pub open spec fn plus(self, other: Tally) -> Tally {
        Tally {
            count: self.count + other.count,
            traits: self.traits + other.traits,
            viewer: self.viewer || other.viewer,
        }
    }
}

pub open spec fn agreeing(a: Traits, b: Traits) -> nat {
    (if a.star == b.star {
        1nat
    } else {
        0
    }) + (if a.rings == b.rings {
        1nat
    } else {
        0
    })
}

pub open spec fn fewer(a: nat, b: nat) -> nat {
    if a < b {
        a
    } else {
        b
    }
}

/// Matches `i` with `j`, then the first orbit of one with the first orbit of
/// the other, and so on for as many as both have, down to `levels` levels.
pub open spec fn matched(
    a: TopologyView,
    i: usize,
    b: TopologyView,
    j: usize,
    viewer: usize,
    host: usize,
    levels: nat,
) -> Tally
    decreases levels, 0int, 1int,
{
    if levels == 0 {
        Tally { count: 0, traits: 0, viewer: false }
    } else {
        let here = Tally {
            count: 1,
            traits: agreeing(a.traits[i as int], b.traits[j as int]),
            viewer: i == viewer && j == host,
        };
        let pairs = fewer(a.children[i as int].len(), b.children[j as int].len());
        here.plus(matched_families(a, i, b, j, viewer, host, (levels - 1) as nat, pairs))
    }
}

/// The sum over the first `pairs` orbits of `i` and `j`.
pub open spec fn matched_families(
    a: TopologyView,
    i: usize,
    b: TopologyView,
    j: usize,
    viewer: usize,
    host: usize,
    levels: nat,
    pairs: nat,
) -> Tally
    decreases levels, pairs + 1, 0int,
{
    if pairs == 0 {
        Tally { count: 0, traits: 0, viewer: false }
    } else {
        matched_families(a, i, b, j, viewer, host, levels, (pairs - 1) as nat).plus(
            matched(
                a,
                a.children[i as int][pairs - 1],
                b,
                b.children[j as int][pairs - 1],
                viewer,
                host,
                levels,
            ),
        )
    }
}

/// Matches two whole trees. A tree has at most as many levels as nodes.
pub open spec fn compared(a: TopologyView, viewer: usize, b: TopologyView, host: usize) -> Tally {
    matched(a, a.root, b, b.root, viewer, host, a.size())
}

proof fn lemma_parent(t: TopologyView, i: usize, k: int, c: usize)
    requires
        t.well_formed(),
        t.child(i, k, c),
    ensures
        t.parent(c) == Some(i),
{
    let (j, m) = choose|j: usize, m: int| t.child(j, m, c);
    assert(t.child(j, m, c));
}

proof fn lemma_above_sum(t: TopologyView, x: usize, d: nat, e: nat)
    ensures
        t.above(x, d + e) == (match t.above(x, d) {
            Some(y) => t.above(y, e),
            None => None,
        }),
    decreases e,
{
    if e > 0 {
        lemma_above_sum(t, x, d, (e - 1) as nat);
        assert((d + e - 1) as nat == d + (e - 1) as nat);
    } else {
        assert(d + e == d);
    }
}

proof fn lemma_above_cycle(t: TopologyView, x: usize, p: nat, m: nat)
    requires
        t.above(x, p) == Some(x),
    ensures
        t.above(x, m * p) == Some(x),
    decreases m,
{
    if m > 0 {
        lemma_above_cycle(t, x, p, (m - 1) as nat);
        let prior = ((m - 1) as nat) * p;
        assert(m * p == prior + p) by (nonlinear_arith)
            requires
                prior == (m - 1) * p,
                m > 0,
        ;
        lemma_above_sum(t, x, prior, p);
    } else {
        assert(m * p == 0) by (nonlinear_arith)
            requires
                m == 0,
        ;
    }
}

/// A node of the tree is not above itself.
proof fn lemma_no_cycle(t: TopologyView, x: usize, p: nat)
    requires
        t.well_formed(),
        t.under(x, t.root),
        p > 0,
    ensures
        t.above(x, p) != Some(x),
{
    if t.above(x, p) == Some(x) {
        let d = choose|d: nat| #[trigger] t.above(x, d) == Some(t.root);
        assert(t.parent(t.root) is None) by {
            if exists|i: usize, k: int| t.child(i, k, t.root) {
                let (i, k) = choose|i: usize, k: int| t.child(i, k, t.root);
                assert(t.child(i, k, t.root));
            }
        }
        assert(t.above(x, d + 1) is None);
        let m = d + 1;
        lemma_above_cycle(t, x, p, m);
        let rest = (m * p - m) as nat;
        assert(m * p >= m) by (nonlinear_arith)
            requires
                p > 0,
                m > 0,
        ;
        lemma_above_sum(t, x, m, rest);
        assert(m + rest == m * p);
    }
}

proof fn lemma_subtree_finite(t: TopologyView, i: usize)
    requires
        t.size() <= usize::MAX,
    ensures
        t.subtree(i).finite(),
        t.subtree(i).len() <= t.size(),
{
    let all = Set::new(|x: usize| x < t.size());
    lemma_range(t.size());
    assert(t.subtree(i).subset_of(all));
    vstd::set_lib::lemma_len_subset(t.subtree(i), all);
}

pub proof fn lemma_range(n: nat)
    requires
        n <= usize::MAX,
    ensures
        Set::new(|x: usize| x < n).finite(),
        Set::new(|x: usize| x < n).len() == n,
    decreases n,
{
    let s = Set::new(|x: usize| x < n);
    if n == 0 {
        assert(s =~= Set::empty());
    } else {
        lemma_range((n - 1) as nat);
        let rest = Set::new(|x: usize| x < (n - 1) as nat);
        assert(s =~= rest.insert((n - 1) as usize));
    }
}

/// A child's subtree lies in its parent's, without the parent.
proof fn lemma_child_subtree(t: TopologyView, i: usize, k: int)
    requires
        t.well_formed(),
        t.under(i, t.root),
        0 <= k < t.children[i as int].len(),
    ensures
        ({
            let c = t.children[i as int][k];
            &&& t.under(c, t.root)
            &&& t.subtree(c).subset_of(t.subtree(i))
            &&& !t.subtree(c).contains(i)
            &&& t.subtree(i).contains(i)
            &&& t.subtree(i).finite()
            &&& t.subtree(c).finite()
            &&& t.subtree(c).len() < t.subtree(i).len()
            &&& t.subtree(i).len() <= t.size()
        }),
{
    let c = t.children[i as int][k];
    assert(t.child(i, k, c));
    lemma_parent(t, i, k, c);
    let d = choose|d: nat| #[trigger] t.above(i, d) == Some(t.root);
    assert(t.above(c, 0) == Some(c));
    assert(t.above(c, 1) == Some(i));
    lemma_above_sum(t, c, 1, d);
    assert(t.above(c, 1 + d) == Some(t.root));
    assert forall|x: usize| t.subtree(c).contains(x) implies t.subtree(i).contains(x) by {
        let e = choose|e: nat| #[trigger] t.above(x, e) == Some(c);
        assert(t.above(x, e + 1) == Some(i));
    }
    if t.subtree(c).contains(i) {
        let e = choose|e: nat| #[trigger] t.above(i, e) == Some(c);
        assert(t.above(i, e + 1) == Some(i));
        lemma_no_cycle(t, i, e + 1);
    }
    assert(t.above(i, 0) == Some(i));
    lemma_subtree_finite(t, i);
    lemma_subtree_finite(t, c);
    vstd::set_lib::lemma_len_subset(t.subtree(c).insert(i), t.subtree(i));
}

/// The subtrees of two children do not meet.
proof fn lemma_siblings_disjoint(t: TopologyView, i: usize, k: int, m: int, x: usize)
    requires
        t.well_formed(),
        t.under(i, t.root),
        0 <= k < t.children[i as int].len(),
        0 <= m < t.children[i as int].len(),
        t.under(x, t.children[i as int][k]),
        t.under(x, t.children[i as int][m]),
    ensures
        k == m,
{
    let c = t.children[i as int][k];
    let e = t.children[i as int][m];
    assert(t.child(i, k, c));
    assert(t.child(i, m, e));
    lemma_parent(t, i, k, c);
    lemma_parent(t, i, m, e);
    let p = choose|d: nat| #[trigger] t.above(x, d) == Some(c);
    let q = choose|d: nat| #[trigger] t.above(x, d) == Some(e);
    if p < q {
        lemma_siblings_apart(t, i, x, p, q, c, e);
    } else if q < p {
        lemma_siblings_apart(t, i, x, q, p, e, c);
    }
}

proof fn lemma_siblings_apart(
    t: TopologyView,
    i: usize,
    x: usize,
    p: nat,
    q: nat,
    c: usize,
    e: usize,
)
    requires
        t.well_formed(),
        t.under(i, t.root),
        t.parent(c) == Some(i),
        t.parent(e) == Some(i),
        t.above(x, p) == Some(c),
        t.above(x, q) == Some(e),
    ensures
        q <= p,
{
    if p < q {
        let g = (q - p) as nat;
        lemma_above_sum(t, x, p, g);
        assert(p + g == q);
        assert(t.above(c, g) == Some(e));
        lemma_above_sum(t, c, 1, (g - 1) as nat);
        assert(t.above(c, 0) == Some(c));
        assert(t.above(c, 1) == Some(i));
        assert(1 + (g - 1) as nat == g);
        assert(t.above(i, (g - 1) as nat) == Some(e));
        assert(t.above(i, g) == Some(i));
        lemma_no_cycle(t, i, g);
    }
}

/// The nodes below the first `pairs` children of `i`.
pub open spec fn branches(t: TopologyView, i: usize, pairs: nat) -> Set<usize>
    decreases pairs,
{
    if pairs == 0 {
        Set::empty()
    } else {
        branches(t, i, (pairs - 1) as nat).union(t.subtree(t.children[i as int][pairs - 1]))
    }
}

proof fn lemma_branches(t: TopologyView, i: usize, pairs: nat)
    requires
        t.well_formed(),
        t.under(i, t.root),
        pairs <= t.children[i as int].len(),
    ensures
        branches(t, i, pairs).finite(),
        branches(t, i, pairs).subset_of(t.subtree(i)),
        !branches(t, i, pairs).contains(i),
        forall|x: usize| #[trigger]
            branches(t, i, pairs).contains(x) ==> exists|k: int|
                0 <= k < pairs && t.under(x, #[trigger] t.children[i as int][k]),
        pairs > 0 ==> branches(t, i, (pairs - 1) as nat).disjoint(
            t.subtree(t.children[i as int][pairs - 1]),
        ) && branches(t, i, pairs).len() == branches(t, i, (pairs - 1) as nat).len() + t.subtree(
            t.children[i as int][pairs - 1],
        ).len(),
    decreases pairs,
{
    if pairs > 0 {
        let m = (pairs - 1) as nat;
        lemma_branches(t, i, m);
        lemma_child_subtree(t, i, m as int);
        let b = branches(t, i, m);
        let c = t.children[i as int][m as int];
        assert forall|x: usize| b.contains(x) implies !t.subtree(c).contains(x) by {
            let k = choose|k: int| 0 <= k < m && t.under(x, #[trigger] t.children[i as int][k]);
            if t.subtree(c).contains(x) {
                lemma_siblings_disjoint(t, i, k, m as int, x);
            }
        }
        assert(b.disjoint(t.subtree(c)));
        vstd::set_lib::lemma_set_disjoint_lens(b, t.subtree(c));
        assert(b.union(t.subtree(c)) =~= b + t.subtree(c));
        assert forall|x: usize| #[trigger] branches(t, i, pairs).contains(x) implies exists|k: int|
            0 <= k < pairs && t.under(x, #[trigger] t.children[i as int][k]) by {
            if b.contains(x) {
                let k = choose|k: int| 0 <= k < m && t.under(x, #[trigger] t.children[i as int][k]);
                assert(t.under(x, t.children[i as int][k]));
            } else {
                assert(t.under(x, t.children[i as int][m as int]));
            }
        }
    }
}

/// Matching counts no node of the first tree twice, and at most two traits
/// for each.
proof fn lemma_matched_bound(
    a: TopologyView,
    i: usize,
    b: TopologyView,
    j: usize,
    viewer: usize,
    host: usize,
    levels: nat,
)
    requires
        a.well_formed(),
        a.under(i, a.root),
    ensures
        matched(a, i, b, j, viewer, host, levels).count <= a.subtree(i).len(),
        a.subtree(i).len() <= a.size(),
        matched(a, i, b, j, viewer, host, levels).traits <= 2 * matched(
            a,
            i,
            b,
            j,
            viewer,
            host,
            levels,
        ).count,
    decreases levels, 0int, 1int,
{
    lemma_subtree_finite(a, i);
    if levels > 0 {
        let pairs = fewer(a.children[i as int].len(), b.children[j as int].len());
        lemma_families_bound(a, i, b, j, viewer, host, (levels - 1) as nat, pairs);
        lemma_branches(a, i, pairs);
        assert(a.above(i, 0) == Some(i));
        vstd::set_lib::lemma_len_subset(branches(a, i, pairs).insert(i), a.subtree(i));
    }
}

proof fn lemma_families_bound(
    a: TopologyView,
    i: usize,
    b: TopologyView,
    j: usize,
    viewer: usize,
    host: usize,
    levels: nat,
    pairs: nat,
)
    requires
        a.well_formed(),
        a.under(i, a.root),
        pairs <= a.children[i as int].len(),
    ensures
        matched_families(a, i, b, j, viewer, host, levels, pairs).count <= branches(
            a,
            i,
            pairs,
        ).len(),
        matched_families(a, i, b, j, viewer, host, levels, pairs).traits <= 2 * matched_families(
            a,
            i,
            b,
            j,
            viewer,
            host,
            levels,
            pairs,
        ).count,
    decreases levels, pairs + 1, 0int,
{
    if pairs > 0 {
        lemma_families_bound(a, i, b, j, viewer, host, levels, (pairs - 1) as nat);
        lemma_child_subtree(a, i, pairs - 1);
        lemma_matched_bound(
            a,
            a.children[i as int][pairs - 1],
            b,
            b.children[j as int][pairs - 1],
            viewer,
            host,
            levels,
        );
        lemma_branches(a, i, pairs);
    }
}

proof fn lemma_matched_symmetric(
    a: TopologyView,
    i: usize,
    b: TopologyView,
    j: usize,
    viewer: usize,
    host: usize,
    levels: nat,
)
    ensures
        matched(a, i, b, j, viewer, host, levels) == matched(b, j, a, i, host, viewer, levels),
    decreases levels, 0int, 1int,
{
    if levels > 0 {
        let pairs = fewer(a.children[i as int].len(), b.children[j as int].len());
        lemma_families_symmetric(a, i, b, j, viewer, host, (levels - 1) as nat, pairs);
    }
}

proof fn lemma_families_symmetric(
    a: TopologyView,
    i: usize,
    b: TopologyView,
    j: usize,
    viewer: usize,
    host: usize,
    levels: nat,
    pairs: nat,
)
    ensures
        matched_families(a, i, b, j, viewer, host, levels, pairs) == matched_families(
            b,
            j,
            a,
            i,
            host,
            viewer,
            levels,
            pairs,
        ),
    decreases levels, pairs + 1, 0int,
{
    if pairs > 0 {
        lemma_families_symmetric(a, i, b, j, viewer, host, levels, (pairs - 1) as nat);
        lemma_matched_symmetric(
            a,
            a.children[i as int][pairs - 1],
            b,
            b.children[j as int][pairs - 1],
            viewer,
            host,
            levels,
        );
    }
}

/// A whole tree matches at most as many objects as either tree has, and at
/// most two traits of each.
pub proof fn law_match_bounds(a: TopologyView, viewer: usize, b: TopologyView, host: usize)
    requires
        a.well_formed(),
        b.well_formed(),
    ensures
        1 <= compared(a, viewer, b, host).count <= fewer(a.size(), b.size()),
        compared(a, viewer, b, host).traits <= 2 * compared(a, viewer, b, host).count,
{
    assert(a.above(a.root, 0) == Some(a.root));
    assert(b.above(b.root, 0) == Some(b.root));
    lemma_matched_bound(a, a.root, b, b.root, viewer, host, a.size());
    lemma_matched_symmetric(a, a.root, b, b.root, viewer, host, a.size());
    lemma_matched_bound(b, b.root, a, a.root, host, viewer, a.size());
}

/// The subtree at a node is the node and the subtrees of its children.
proof fn lemma_subtree_parts(t: TopologyView, i: usize)
    requires
        t.well_formed(),
        t.under(i, t.root),
    ensures
        t.subtree(i) == branches(t, i, t.children[i as int].len()).insert(i),
{
    let n = t.children[i as int].len();
    lemma_branches(t, i, n);
    assert(t.above(i, 0) == Some(i));
    assert forall|x: usize| t.under(x, i) && x != i implies branches(t, i, n).contains(x) by {
        let d = choose|d: nat| #[trigger] t.above(x, d) == Some(i);
        if d == 0 {
            assert(t.above(x, 0) == Some(x));
        } else {
            let c = t.above(x, (d - 1) as nat)->0;
            assert(t.parent(c) == Some(i));
            let (j, k) = choose|j: usize, k: int| t.child(j, k, c);
            assert(t.child(i, k, c));
            assert(t.under(x, c));
            lemma_branch_member(t, i, n, k, x);
        }
    }
    assert(t.subtree(i) =~= branches(t, i, n).insert(i));
}

proof fn lemma_branch_member(t: TopologyView, i: usize, pairs: nat, k: int, x: usize)
    requires
        0 <= k < pairs,
        t.under(x, t.children[i as int][k]),
    ensures
        branches(t, i, pairs).contains(x),
    decreases pairs,
{
    if k < pairs - 1 {
        lemma_branch_member(t, i, (pairs - 1) as nat, k, x);
    }
}

proof fn lemma_matched_self(a: TopologyView, i: usize, viewer: usize, levels: nat)
    requires
        a.well_formed(),
        a.under(i, a.root),
        levels >= a.subtree(i).len(),
    ensures
        matched(a, i, a, i, viewer, viewer, levels).count == a.subtree(i).len(),
        matched(a, i, a, i, viewer, viewer, levels).traits == 2 * a.subtree(i).len(),
        matched(a, i, a, i, viewer, viewer, levels).viewer == a.under(viewer, i),
    decreases levels, 0int, 1int,
{
    lemma_subtree_finite(a, i);
    lemma_subtree_parts(a, i);
    let n = a.children[i as int].len();
    lemma_branches(a, i, n);
    assert(a.subtree(i).contains(i));
    assert(a.subtree(i).len() == branches(a, i, n).len() + 1);
    lemma_families_self(a, i, viewer, (levels - 1) as nat, n);
    assert(a.under(viewer, i) == a.subtree(i).contains(viewer));
    assert(i == viewer ==> a.subtree(i).contains(viewer));
}

proof fn lemma_families_self(a: TopologyView, i: usize, viewer: usize, levels: nat, pairs: nat)
    requires
        a.well_formed(),
        a.under(i, a.root),
        pairs <= a.children[i as int].len(),
        levels + 1 >= a.subtree(i).len(),
    ensures
        matched_families(a, i, a, i, viewer, viewer, levels, pairs).count == branches(
            a,
            i,
            pairs,
        ).len(),
        matched_families(a, i, a, i, viewer, viewer, levels, pairs).traits == 2 * branches(
            a,
            i,
            pairs,
        ).len(),
        matched_families(a, i, a, i, viewer, viewer, levels, pairs).viewer == branches(
            a,
            i,
            pairs,
        ).contains(viewer),
    decreases levels, pairs + 1, 0int,
{
    if pairs > 0 {
        lemma_families_self(a, i, viewer, levels, (pairs - 1) as nat);
        lemma_child_subtree(a, i, pairs - 1);
        lemma_matched_self(a, a.children[i as int][pairs - 1], viewer, levels);
        lemma_branches(a, i, pairs);
    }
}

/// A tree compared with itself matches completely, and the viewer is found
/// exactly where it stands.
pub proof fn law_perfect_match(a: TopologyView, viewer: usize)
    requires
        a.well_formed(),
        a.connected(),
        viewer < a.size(),
    ensures
        compared(a, viewer, a, viewer) == (Tally {
            count: a.size(),
            traits: 2 * a.size(),
            viewer: true,
        }),
{
    lemma_whole(a);
    lemma_matched_self(a, a.root, viewer, a.size());
    assert(a.under(viewer, a.root));
}

/// Whether some sequence of ranks leads from `i` to the viewer and from `j` to
/// the host alike.
pub open spec fn same_place(
    a: TopologyView,
    i: usize,
    b: TopologyView,
    j: usize,
    viewer: usize,
    host: usize,
) -> bool {
    exists|ranks: Seq<nat>| #[trigger]
        a.follow(i, ranks) == Some(viewer) && b.follow(j, ranks) == Some(host)
}

proof fn lemma_viewer_place(
    a: TopologyView,
    i: usize,
    b: TopologyView,
    j: usize,
    viewer: usize,
    host: usize,
    levels: nat,
)
    requires
        a.well_formed(),
        b.well_formed(),
        a.under(i, a.root),
        j < b.size(),
        levels >= a.subtree(i).len(),
    ensures
        matched(a, i, b, j, viewer, host, levels).viewer == same_place(a, i, b, j, viewer, host),
    decreases levels, 0int, 1int,
{
    lemma_subtree_finite(a, i);
    assert(a.above(i, 0) == Some(i));
    assert(a.subtree(i).contains(i));
    assert(levels > 0);
    let pairs = fewer(a.children[i as int].len(), b.children[j as int].len());
    lemma_families_place(a, i, b, j, viewer, host, (levels - 1) as nat, pairs);
    if i == viewer && j == host {
        let here = Seq::<nat>::empty();
        assert(a.follow(i, here) == Some(viewer) && b.follow(j, here) == Some(host));
    }
    if same_place(a, i, b, j, viewer, host) {
        let ranks = choose|ranks: Seq<nat>| #[trigger]
            a.follow(i, ranks) == Some(viewer) && b.follow(j, ranks) == Some(host);
        if ranks.len() > 0 {
            let k = ranks[0] as int;
            assert(a.follow(a.children[i as int][k], ranks.skip(1)) == Some(viewer));
            assert(same_place(
                a,
                a.children[i as int][k],
                b,
                b.children[j as int][k],
                viewer,
                host,
            ));
        }
    }
}

proof fn lemma_families_place(
    a: TopologyView,
    i: usize,
    b: TopologyView,
    j: usize,
    viewer: usize,
    host: usize,
    levels: nat,
    pairs: nat,
)
    requires
        a.well_formed(),
        b.well_formed(),
        a.under(i, a.root),
        j < b.size(),
        pairs <= a.children[i as int].len(),
        pairs <= b.children[j as int].len(),
        levels + 1 >= a.subtree(i).len(),
    ensures
        matched_families(a, i, b, j, viewer, host, levels, pairs).viewer ==> same_place(
            a,
            i,
            b,
            j,
            viewer,
            host,
        ),
        forall|k: int|
            0 <= k < pairs && same_place(
                a,
                #[trigger] a.children[i as int][k],
                b,
                b.children[j as int][k],
                viewer,
                host,
            ) ==> matched_families(a, i, b, j, viewer, host, levels, pairs).viewer,
    decreases levels, pairs + 1, 0int,
{
    if pairs > 0 {
        let m = pairs - 1;
        lemma_families_place(a, i, b, j, viewer, host, levels, m as nat);
        let c = a.children[i as int][m];
        let e = b.children[j as int][m];
        lemma_child_subtree(a, i, m);
        assert(b.child(j, m, e));
        lemma_viewer_place(a, c, b, e, viewer, host, levels);
        if same_place(a, c, b, e, viewer, host) {
            let ranks = choose|ranks: Seq<nat>| #[trigger]
                a.follow(c, ranks) == Some(viewer) && b.follow(e, ranks) == Some(host);
            let longer = seq![m as nat] + ranks;
            assert(longer.skip(1) =~= ranks);
            assert(a.follow(i, longer) == Some(viewer));
            assert(b.follow(j, longer) == Some(host));
        }
    }
}

/// The viewer is credited exactly when one sequence of orbital ranks, from the
/// root down, leads to the viewer in the guess and to the host in the truth.
pub proof fn law_viewer_is_its_rank_sequence(
    a: TopologyView,
    viewer: usize,
    b: TopologyView,
    host: usize,
)
    requires
        a.well_formed(),
        b.well_formed(),
    ensures
        compared(a, viewer, b, host).viewer == same_place(a, a.root, b, b.root, viewer, host),
{
    assert(a.above(a.root, 0) == Some(a.root));
    lemma_subtree_finite(a, a.root);
    lemma_viewer_place(a, a.root, b, b.root, viewer, host, a.size());
}

proof fn lemma_family_member(parents: Seq<Option<usize>>, order: Seq<i128>, p: usize, k: int)
    requires
        parents.len() <= usize::MAX,
        0 <= k < crate::order::sorted_by(family(parents, p), order).len(),
    ensures
        crate::order::sorted_by(family(parents, p), order).no_duplicates(),
        ({
            let c = crate::order::sorted_by(family(parents, p), order)[k];
            c < parents.len() && parents[c as int] == Some(p)
        }),
{
    let f = family(parents, p);
    let s = crate::order::sorted_by(f, order);
    crate::order::lemma_picked(parents.len(), |i: int| parents[i] == Some(p));
    crate::order::law_stable_sort(f, order);
    lemma_permuted(f, s);
    assert(s.contains(s[k]));
    assert(f.contains(s[k]));
}

/// Rearranging keeps elements and their distinctness.
pub proof fn lemma_permuted(f: Seq<usize>, s: Seq<usize>)
    requires
        f.to_multiset() == s.to_multiset(),
    ensures
        f.len() == s.len(),
        forall|x: usize| #[trigger] s.contains(x) <==> f.contains(x),
        f.no_duplicates() ==> s.no_duplicates(),
{
    broadcast use vstd::seq_lib::group_to_multiset_ensures;

    assert(f.to_multiset().len() == f.len());
    assert(s.to_multiset().len() == s.len());
    assert forall|x: usize| #[trigger] s.contains(x) <==> f.contains(x) by {
        assert(s.contains(x) <==> s.to_multiset().count(x) > 0);
        assert(f.contains(x) <==> f.to_multiset().count(x) > 0);
    }
    if f.no_duplicates() {
        f.lemma_multiset_has_no_duplicates();
        s.lemma_multiset_has_no_duplicates_conv();
    }
}

/// A list of parents with a root makes a well-formed tree.
pub proof fn lemma_ordered_tree(
    parents: Seq<Option<usize>>,
    order: Seq<i128>,
    traits: Seq<Traits>,
)
    requires
        parents_valid(parents),
        parents.len() <= usize::MAX,
        traits.len() == parents.len(),
    ensures
        ordered_tree(parents, order, traits).well_formed(),
{
    let t = ordered_tree(parents, order, traits);
    parents.index_of_first_ensures(None::<usize>);
    assert forall|i: usize, k: int, c: usize| #[trigger] t.child(i, k, c) implies c < t.size() && c
        != t.root && parents[c as int] == Some(i) by {
        lemma_family_member(parents, order, i, k);
    }
    assert forall|i: usize, k: int, j: usize, m: int, c: usize|
        #[trigger] t.child(i, k, c) && #[trigger] t.child(j, m, c) implies i == j && k == m by {
        lemma_family_member(parents, order, i, k);
        lemma_family_member(parents, order, j, m);
        if k != m {
            assert(t.children[i as int][k] != t.children[i as int][m]);
        }
    }
}

/// Where every parent but the first comes before its child, the tree reaches
/// every body.
pub proof fn lemma_ordered_tree_connected(
    parents: Seq<Option<usize>>,
    order: Seq<i128>,
    traits: Seq<Traits>,
)
    requires
        0 < parents.len() <= usize::MAX,
        traits.len() == parents.len(),
        parents[0] is None,
        forall|i: int| 0 < i < parents.len() ==> ((#[trigger] parents[i]) matches Some(p) && p < i),
    ensures
        parents_valid(parents),
        ordered_tree(parents, order, traits).well_formed(),
        ordered_tree(parents, order, traits).connected(),
        ordered_tree(parents, order, traits).root == 0,
{
    let t = ordered_tree(parents, order, traits);
    assert(parents.contains(None::<usize>)) by {
        assert(parents[0] == None::<usize>);
    }
    lemma_ordered_tree(parents, order, traits);
    parents.index_of_first_ensures(None::<usize>);
    assert(t.root == 0);
    assert forall|x: usize| x < t.size() implies #[trigger] t.under(x, t.root) by {
        lemma_reaches_root(parents, order, traits, x);
    }
}

proof fn lemma_reaches_root(
    parents: Seq<Option<usize>>,
    order: Seq<i128>,
    traits: Seq<Traits>,
    x: usize,
)
    requires
        0 < parents.len() <= usize::MAX,
        traits.len() == parents.len(),
        parents[0] is None,
        forall|i: int| 0 < i < parents.len() ==> ((#[trigger] parents[i]) matches Some(p) && p < i),
        ordered_tree(parents, order, traits).well_formed(),
        ordered_tree(parents, order, traits).root == 0,
        x < parents.len(),
    ensures
        ordered_tree(parents, order, traits).under(x, 0),
    decreases x,
{
    let t = ordered_tree(parents, order, traits);
    if x == 0 {
        assert(t.above(x, 0) == Some(0usize));
    } else {
        let p = parents[x as int]->0;
        lemma_reaches_root(parents, order, traits, p);
        let f = family(parents, p);
        let s = crate::order::sorted_by(f, order);
        crate::order::lemma_picked(parents.len(), |i: int| parents[i] == Some(p));
        crate::order::law_stable_sort(f, order);
        lemma_permuted(f, s);
        assert(f.contains(x));
        assert(s.contains(x));
        let k = choose|k: int| 0 <= k < s.len() && s[k] == x;
        assert(t.child(p, k, x));
        lemma_parent(t, p, k, x);
        let d = choose|d: nat| #[trigger] t.above(p, d) == Some(0usize);
        assert(t.above(x, 0) == Some(x));
        assert(t.above(x, 1) == Some(p));
        lemma_above_sum(t, x, 1, d);
        assert(t.above(x, 1 + d) == Some(0usize));
    }
}

/// The parents of a scene's bodies.
pub open spec fn scene_parents(scene: SceneView) -> Seq<Option<usize>> {
    Seq::new(scene.bodies.len(), |i: int| scene.bodies[i].parent)
}

/// Semi-major axes, by the key of the total order of numbers.
pub open spec fn scene_order(scene: SceneView) -> Seq<i128> {
    Seq::new(
        scene.bodies.len(),
        |i: int| crate::number::total_order(scene.bodies[i].elements.a.bits) as i128,
    )
}

pub open spec fn scene_traits(scene: SceneView) -> Seq<Traits> {
    Seq::new(
        scene.bodies.len(),
        |i: int|
            Traits {
                star: scene.bodies[i].kind == BodyKind::Star,
                rings: scene.bodies[i].rings is Some,
            },
    )
}

/// The tree of a scene: families ordered by semi-major axis.
pub open spec fn scene_tree(scene: SceneView) -> TopologyView {
    ordered_tree(scene_parents(scene), scene_order(scene), scene_traits(scene))
}

/// The children of `p`, in index order.
pub fn members(parents: &Vec<Option<usize>>, p: usize) -> (r: Vec<usize>)
    ensures
        r@ == family(parents@, p),
{
    let mut r: Vec<usize> = Vec::new();
    let ghost inside = |i: int| parents@[i] == Some(p);
    let mut i: usize = 0;
    while i < parents.len()
        invariant
            i <= parents@.len(),
            inside == (|i: int| parents@[i] == Some(p)),
            r@ == crate::order::picked(i as nat, inside),
        decreases parents.len() - i,
    {
        let belongs = match parents[i] {
            Some(parent) => parent == p,
            None => false,
        };
        if belongs {
            r.push(i);
        }
        i += 1;
    }
    r
}

impl Topology {
    pub fn new(parents: &Vec<Option<usize>>, orbital_order: &Vec<i128>, traits: Vec<Traits>) -> (r:
        Topology)
        requires
            parents_valid(parents@),
            parents@.len() <= orbital_order@.len(),
        ensures
            r@ == ordered_tree(parents@, orbital_order@, traits@),
    {
        let n: usize = parents.len();
        let mut children: Vec<Vec<usize>> = Vec::new();
        let mut p: usize = 0;
        while p < n
            invariant
                p <= n,
                n == parents@.len(),
                n <= orbital_order@.len(),
                children@.len() == p,
                forall|q: int|
                    0 <= q < p ==> (#[trigger] children@[q])@ == crate::order::sorted_by(
                        family(parents@, q as usize),
                        orbital_order@,
                    ),
            decreases n - p,
        {
            let members = members(parents, p);
            proof {
                crate::order::lemma_picked(n as nat, |i: int| parents@[i] == Some(p));
            }
            children.push(sort_by_key(&members, orbital_order));
            p += 1;
        }
        proof {
            parents@.index_of_first_ensures(None::<usize>);
        }
        let mut root: usize = 0;
        while parents[root].is_some()
            invariant
                n == parents@.len(),
                root <= first_root(parents@) < n,
                parents@[first_root(parents@)] is None,
                forall|j: int| 0 <= j < root ==> parents@[j] is Some,
            decreases n - root,
        {
            root += 1;
        }
        assert(root == first_root(parents@)) by {
            if root < first_root(parents@) {
                assert(parents@[root as int] != None::<usize>);
            }
        }
        let r = Topology { root, children, traits };
        assert(r@.children =~= ordered_tree(parents@, orbital_order@, traits@).children);
        r
    }

    /// The true tree behind a scene.
    pub fn from_scene(scene: &Scene) -> (r: Topology)
        requires
            parents_valid(scene_parents(scene@)),
        ensures
            r@ == scene_tree(scene@),
            r@.well_formed(),
    {
        let mut parents: Vec<Option<usize>> = Vec::new();
        let mut axes: Vec<i128> = Vec::new();
        let mut traits: Vec<Traits> = Vec::new();
        let ghost n = scene.bodies@.len();
        let ghost orders = scene_order(scene@);
        let ghost marks = scene_traits(scene@);
        let mut i: usize = 0;
        while i < scene.bodies.len()
            invariant
                i <= n,
                n == scene.bodies@.len(),
                orders == scene_order(scene@),
                marks == scene_traits(scene@),
                parents@ == scene_parents(scene@).take(i as int),
                axes@ == orders.take(i as int),
                traits@ == marks.take(i as int),
            decreases n - i,
        {
            let body = &scene.bodies[i];
            assert(body@ == scene@.bodies[i as int]);
            parents.push(body.parent);
            axes.push(body.elements.a.total_key());
            traits.push(
                Traits { star: body.kind == BodyKind::Star, rings: body.rings.is_some() },
            );
            i += 1;
            assert(scene_parents(scene@).take(i as int) =~= scene_parents(scene@).take(
                i - 1,
            ).push(body.parent));
            assert(orders.take(i as int) =~= orders.take(i - 1).push(orders[i - 1]));
            assert(marks.take(i as int) =~= marks.take(i - 1).push(marks[i - 1]));
        }
        assert(scene_parents(scene@).take(n as int) =~= scene_parents(scene@));
        assert(orders.take(n as int) =~= orders);
        assert(marks.take(n as int) =~= marks);
        proof {
            lemma_ordered_tree(scene_parents(scene@), orders, marks);
        }
        Topology::new(&parents, &axes, traits)
    }
}

/// A ratio of whole numbers, as a percentage.
#[derive(Clone, Copy, Debug, PartialEq, Eq, Structural)]
pub struct Percent {
    pub numerator: u128,
    pub denominator: u128,
}

/// How far a theory agrees with the truth.
#[derive(Clone, Copy, Debug, PartialEq, Eq, Structural)]
pub struct Score {
    /// Objects that stand at the same sequence of ranks in both trees.
    pub matched: u128,
    /// Traits that agree on those objects.
    pub agreed: u128,
    /// The number of objects of the larger tree.
    pub size: u128,
    pub viewer: bool,
}

impl Score {
    pub open spec fn well_formed(self) -> bool {
        &&& 0 < self.size <= u64::MAX
        &&& self.matched <= self.size
        &&& self.agreed <= 2 * self.matched
    }

    /// Share of the objects that are matched.
    pub fn topology(self) -> (r: Percent)
        requires
            self.well_formed(),
        ensures
            r.numerator == 100 * self.matched,
            r.denominator == self.size,
            r.numerator == 100 * r.denominator <==> self.matched == self.size,
            r.numerator <= 100 * r.denominator,
    {
        Percent { numerator: 100 * self.matched, denominator: self.size }
    }

    /// Share of the traits, two to an object, that agree.
    pub fn traits(self) -> (r: Percent)
        requires
            self.well_formed(),
        ensures
            r.numerator == 100 * self.agreed,
            r.denominator == 2 * self.size,
            r.numerator == 100 * r.denominator <==> self.agreed == 2 * self.size,
            r.numerator <= 100 * r.denominator,
    {
        Percent { numerator: 100 * self.agreed, denominator: 2 * self.size }
    }

    /// Six tenths of the structure, two tenths of the traits, and twenty
    /// percent for the viewer.
    pub fn total(self) -> (r: Percent)
        requires
            self.well_formed(),
        ensures
            r.numerator == self.points(),
            r.denominator == self.size,
            r.numerator <= 100 * r.denominator,
    {
        let viewer: u128 = if self.viewer {
            20 * self.size
        } else {
            0
        };
        Percent {
            numerator: 60 * self.matched + 10 * self.agreed + viewer,
            denominator: self.size,
        }
    }

    /// Percentage points times the size.
    pub open spec fn points(self) -> int {
        60 * self.matched + 10 * self.agreed + (if self.viewer {
            20 * self.size
        } else {
            0
        })
    }
}

/// A total lies between 0 and 100, and is 100 only for a theory that agrees in
/// everything.
pub proof fn law_total_is_a_percentage(s: Score)
    requires
        s.well_formed(),
    ensures
        0 <= s.points() <= 100 * s.size,
        s.points() == 100 * s.size <==> s.matched == s.size && s.agreed == 2 * s.size && s.viewer,
{
}

pub open spec fn greater(a: nat, b: nat) -> nat {
    if a < b {
        b
    } else {
        a
    }
}

/// The score that a comparison earns.
pub open spec fn scored(a: TopologyView, viewer: usize, b: TopologyView, host: usize) -> Score {
    let t = compared(a, viewer, b, host);
    Score {
        matched: t.count as u128,
        agreed: t.traits as u128,
        size: greater(a.size(), b.size()) as u128,
        viewer: t.viewer,
    }
}

/// Whether the subtrees at `i` and `j` have the same shape, `levels` levels deep:
/// as many children each, and those alike in turn.
pub open spec fn alike(a: TopologyView, i: usize, b: TopologyView, j: usize, levels: nat) -> bool
    decreases levels,
{
    levels == 0 || {
        &&& a.children[i as int].len() == b.children[j as int].len()
        &&& forall|k: int|
            0 <= k < a.children[i as int].len() ==> alike(
                a,
                #[trigger] a.children[i as int][k],
                b,
                b.children[j as int][k],
                (levels - 1) as nat,
            )
    }
}

/// Whether moreover star and rings agree at every place of the two.
pub open spec fn identical(
    a: TopologyView,
    i: usize,
    b: TopologyView,
    j: usize,
    levels: nat,
) -> bool
    decreases levels,
{
    levels == 0 || {
        &&& a.traits[i as int] == b.traits[j as int]
        &&& a.children[i as int].len() == b.children[j as int].len()
        &&& forall|k: int|
            0 <= k < a.children[i as int].len() ==> identical(
                a,
                #[trigger] a.children[i as int][k],
                b,
                b.children[j as int][k],
                (levels - 1) as nat,
            )
    }
}

/// Two trees of one size and shape.
pub open spec fn same_shape(a: TopologyView, b: TopologyView) -> bool {
    a.size() == b.size() && alike(a, a.root, b, b.root, a.size())
}

/// Two trees of one size and shape whose traits agree throughout.
pub open spec fn same_tree(a: TopologyView, b: TopologyView) -> bool {
    a.size() == b.size() && identical(a, a.root, b, b.root, a.size())
}

/// Fewer children are fewer nodes.
proof fn lemma_branches_strict(t: TopologyView, i: usize, m: nat, n: nat)
    requires
        t.well_formed(),
        t.under(i, t.root),
        m <= n <= t.children[i as int].len(),
    ensures
        branches(t, i, m).len() <= branches(t, i, n).len(),
        m < n ==> branches(t, i, m).len() < branches(t, i, n).len(),
    decreases n,
{
    if m < n {
        lemma_branches_strict(t, i, m, (n - 1) as nat);
        lemma_branches(t, i, n);
        let c = t.children[i as int][n - 1];
        lemma_child_subtree(t, i, n - 1);
        assert(t.above(c, 0) == Some(c));
        assert(t.child(i, n - 1, c));
        assert(t.subtree(c).contains(c));
    }
}

/// A match that counts both subtrees whole joins subtrees of one shape.
proof fn lemma_full_is_alike(
    a: TopologyView,
    i: usize,
    b: TopologyView,
    j: usize,
    viewer: usize,
    host: usize,
    levels: nat,
)
    requires
        a.well_formed(),
        b.well_formed(),
        a.under(i, a.root),
        b.under(j, b.root),
        matched(a, i, b, j, viewer, host, levels).count == a.subtree(i).len(),
        matched(a, i, b, j, viewer, host, levels).count == b.subtree(j).len(),
    ensures
        alike(a, i, b, j, levels),
    decreases levels, 0int, 1int,
{
    if levels > 0 {
        let l = (levels - 1) as nat;
        let n = a.children[i as int].len();
        let m = b.children[j as int].len();
        let pairs = fewer(n, m);
        lemma_subtree_parts(a, i);
        lemma_subtree_parts(b, j);
        lemma_branches(a, i, n);
        lemma_branches(b, j, m);
        lemma_families_bound(a, i, b, j, viewer, host, l, pairs);
        lemma_families_symmetric(a, i, b, j, viewer, host, l, pairs);
        lemma_families_bound(b, j, a, i, host, viewer, l, pairs);
        lemma_branches_strict(a, i, pairs, n);
        lemma_branches_strict(b, j, pairs, m);
        lemma_full_families_are_alike(a, i, b, j, viewer, host, l, pairs);
    }
}

proof fn lemma_full_families_are_alike(
    a: TopologyView,
    i: usize,
    b: TopologyView,
    j: usize,
    viewer: usize,
    host: usize,
    levels: nat,
    pairs: nat,
)
    requires
        a.well_formed(),
        b.well_formed(),
        a.under(i, a.root),
        b.under(j, b.root),
        pairs <= a.children[i as int].len(),
        pairs <= b.children[j as int].len(),
        matched_families(a, i, b, j, viewer, host, levels, pairs).count == branches(
            a,
            i,
            pairs,
        ).len(),
        matched_families(a, i, b, j, viewer, host, levels, pairs).count == branches(
            b,
            j,
            pairs,
        ).len(),
    ensures
        forall|k: int|
            0 <= k < pairs ==> alike(
                a,
                #[trigger] a.children[i as int][k],
                b,
                b.children[j as int][k],
                levels,
            ),
    decreases levels, pairs + 1, 0int,
{
    if pairs > 0 {
        let k = pairs - 1;
        let c = a.children[i as int][k];
        let e = b.children[j as int][k];
        lemma_child_subtree(a, i, k);
        lemma_child_subtree(b, j, k);
        lemma_branches(a, i, pairs);
        lemma_branches(b, j, pairs);
        lemma_families_bound(a, i, b, j, viewer, host, levels, k as nat);
        lemma_families_symmetric(a, i, b, j, viewer, host, levels, k as nat);
        lemma_families_bound(b, j, a, i, host, viewer, levels, k as nat);
        lemma_matched_bound(a, c, b, e, viewer, host, levels);
        lemma_matched_symmetric(a, c, b, e, viewer, host, levels);
        lemma_matched_bound(b, e, a, c, host, viewer, levels);
        lemma_full_families_are_alike(a, i, b, j, viewer, host, levels, k as nat);
        lemma_full_is_alike(a, c, b, e, viewer, host, levels);
    }
}

/// Subtrees of one shape match whole.
proof fn lemma_alike_is_full(
    a: TopologyView,
    i: usize,
    b: TopologyView,
    j: usize,
    viewer: usize,
    host: usize,
    levels: nat,
)
    requires
        a.well_formed(),
        b.well_formed(),
        a.under(i, a.root),
        b.under(j, b.root),
        levels >= a.subtree(i).len(),
        alike(a, i, b, j, levels),
    ensures
        matched(a, i, b, j, viewer, host, levels).count == a.subtree(i).len(),
        b.subtree(j).len() == a.subtree(i).len(),
    decreases levels, 0int, 1int,
{
    let n = a.children[i as int].len();
    lemma_subtree_finite(a, i);
    lemma_subtree_parts(a, i);
    assert(a.subtree(i).contains(i));
    assert(levels > 0);
    lemma_subtree_parts(b, j);
    lemma_branches(a, i, n);
    lemma_branches(b, j, n);
    lemma_alike_families_are_full(a, i, b, j, viewer, host, (levels - 1) as nat, n);
}

proof fn lemma_alike_families_are_full(
    a: TopologyView,
    i: usize,
    b: TopologyView,
    j: usize,
    viewer: usize,
    host: usize,
    levels: nat,
    pairs: nat,
)
    requires
        a.well_formed(),
        b.well_formed(),
        a.under(i, a.root),
        b.under(j, b.root),
        pairs <= a.children[i as int].len(),
        pairs <= b.children[j as int].len(),
        levels + 1 >= a.subtree(i).len(),
        forall|k: int|
            0 <= k < pairs ==> alike(
                a,
                #[trigger] a.children[i as int][k],
                b,
                b.children[j as int][k],
                levels,
            ),
    ensures
        matched_families(a, i, b, j, viewer, host, levels, pairs).count == branches(
            a,
            i,
            pairs,
        ).len(),
        branches(b, j, pairs).len() == branches(a, i, pairs).len(),
    decreases levels, pairs + 1, 0int,
{
    if pairs > 0 {
        let k = pairs - 1;
        let c = a.children[i as int][k];
        lemma_alike_families_are_full(a, i, b, j, viewer, host, levels, k as nat);
        lemma_child_subtree(a, i, k);
        lemma_child_subtree(b, j, k);
        lemma_branches(a, i, pairs);
        lemma_branches(b, j, pairs);
        lemma_alike_is_full(a, c, b, b.children[j as int][k], viewer, host, levels);
    }
}

/// In subtrees of one shape, all traits agree exactly where the two are
/// identical.
proof fn lemma_identical(
    a: TopologyView,
    i: usize,
    b: TopologyView,
    j: usize,
    viewer: usize,
    host: usize,
    levels: nat,
)
    requires
        a.well_formed(),
        a.under(i, a.root),
        alike(a, i, b, j, levels),
    ensures
        ({
            let t = matched(a, i, b, j, viewer, host, levels);
            t.traits == 2 * t.count <==> identical(a, i, b, j, levels)
        }),
    decreases levels, 0int, 1int,
{
    if levels > 0 {
        let l = (levels - 1) as nat;
        let n = a.children[i as int].len();
        lemma_identical_families(a, i, b, j, viewer, host, l, n);
        lemma_families_bound(a, i, b, j, viewer, host, l, n);
        assert(agreeing(a.traits[i as int], b.traits[j as int]) == 2 <==> a.traits[i as int]
            == b.traits[j as int]);
    }
}

proof fn lemma_identical_families(
    a: TopologyView,
    i: usize,
    b: TopologyView,
    j: usize,
    viewer: usize,
    host: usize,
    levels: nat,
    pairs: nat,
)
    requires
        a.well_formed(),
        a.under(i, a.root),
        pairs <= a.children[i as int].len(),
        forall|k: int|
            0 <= k < pairs ==> alike(
                a,
                #[trigger] a.children[i as int][k],
                b,
                b.children[j as int][k],
                levels,
            ),
    ensures
        ({
            let t = matched_families(a, i, b, j, viewer, host, levels, pairs);
            t.traits == 2 * t.count <==> forall|k: int|
                0 <= k < pairs ==> identical(
                    a,
                    #[trigger] a.children[i as int][k],
                    b,
                    b.children[j as int][k],
                    levels,
                )
        }),
    decreases levels, pairs + 1, 0int,
{
    if pairs > 0 {
        let k = pairs - 1;
        let c = a.children[i as int][k];
        let e = b.children[j as int][k];
        lemma_identical_families(a, i, b, j, viewer, host, levels, k as nat);
        lemma_child_subtree(a, i, k);
        lemma_identical(a, c, b, e, viewer, host, levels);
        lemma_families_bound(a, i, b, j, viewer, host, levels, k as nat);
        lemma_matched_bound(a, c, b, e, viewer, host, levels);
        let whole = forall|m: int|
            0 <= m < pairs ==> identical(
                a,
                #[trigger] a.children[i as int][m],
                b,
                b.children[j as int][m],
                levels,
            );
        let before = forall|m: int|
            0 <= m < k ==> identical(
                a,
                #[trigger] a.children[i as int][m],
                b,
                b.children[j as int][m],
                levels,
            );
        if whole {
            assert(identical(a, a.children[i as int][k], b, b.children[j as int][k], levels));
            assert(before);
        }
        assert(whole == (before && identical(a, c, b, e, levels)));
    }
}

proof fn lemma_identical_is_alike(
    a: TopologyView,
    i: usize,
    b: TopologyView,
    j: usize,
    levels: nat,
)
    requires
        identical(a, i, b, j, levels),
    ensures
        alike(a, i, b, j, levels),
    decreases levels,
{
    if levels > 0 {
        assert forall|k: int| 0 <= k < a.children[i as int].len() implies alike(
            a,
            #[trigger] a.children[i as int][k],
            b,
            b.children[j as int][k],
            (levels - 1) as nat,
        ) by {
            lemma_identical_is_alike(
                a,
                a.children[i as int][k],
                b,
                b.children[j as int][k],
                (levels - 1) as nat,
            );
        }
    }
}

/// A connected tree is the subtree at its root.
pub proof fn lemma_whole(t: TopologyView)
    requires
        t.well_formed(),
        t.connected(),
    ensures
        t.under(t.root, t.root),
        t.subtree(t.root).len() == t.size(),
{
    assert(t.above(t.root, 0) == Some(t.root));
    lemma_range(t.size());
    assert(t.subtree(t.root) =~= Set::new(|x: usize| x < t.size())) by {
        assert forall|x: usize| x < t.size() implies t.subtree(t.root).contains(x) by {
            assert(t.under(x, t.root));
        }
    }
}

/// Full credit for structure is earned by the true structure and by no other:
/// any missing, extra or wrongly placed object costs some.
pub proof fn law_only_the_true_structure_is_full(
    a: TopologyView,
    viewer: usize,
    b: TopologyView,
    host: usize,
)
    requires
        a.well_formed(),
        a.connected(),
        b.well_formed(),
        b.connected(),
    ensures
        compared(a, viewer, b, host).count == greater(a.size(), b.size()) <==> same_shape(a, b),
{
    lemma_whole(a);
    lemma_whole(b);
    law_match_bounds(a, viewer, b, host);
    if compared(a, viewer, b, host).count == greater(a.size(), b.size()) {
        lemma_full_is_alike(a, a.root, b, b.root, viewer, host, a.size());
    }
    if same_shape(a, b) {
        lemma_alike_is_full(a, a.root, b, b.root, viewer, host, a.size());
    }
}

/// Full credit for traits is earned exactly where the structure is true and star
/// and rings agree at every place.
pub proof fn law_only_the_true_traits_are_full(
    a: TopologyView,
    viewer: usize,
    b: TopologyView,
    host: usize,
)
    requires
        a.well_formed(),
        a.connected(),
        b.well_formed(),
        b.connected(),
    ensures
        compared(a, viewer, b, host).traits == 2 * greater(a.size(), b.size()) <==> same_tree(
            a,
            b,
        ),
{
    lemma_whole(a);
    law_match_bounds(a, viewer, b, host);
    law_only_the_true_structure_is_full(a, viewer, b, host);
    if compared(a, viewer, b, host).traits == 2 * greater(a.size(), b.size()) {
        lemma_identical(a, a.root, b, b.root, viewer, host, a.size());
    }
    if same_tree(a, b) {
        lemma_identical_is_alike(a, a.root, b, b.root, a.size());
        lemma_identical(a, a.root, b, b.root, viewer, host, a.size());
    }
}

/// Beyond the depth of the first tree, levels add nothing.
proof fn lemma_levels(
    a: TopologyView,
    i: usize,
    b: TopologyView,
    j: usize,
    viewer: usize,
    host: usize,
    l: nat,
    m: nat,
)
    requires
        a.well_formed(),
        a.under(i, a.root),
        a.subtree(i).len() <= l <= m,
    ensures
        matched(a, i, b, j, viewer, host, l) == matched(a, i, b, j, viewer, host, m),
    decreases l, 0int, 1int,
{
    lemma_subtree_finite(a, i);
    assert(a.above(i, 0) == Some(i));
    assert(a.subtree(i).contains(i));
    assert(l > 0);
    let pairs = fewer(a.children[i as int].len(), b.children[j as int].len());
    lemma_family_levels(a, i, b, j, viewer, host, (l - 1) as nat, (m - 1) as nat, pairs);
}

proof fn lemma_family_levels(
    a: TopologyView,
    i: usize,
    b: TopologyView,
    j: usize,
    viewer: usize,
    host: usize,
    l: nat,
    m: nat,
    pairs: nat,
)
    requires
        a.well_formed(),
        a.under(i, a.root),
        pairs <= a.children[i as int].len(),
        a.subtree(i).len() <= l + 1,
        l <= m,
    ensures
        matched_families(a, i, b, j, viewer, host, l, pairs) == matched_families(
            a,
            i,
            b,
            j,
            viewer,
            host,
            m,
            pairs,
        ),
    decreases l, pairs + 1, 0int,
{
    if pairs > 0 {
        let k = pairs - 1;
        lemma_family_levels(a, i, b, j, viewer, host, l, m, k as nat);
        lemma_child_subtree(a, i, k);
        lemma_levels(
            a,
            a.children[i as int][k],
            b,
            b.children[j as int][k],
            viewer,
            host,
            l,
            m,
        );
    }
}

/// Guess and truth can change places: the score is the same.
pub proof fn law_scoring_is_symmetric(
    a: TopologyView,
    viewer: usize,
    b: TopologyView,
    host: usize,
)
    requires
        a.well_formed(),
        b.well_formed(),
    ensures
        compared(a, viewer, b, host) == compared(b, host, a, viewer),
        scored(a, viewer, b, host) == scored(b, host, a, viewer),
{
    let most = greater(a.size(), b.size());
    assert(a.above(a.root, 0) == Some(a.root));
    assert(b.above(b.root, 0) == Some(b.root));
    lemma_subtree_finite(a, a.root);
    lemma_subtree_finite(b, b.root);
    lemma_levels(a, a.root, b, b.root, viewer, host, a.size(), most);
    lemma_levels(b, b.root, a, a.root, host, viewer, b.size(), most);
    lemma_matched_symmetric(a, a.root, b, b.root, viewer, host, most);
}

/// A score of one hundred is earned by the true tree with the viewer in its true
/// place, and by nothing else.
pub proof fn law_only_the_truth_scores_full_marks(
    a: TopologyView,
    viewer: usize,
    b: TopologyView,
    host: usize,
)
    requires
        a.well_formed(),
        a.connected(),
        b.well_formed(),
        b.connected(),
    ensures
        ({
            let s = scored(a, viewer, b, host);
            s.points() == 100 * s.size <==> same_tree(a, b) && same_place(
                a,
                a.root,
                b,
                b.root,
                viewer,
                host,
            )
        }),
{
    law_match_bounds(a, viewer, b, host);
    law_only_the_true_structure_is_full(a, viewer, b, host);
    law_only_the_true_traits_are_full(a, viewer, b, host);
    law_viewer_is_its_rank_sequence(a, viewer, b, host);
    law_total_is_a_percentage(scored(a, viewer, b, host));
    if same_tree(a, b) {
        lemma_identical_is_alike(a, a.root, b, b.root, a.size());
    }
}

/// `c` is `a` with its nodes renumbered by `f`.
pub open spec fn renumbers(a: TopologyView, c: TopologyView, f: spec_fn(usize) -> usize) -> bool {
    &&& c.size() == a.size()
    &&& c.root == f(a.root)
    &&& forall|i: usize, j: usize|
        i < a.size() && j < a.size() && #[trigger] f(i) == #[trigger] f(j) ==> i == j
    &&& forall|i: usize|
        i < a.size() ==> {
            &&& #[trigger] f(i) < c.size()
            &&& c.children[f(i) as int] == a.children[i as int].map_values(f)
            &&& c.traits[f(i) as int] == a.traits[i as int]
        }
}

proof fn lemma_matched_renumbered(
    a: TopologyView,
    c: TopologyView,
    f: spec_fn(usize) -> usize,
    i: usize,
    b: TopologyView,
    j: usize,
    viewer: usize,
    host: usize,
    levels: nat,
)
    requires
        a.well_formed(),
        renumbers(a, c, f),
        i < a.size(),
        viewer < a.size(),
    ensures
        matched(c, f(i), b, j, f(viewer), host, levels) == matched(a, i, b, j, viewer, host, levels),
    decreases levels, 0int, 1int,
{
    if levels > 0 {
        let pairs = fewer(a.children[i as int].len(), b.children[j as int].len());
        assert(c.children[f(i) as int] == a.children[i as int].map_values(f));
        assert(f(i) == f(viewer) ==> i == viewer);
        lemma_families_renumbered(a, c, f, i, b, j, viewer, host, (levels - 1) as nat, pairs);
    }
}

proof fn lemma_families_renumbered(
    a: TopologyView,
    c: TopologyView,
    f: spec_fn(usize) -> usize,
    i: usize,
    b: TopologyView,
    j: usize,
    viewer: usize,
    host: usize,
    levels: nat,
    pairs: nat,
)
    requires
        a.well_formed(),
        renumbers(a, c, f),
        i < a.size(),
        viewer < a.size(),
        pairs <= a.children[i as int].len(),
    ensures
        matched_families(c, f(i), b, j, f(viewer), host, levels, pairs) == matched_families(
            a,
            i,
            b,
            j,
            viewer,
            host,
            levels,
            pairs,
        ),
    decreases levels, pairs + 1, 0int,
{
    if pairs > 0 {
        let k = pairs - 1;
        let x = a.children[i as int][k];
        assert(a.child(i, k, x));
        assert(c.children[f(i) as int] == a.children[i as int].map_values(f));
        assert(c.children[f(i) as int][k] == f(x));
        lemma_families_renumbered(a, c, f, i, b, j, viewer, host, levels, k as nat);
        lemma_matched_renumbered(
            a,
            c,
            f,
            x,
            b,
            b.children[j as int][k],
            viewer,
            host,
            levels,
        );
    }
}

/// Scores do not depend on how either tree numbers its nodes.
pub proof fn law_numbering_does_not_matter(
    a: TopologyView,
    c: TopologyView,
    f: spec_fn(usize) -> usize,
    viewer: usize,
    b: TopologyView,
    host: usize,
)
    requires
        a.well_formed(),
        renumbers(a, c, f),
        viewer < a.size(),
    ensures
        scored(c, f(viewer), b, host) == scored(a, viewer, b, host),
        scored(b, host, c, f(viewer)) == scored(b, host, a, viewer),
{
    lemma_matched_renumbered(a, c, f, a.root, b, b.root, viewer, host, a.size());
    lemma_matched_renumbered(a, c, f, a.root, b, b.root, viewer, host, b.size());
    lemma_matched_symmetric(a, a.root, b, b.root, viewer, host, b.size());
    lemma_matched_symmetric(c, c.root, b, b.root, f(viewer), host, b.size());
}

/// `f` maps the numbers below `n` onto themselves, and `g` is its inverse.
pub open spec fn shuffles(f: spec_fn(usize) -> usize, g: spec_fn(usize) -> usize, n: nat) -> bool {
    &&& forall|i: usize| i < n ==> #[trigger] f(i) < n && g(f(i)) == i
    &&& forall|i: usize| i < n ==> #[trigger] g(i) < n && f(g(i)) == i
}

/// The same parents in a list shuffled by `f`.
pub open spec fn reparented(
    parents: Seq<Option<usize>>,
    shuffled: Seq<Option<usize>>,
    f: spec_fn(usize) -> usize,
) -> bool {
    &&& shuffled.len() == parents.len()
    &&& forall|i: usize|
        i < parents.len() ==> shuffled[(#[trigger] f(i)) as int] == (match parents[i as int] {
            Some(p) => Some(f(p)),
            None => None,
        })
}

/// There is one root, and siblings have different orders.
pub open spec fn strictly_ordered(parents: Seq<Option<usize>>, order: Seq<i128>) -> bool {
    forall|i: int, j: int|
        #![trigger parents[i], parents[j]]
        0 <= i < parents.len() && 0 <= j < parents.len() && i != j && parents[i] == parents[j]
            ==> parents[i] is Some && order[i] != order[j]
}

/// Families are ordered by `order` alone: where siblings differ in it, the same
/// bodies listed in another order make the same tree.
pub proof fn law_listing_order_does_not_matter(
    parents: Seq<Option<usize>>,
    order: Seq<i128>,
    traits: Seq<Traits>,
    shuffled_parents: Seq<Option<usize>>,
    shuffled_order: Seq<i128>,
    shuffled_traits: Seq<Traits>,
    f: spec_fn(usize) -> usize,
    g: spec_fn(usize) -> usize,
)
    requires
        parents.len() <= usize::MAX,
        parents_valid(parents),
        strictly_ordered(parents, order),
        shuffles(f, g, parents.len()),
        reparented(parents, shuffled_parents, f),
        forall|i: usize|
            i < parents.len() ==> shuffled_order[(#[trigger] f(i)) as int] == order[i as int],
        forall|i: usize|
            i < parents.len() ==> shuffled_traits[(#[trigger] f(i)) as int] == traits[i as int],
    ensures
        parents_valid(shuffled_parents),
        renumbers(
            ordered_tree(parents, order, traits),
            ordered_tree(shuffled_parents, shuffled_order, shuffled_traits),
            f,
        ),
{
    let n = parents.len();
    let a = ordered_tree(parents, order, traits);
    let c = ordered_tree(shuffled_parents, shuffled_order, shuffled_traits);
    parents.index_of_first_ensures(None::<usize>);
    let root = a.root;
    assert(parents[root as int] is None);
    assert(shuffled_parents[f(root) as int] == None::<usize>);
    assert(shuffled_parents.contains(None::<usize>));
    shuffled_parents.index_of_first_ensures(None::<usize>);
    assert(c.root == f(root)) by {
        let r = c.root;
        assert(f(g(r)) == r);
        assert(parents[g(r) as int] is None);
        assert(parents[g(r) as int] == parents[root as int]);
    }
    assert forall|i: int| 0 <= i < shuffled_parents.len() implies ((
    #[trigger] shuffled_parents[i]) matches Some(p) ==> p < shuffled_parents.len()) by {
        let j = g(i as usize);
        assert(f(j) == i);
        if let Some(p) = parents[j as int] {
            assert(f(p) < n);
        }
    }
    assert forall|i: usize| i < n implies {
        &&& #[trigger] f(i) < c.size()
        &&& c.children[f(i) as int] == a.children[i as int].map_values(f)
        &&& c.traits[f(i) as int] == a.traits[i as int]
    } by {
        lemma_shuffled_family(parents, order, shuffled_parents, shuffled_order, f, g, i);
    }
    assert forall|i: usize, j: usize|
        i < n && j < n && #[trigger] f(i) == #[trigger] f(j) implies i == j by {
        assert(g(f(i)) == i);
        assert(g(f(j)) == j);
    }
}

proof fn lemma_shuffled_family(
    parents: Seq<Option<usize>>,
    order: Seq<i128>,
    shuffled_parents: Seq<Option<usize>>,
    shuffled_order: Seq<i128>,
    f: spec_fn(usize) -> usize,
    g: spec_fn(usize) -> usize,
    p: usize,
)
    requires
        parents.len() <= usize::MAX,
        parents_valid(parents),
        strictly_ordered(parents, order),
        shuffles(f, g, parents.len()),
        reparented(parents, shuffled_parents, f),
        forall|i: usize|
            i < parents.len() ==> shuffled_order[(#[trigger] f(i)) as int] == order[i as int],
        p < parents.len(),
    ensures
        crate::order::sorted_by(family(shuffled_parents, f(p)), shuffled_order)
            == crate::order::sorted_by(family(parents, p), order).map_values(f),
{
    broadcast use vstd::seq_lib::group_to_multiset_ensures;

    let n = parents.len();
    let old_family = family(parents, p);
    let new_family = family(shuffled_parents, f(p));
    let s = crate::order::sorted_by(old_family, order);
    let t = s.map_values(f);
    crate::order::lemma_picked(n, |i: int| parents[i] == Some(p));
    crate::order::lemma_picked(n, |i: int| shuffled_parents[i] == Some(f(p)));
    crate::order::law_stable_sort(old_family, order);
    lemma_permuted(old_family, s);
    assert forall|k: int| 0 <= k < s.len() implies (#[trigger] s[k]) < n && parents[s[k] as int]
        == Some(p) by {
        assert(s.contains(s[k]));
        assert(old_family.contains(s[k]));
    }
    assert(crate::order::rising(t, shuffled_order)) by {
        assert forall|u: int, v: int| 0 <= u < v < t.len() implies shuffled_order[
        #[trigger] t[u] as int] < shuffled_order[#[trigger] t[v] as int] by {
            assert(s[u] != s[v]);
            assert(t[u] == f(s[u]));
            assert(t[v] == f(s[v]));
            assert(parents[s[u] as int] == parents[s[v] as int]);
            assert(order[s[u] as int] <= order[s[v] as int]);
        }
    }
    assert(t.no_duplicates()) by {
        assert forall|u: int, v: int| 0 <= u < t.len() && 0 <= v < t.len() && u != v implies t[u]
            != t[v] by {
            assert(g(f(s[u])) == s[u]);
            assert(g(f(s[v])) == s[v]);
        }
    }
    assert forall|x: usize| #[trigger] t.contains(x) <==> new_family.contains(x) by {
        if t.contains(x) {
            let k = choose|k: int| 0 <= k < t.len() && t[k] == x;
            assert(x == f(s[k]));
            assert(shuffled_parents[f(s[k]) as int] == Some(f(p)));
        }
        if new_family.contains(x) {
            let y = g(x);
            assert(f(y) == x);
            assert(parents[y as int] is Some);
            let q = parents[y as int]->0;
            assert(q < n);
            assert(g(f(q)) == q);
            assert(g(f(p)) == p);
            assert(old_family.contains(y));
            assert(s.contains(y));
            let k = choose|k: int| 0 <= k < s.len() && s[k] == y;
            assert(t[k] == x);
        }
    }
    lemma_same_members(t, new_family);
    crate::order::lemma_rising_is_sorted(new_family, t, shuffled_order);
}

/// Lists without repetition that hold the same elements rearrange each other.
proof fn lemma_same_members(s: Seq<usize>, t: Seq<usize>)
    requires
        s.no_duplicates(),
        t.no_duplicates(),
        forall|x: usize| #[trigger] s.contains(x) <==> t.contains(x),
    ensures
        s.to_multiset() == t.to_multiset(),
{
    broadcast use vstd::seq_lib::group_to_multiset_ensures;

    s.lemma_multiset_has_no_duplicates();
    t.lemma_multiset_has_no_duplicates();
    assert forall|x: usize| s.to_multiset().count(x) == t.to_multiset().count(x) by {
        assert(s.contains(x) <==> s.to_multiset().count(x) > 0);
        assert(t.contains(x) <==> t.to_multiset().count(x) > 0);
    }
    assert(s.to_multiset() =~= t.to_multiset());
}

/// The same bodies, shuffled by `f`, as far as a tree shows them.
pub open spec fn relisted(a: SceneView, b: SceneView, f: spec_fn(usize) -> usize) -> bool {
    &&& b.bodies.len() == a.bodies.len()
    &&& b.host == f(a.host)
    &&& forall|i: usize|
        i < a.bodies.len() ==> {
            let was = a.bodies[i as int];
            let is = b.bodies[(#[trigger] f(i)) as int];
            &&& is.parent == (match was.parent {
                Some(p) => Some(f(p)),
                None => None,
            })
            &&& is.elements.a == was.elements.a
            &&& is.kind == was.kind
            &&& is.rings == was.rings
        }
}

/// The order of a scene's bodies plays no part in the score: it comes from
/// orbital size, wherever siblings differ in that.
pub proof fn law_file_order_does_not_matter(
    a: SceneView,
    b: SceneView,
    f: spec_fn(usize) -> usize,
    g: spec_fn(usize) -> usize,
    guess: TopologyView,
    viewer: usize,
)
    requires
        a.bodies.len() <= usize::MAX,
        a.host < a.bodies.len(),
        parents_valid(scene_parents(a)),
        strictly_ordered(scene_parents(a), scene_order(a)),
        shuffles(f, g, a.bodies.len()),
        relisted(a, b, f),
    ensures
        scored(guess, viewer, scene_tree(b), b.host) == scored(
            guess,
            viewer,
            scene_tree(a),
            a.host,
        ),
{
    assert forall|i: usize| i < a.bodies.len() implies scene_parents(b)[(#[trigger] f(i)) as int]
        == (match scene_parents(a)[i as int] {
        Some(p) => Some(f(p)),
        None => None,
    }) && scene_order(b)[f(i) as int] == scene_order(a)[i as int] && scene_traits(
        b,
    )[f(i) as int] == scene_traits(a)[i as int] by {}
    law_listing_order_does_not_matter(
        scene_parents(a),
        scene_order(a),
        scene_traits(a),
        scene_parents(b),
        scene_order(b),
        scene_traits(b),
        f,
        g,
    );
    lemma_ordered_tree(scene_parents(a), scene_order(a), scene_traits(a));
    law_numbering_does_not_matter(scene_tree(a), scene_tree(b), f, a.host, guess, viewer);
}

fn match_nodes(
    a: &Topology,
    i: usize,
    b: &Topology,
    j: usize,
    viewer: usize,
    host: usize,
    Ghost(levels): Ghost<nat>,
) -> (r: (u128, u128, bool))
    requires
        a@.well_formed(),
        b@.well_formed(),
        a@.under(i, a@.root),
        j < b@.size(),
        levels >= a@.subtree(i).len(),
    ensures
        r.0 == matched(a@, i, b@, j, viewer, host, levels).count,
        r.1 == matched(a@, i, b@, j, viewer, host, levels).traits,
        r.2 == matched(a@, i, b@, j, viewer, host, levels).viewer,
    decreases levels,
{
    proof {
        lemma_subtree_finite(a@, i);
        assert(a@.above(i, 0) == Some(i));
        assert(a@.subtree(i).contains(i));
        lemma_matched_bound(a@, i, b@, j, viewer, host, levels);
    }
    let mut count: u128 = 1;
    let mut traits: u128 = 0;
    if a.traits[i].star == b.traits[j].star {
        traits += 1;
    }
    if a.traits[i].rings == b.traits[j].rings {
        traits += 1;
    }
    let mut found = i == viewer && j == host;
    let ghost here = Tally {
        count: 1,
        traits: agreeing(a@.traits[i as int], b@.traits[j as int]),
        viewer: i == viewer && j == host,
    };
    let ours = &a.children[i];
    let theirs = &b.children[j];
    let pairs: usize = if ours.len() < theirs.len() {
        ours.len()
    } else {
        theirs.len()
    };
    assert(ours@ == a@.children[i as int]);
    assert(theirs@ == b@.children[j as int]);
    let below: Ghost<nat> = Ghost((levels - 1) as nat);
    let mut k: usize = 0;
    while k < pairs
        invariant
            k <= pairs,
            pairs <= ours@.len(),
            pairs <= theirs@.len(),
            ours@ == a@.children[i as int],
            theirs@ == b@.children[j as int],
            a@.well_formed(),
            b@.well_formed(),
            a@.under(i, a@.root),
            j < b@.size(),
            levels > 0,
            below@ == (levels - 1) as nat,
            levels >= a@.subtree(i).len(),
            ({
                let t = here.plus(
                    matched_families(a@, i, b@, j, viewer, host, below@, k as nat),
                );
                count == t.count && traits == t.traits && found == t.viewer
            }),
            here.count == 1,
            here.traits <= 2,
        decreases pairs - k,
    {
        let c: usize = ours[k];
        let e: usize = theirs[k];
        proof {
            lemma_child_subtree(a@, i, k as int);
            assert(b@.child(j, k as int, e));
            lemma_families_bound(a@, i, b@, j, viewer, host, below@, (k + 1) as nat);
            lemma_branches(a@, i, (k + 1) as nat);
            lemma_subtree_finite(a@, i);
            vstd::set_lib::lemma_len_subset(branches(a@, i, (k + 1) as nat), a@.subtree(i));
        }
        let (n, t, v) = match_nodes(a, c, b, e, viewer, host, below);
        count += n;
        traits += t;
        found = found || v;
        k += 1;
    }
    assert(pairs as nat == fewer(a@.children[i as int].len(), b@.children[j as int].len()));
    (count, traits, found)
}

/// Match the root, then the first orbit to the first orbit at every parent, etc.
/// Missing inner objects do not shift a viewer into a different orbital rank.
/// The complete sequence of ranks from the root identifies the viewer's location.
pub fn score(guess: &Topology, viewer: usize, truth: &Topology, host: usize) -> (r: Score)
    requires
        guess@.well_formed(),
        truth@.well_formed(),
    ensures
        r == scored(guess@, viewer, truth@, host),
        r.matched == compared(guess@, viewer, truth@, host).count,
        r.agreed == compared(guess@, viewer, truth@, host).traits,
        r.size == greater(guess@.size(), truth@.size()),
        r.well_formed(),
{
    proof {
        assert(guess@.above(guess@.root, 0) == Some(guess@.root));
        lemma_subtree_finite(guess@, guess@.root);
        law_match_bounds(guess@, viewer, truth@, host);
    }
    let levels: Ghost<nat> = Ghost(guess@.size());
    let (matched, agreed, found) = match_nodes(
        guess,
        guess.root,
        truth,
        truth.root,
        viewer,
        host,
        levels,
    );
    let n: usize = guess.children.len();
    let m: usize = truth.children.len();
    let size: usize = if n < m {
        m
    } else {
        n
    };
    Score { matched, agreed, size: size as u128, viewer: found }
}

/// The nodes below `i` that stand where a node below `j` stands, the two of them
/// being such as `p` says.
pub open spec fn partners(
    a: TopologyView,
    i: usize,
    b: TopologyView,
    j: usize,
    p: spec_fn(usize, usize) -> bool,
) -> Set<usize> {
    Set::new(|x: usize| exists|y: usize| #[trigger] same_place(a, i, b, j, x, y) && p(x, y))
}

/// Those below the first `pairs` orbits of the two.
spec fn family_partners(
    a: TopologyView,
    i: usize,
    b: TopologyView,
    j: usize,
    p: spec_fn(usize, usize) -> bool,
    pairs: nat,
) -> Set<usize>
    decreases pairs,
{
    if pairs == 0 {
        Set::empty()
    } else {
        family_partners(a, i, b, j, p, (pairs - 1) as nat).union(
            partners(a, a.children[i as int][pairs - 1], b, b.children[j as int][pairs - 1], p),
        )
    }
}

/// Following ranks leads down.
proof fn lemma_follow_leads_down(t: TopologyView, i: usize, ranks: Seq<nat>, x: usize)
    requires
        t.well_formed(),
        t.under(i, t.root),
        t.follow(i, ranks) == Some(x),
    ensures
        t.under(x, i),
        ranks.len() > 0 ==> x != i && t.under(x, t.children[i as int][ranks[0] as int]),
    decreases ranks.len(),
{
    if ranks.len() == 0 {
        assert(t.above(i, 0) == Some(i));
    } else {
        let k = ranks[0] as int;
        let c = t.children[i as int][k];
        lemma_child_subtree(t, i, k);
        lemma_follow_leads_down(t, c, ranks.skip(1), x);
        assert(t.subtree(c).contains(x));
        assert(t.subtree(i).contains(x));
    }
}

proof fn lemma_partners_below(
    a: TopologyView,
    i: usize,
    b: TopologyView,
    j: usize,
    p: spec_fn(usize, usize) -> bool,
)
    requires
        a.well_formed(),
        a.under(i, a.root),
    ensures
        partners(a, i, b, j, p).subset_of(a.subtree(i)),
        partners(a, i, b, j, p).finite(),
{
    assert forall|x: usize| partners(a, i, b, j, p).contains(x) implies a.subtree(i).contains(x) by {
        let y = choose|y: usize| #[trigger] same_place(a, i, b, j, x, y) && p(x, y);
        let ranks = choose|ranks: Seq<nat>| #[trigger]
            a.follow(i, ranks) == Some(x) && b.follow(j, ranks) == Some(y);
        lemma_follow_leads_down(a, i, ranks, x);
    }
    lemma_subtree_finite(a, i);
    vstd::set_lib::lemma_len_subset(partners(a, i, b, j, p), a.subtree(i));
}

proof fn lemma_family_partners(
    a: TopologyView,
    i: usize,
    b: TopologyView,
    j: usize,
    p: spec_fn(usize, usize) -> bool,
    pairs: nat,
)
    requires
        a.well_formed(),
        a.under(i, a.root),
        pairs <= a.children[i as int].len(),
    ensures
        family_partners(a, i, b, j, p, pairs).finite(),
        family_partners(a, i, b, j, p, pairs).subset_of(branches(a, i, pairs)),
        forall|x: usize| #[trigger]
            family_partners(a, i, b, j, p, pairs).contains(x) <==> exists|k: int|
                0 <= k < pairs && partners(
                    a,
                    #[trigger] a.children[i as int][k],
                    b,
                    b.children[j as int][k],
                    p,
                ).contains(x),
        pairs > 0 ==> family_partners(a, i, b, j, p, pairs).len() == family_partners(
            a,
            i,
            b,
            j,
            p,
            (pairs - 1) as nat,
        ).len() + partners(
            a,
            a.children[i as int][pairs - 1],
            b,
            b.children[j as int][pairs - 1],
            p,
        ).len(),
    decreases pairs,
{
    if pairs > 0 {
        let m = (pairs - 1) as nat;
        let c = a.children[i as int][m as int];
        let e = b.children[j as int][m as int];
        lemma_family_partners(a, i, b, j, p, m);
        lemma_child_subtree(a, i, m as int);
        lemma_partners_below(a, c, b, e, p);
        lemma_branches(a, i, pairs);
        let before = family_partners(a, i, b, j, p, m);
        let here = partners(a, c, b, e, p);
        assert(before.disjoint(here));
        vstd::set_lib::lemma_set_disjoint_lens(before, here);
        assert(before.union(here) =~= before + here);
        assert forall|x: usize| #[trigger]
            family_partners(a, i, b, j, p, pairs).contains(x) <==> exists|k: int|
                0 <= k < pairs && partners(
                    a,
                    #[trigger] a.children[i as int][k],
                    b,
                    b.children[j as int][k],
                    p,
                ).contains(x) by {
            if before.contains(x) {
                let k = choose|k: int|
                    0 <= k < m && partners(
                        a,
                        #[trigger] a.children[i as int][k],
                        b,
                        b.children[j as int][k],
                        p,
                    ).contains(x);
                assert(partners(a, a.children[i as int][k], b, b.children[j as int][k], p).contains(
                    x,
                ));
            }
            if here.contains(x) {
                assert(partners(
                    a,
                    a.children[i as int][m as int],
                    b,
                    b.children[j as int][m as int],
                    p,
                ).contains(x));
            }
        }
    }
}

/// The partners below a pair are the pair itself, if it is such, and those below
/// its orbits.
proof fn lemma_partners_split(
    a: TopologyView,
    i: usize,
    b: TopologyView,
    j: usize,
    p: spec_fn(usize, usize) -> bool,
)
    requires
        a.well_formed(),
        b.well_formed(),
        a.under(i, a.root),
        j < b.size(),
    ensures
        ({
            let pairs = fewer(a.children[i as int].len(), b.children[j as int].len());
            partners(a, i, b, j, p).len() == family_partners(a, i, b, j, p, pairs).len() + (if p(
                i,
                j,
            ) {
                1nat
            } else {
                0
            })
        }),
{
    let pairs = fewer(a.children[i as int].len(), b.children[j as int].len());
    let whole = partners(a, i, b, j, p);
    let below = family_partners(a, i, b, j, p, pairs);
    lemma_family_partners(a, i, b, j, p, pairs);
    lemma_branches(a, i, pairs);
    assert forall|x: usize| below.contains(x) implies whole.contains(x) by {
        let k = choose|k: int|
            0 <= k < pairs && partners(
                a,
                #[trigger] a.children[i as int][k],
                b,
                b.children[j as int][k],
                p,
            ).contains(x);
        let c = a.children[i as int][k];
        let e = b.children[j as int][k];
        let y = choose|y: usize| #[trigger] same_place(a, c, b, e, x, y) && p(x, y);
        let ranks = choose|ranks: Seq<nat>| #[trigger]
            a.follow(c, ranks) == Some(x) && b.follow(e, ranks) == Some(y);
        let longer = seq![k as nat] + ranks;
        assert(longer.skip(1) =~= ranks);
        assert(a.follow(i, longer) == Some(x));
        assert(b.follow(j, longer) == Some(y));
        assert(same_place(a, i, b, j, x, y));
    }
    assert forall|x: usize| whole.contains(x) implies below.contains(x) || (x == i && p(i, j)) by {
        let y = choose|y: usize| #[trigger] same_place(a, i, b, j, x, y) && p(x, y);
        let ranks = choose|ranks: Seq<nat>| #[trigger]
            a.follow(i, ranks) == Some(x) && b.follow(j, ranks) == Some(y);
        if ranks.len() > 0 {
            let k = ranks[0] as int;
            let c = a.children[i as int][k];
            let e = b.children[j as int][k];
            assert(a.follow(c, ranks.skip(1)) == Some(x));
            assert(same_place(a, c, b, e, x, y));
            assert(partners(a, a.children[i as int][k], b, b.children[j as int][k], p).contains(x));
        }
    }
    if p(i, j) {
        let none = Seq::<nat>::empty();
        assert(a.follow(i, none) == Some(i) && b.follow(j, none) == Some(j));
        assert(same_place(a, i, b, j, i, j));
        assert(whole =~= below.insert(i));
    } else {
        assert(!whole.contains(i)) by {
            if whole.contains(i) {
                assert(below.contains(i));
            }
        }
        assert(whole =~= below);
    }
}

proof fn lemma_counted(
    a: TopologyView,
    i: usize,
    b: TopologyView,
    j: usize,
    viewer: usize,
    host: usize,
    levels: nat,
)
    requires
        a.well_formed(),
        b.well_formed(),
        a.under(i, a.root),
        j < b.size(),
        levels >= a.subtree(i).len(),
    ensures
        ({
            let t = matched(a, i, b, j, viewer, host, levels);
            &&& t.count == partners(a, i, b, j, anyone()).len()
            &&& t.traits == partners(a, i, b, j, same_star(a, b)).len() + partners(
                a,
                i,
                b,
                j,
                same_rings(a, b),
            ).len()
        }),
    decreases levels, 0int, 1int,
{
    lemma_subtree_finite(a, i);
    assert(a.above(i, 0) == Some(i));
    assert(a.subtree(i).contains(i));
    assert(levels > 0);
    let pairs = fewer(a.children[i as int].len(), b.children[j as int].len());
    lemma_family_counted(a, i, b, j, viewer, host, (levels - 1) as nat, pairs);
    lemma_partners_split(a, i, b, j, anyone());
    lemma_partners_split(a, i, b, j, same_star(a, b));
    lemma_partners_split(a, i, b, j, same_rings(a, b));
}

proof fn lemma_family_counted(
    a: TopologyView,
    i: usize,
    b: TopologyView,
    j: usize,
    viewer: usize,
    host: usize,
    levels: nat,
    pairs: nat,
)
    requires
        a.well_formed(),
        b.well_formed(),
        a.under(i, a.root),
        j < b.size(),
        pairs <= a.children[i as int].len(),
        pairs <= b.children[j as int].len(),
        levels + 1 >= a.subtree(i).len(),
    ensures
        ({
            let t = matched_families(a, i, b, j, viewer, host, levels, pairs);
            &&& t.count == family_partners(a, i, b, j, anyone(), pairs).len()
            &&& t.traits == family_partners(a, i, b, j, same_star(a, b), pairs).len()
                + family_partners(a, i, b, j, same_rings(a, b), pairs).len()
        }),
    decreases levels, pairs + 1, 0int,
{
    if pairs > 0 {
        let m = pairs - 1;
        let c = a.children[i as int][m];
        let e = b.children[j as int][m];
        lemma_family_counted(a, i, b, j, viewer, host, levels, m as nat);
        lemma_child_subtree(a, i, m);
        assert(b.child(j, m, e));
        lemma_counted(a, c, b, e, viewer, host, levels);
        lemma_family_partners(a, i, b, j, anyone(), pairs);
        lemma_family_partners(a, i, b, j, same_star(a, b), pairs);
        lemma_family_partners(a, i, b, j, same_rings(a, b), pairs);
    }
}

pub open spec fn anyone() -> spec_fn(usize, usize) -> bool {
    |x: usize, y: usize| true
}

pub open spec fn same_star(a: TopologyView, b: TopologyView) -> spec_fn(usize, usize) -> bool {
    |x: usize, y: usize| a.traits[x as int].star == b.traits[y as int].star
}

pub open spec fn same_rings(a: TopologyView, b: TopologyView) -> spec_fn(usize, usize) -> bool {
    |x: usize, y: usize| a.traits[x as int].rings == b.traits[y as int].rings
}

/// What a score counts: the objects of the guess that are reached by a sequence of
/// ranks by which an object of the truth is reached as well; of those, the ones
/// whose star mark agrees and the ones whose rings do; and whether the viewer is
/// reached as the host is.
pub proof fn law_what_is_counted(a: TopologyView, viewer: usize, b: TopologyView, host: usize)
    requires
        a.well_formed(),
        b.well_formed(),
    ensures
        ({
            let s = scored(a, viewer, b, host);
            let standing = Set::new(
                |x: usize| exists|y: usize| #[trigger] same_place(a, a.root, b, b.root, x, y),
            );
            let stars = Set::new(
                |x: usize|
                    exists|y: usize| #[trigger]
                        same_place(a, a.root, b, b.root, x, y) && a.traits[x as int].star
                            == b.traits[y as int].star,
            );
            let ringed = Set::new(
                |x: usize|
                    exists|y: usize| #[trigger]
                        same_place(a, a.root, b, b.root, x, y) && a.traits[x as int].rings
                            == b.traits[y as int].rings,
            );
            &&& s.matched == standing.len()
            &&& s.agreed == stars.len() + ringed.len()
            &&& s.viewer <==> exists|ranks: Seq<nat>| #[trigger]
                a.follow(a.root, ranks) == Some(viewer) && b.follow(b.root, ranks) == Some(host)
            &&& s.size == (if a.size() < b.size() {
                b.size()
            } else {
                a.size()
            })
        }),
{
    assert(a.above(a.root, 0) == Some(a.root));
    lemma_subtree_finite(a, a.root);
    lemma_counted(a, a.root, b, b.root, viewer, host, a.size());
    law_match_bounds(a, viewer, b, host);
    law_viewer_is_its_rank_sequence(a, viewer, b, host);
    let standing = Set::new(
        |x: usize| exists|y: usize| #[trigger] same_place(a, a.root, b, b.root, x, y),
    );
    let stars = Set::new(
        |x: usize|
            exists|y: usize| #[trigger]
                same_place(a, a.root, b, b.root, x, y) && a.traits[x as int].star
                    == b.traits[y as int].star,
    );
    let ringed = Set::new(
        |x: usize|
            exists|y: usize| #[trigger]
                same_place(a, a.root, b, b.root, x, y) && a.traits[x as int].rings
                    == b.traits[y as int].rings,
    );
    assert(standing =~= partners(a, a.root, b, b.root, anyone())) by {
        assert forall|x: usize| standing.contains(x) implies partners(
            a,
            a.root,
            b,
            b.root,
            anyone(),
        ).contains(x) by {
            let y = choose|y: usize| #[trigger] same_place(a, a.root, b, b.root, x, y);
            assert(same_place(a, a.root, b, b.root, x, y) && anyone()(x, y));
        }
    }
    assert(stars =~= partners(a, a.root, b, b.root, same_star(a, b)));
    assert(ringed =~= partners(a, a.root, b, b.root, same_rings(a, b)));
}

/// Following ranks, spelled out: no rank leads nowhere, and each further rank leads
/// to the child of that place in the order.
pub proof fn law_following_ranks(t: TopologyView, i: usize, ranks: Seq<nat>, k: nat)
    ensures
        t.follow(i, Seq::empty()) == Some(i),
        t.follow(i, ranks.push(k)) == (match t.follow(i, ranks) {
            Some(x) => if x < t.size() && k < t.children[x as int].len() {
                Some(t.children[x as int][k as int])
            } else {
                None
            },
            None => None,
        }),
    decreases ranks.len(),
{
    let longer = ranks.push(k);
    if ranks.len() == 0 {
        assert(longer.skip(1) =~= Seq::<nat>::empty());
        if i < t.size() && k < t.children[i as int].len() {
            let c = t.children[i as int][k as int];
            assert(t.follow(c, longer.skip(1)) == Some(c));
        }
    } else if i < t.size() && ranks[0] < t.children[i as int].len() {
        let c = t.children[i as int][ranks[0] as int];
        law_following_ranks(t, c, ranks.skip(1), k);
        assert(longer.skip(1) =~= ranks.skip(1).push(k));
    }
}

/// A tree made from a list of parents: the root is the first without one, each other
/// is a child of its parent and of nobody else, and of two children the one with the
/// smaller key comes first, or the one listed first where the keys are equal.
pub proof fn law_ordered_trees(
    parents: Seq<Option<usize>>,
    order: Seq<i128>,
    traits: Seq<Traits>,
    p: usize,
    c: usize,
)
    requires
        parents_valid(parents),
        parents.len() <= usize::MAX,
        p < parents.len(),
        c < parents.len(),
    ensures
        ({
            let t = ordered_tree(parents, order, traits);
            let family = t.children[p as int];
            &&& t.size() == parents.len()
            &&& t.traits == traits
            &&& t.root < parents.len() && parents[t.root as int] is None
            &&& forall|i: int| 0 <= i < t.root ==> (#[trigger] parents[i]) is Some
            &&& family.contains(c) <==> parents[c as int] == Some(p)
            &&& family.no_duplicates()
            &&& forall|k: int, m: int|
                0 <= k < m < family.len() ==> {
                    ||| order[#[trigger] family[k] as int] < order[#[trigger] family[m] as int]
                    ||| order[family[k] as int] == order[family[m] as int] && family[k] < family[m]
                }
        }),
{
    let t = ordered_tree(parents, order, traits);
    let f = family(parents, p);
    let s = crate::order::sorted_by(f, order);
    parents.index_of_first_ensures(None::<usize>);
    crate::order::lemma_picked(parents.len(), |i: int| parents[i] == Some(p));
    crate::order::law_stable_sort(f, order);
    lemma_permuted(f, s);
    assert forall|i: int| 0 <= i < t.root implies (#[trigger] parents[i]) is Some by {
        if parents[i] is None {
            assert(parents[i] == None::<usize>);
        }
    }
    assert forall|k: int, m: int| 0 <= k < m < s.len() implies {
        ||| order[#[trigger] s[k] as int] < order[#[trigger] s[m] as int]
        ||| order[s[k] as int] == order[s[m] as int] && s[k] < s[m]
    } by {
        if order[s[k] as int] == order[s[m] as int] {
            assert(s.contains(s[k]) && s.contains(s[m]));
            assert(f.contains(s[k]) && f.contains(s[m]));
            let u = f.index_of(s[k]);
            let v = f.index_of(s[m]);
            assert(f[u] == s[k] && f[v] == s[m]);
            assert(u < v);
        }
    }
}

/// The tree that a theory is scored against shows the bodies as they are: it has the
/// star mark exactly at the stars and the ring mark exactly at the ringed bodies,
/// hangs every body on its parent, and lists those of one parent by semi-major axis.
pub proof fn law_the_true_tree(scene: SceneView, i: usize, j: usize, k: usize)
    requires
        scene.well_formed(),
        i < scene.bodies.len(),
        j < scene.bodies.len(),
        k < scene.bodies.len(),
    ensures
        ({
            let t = scene_tree(scene);
            let a = scene.bodies[j as int];
            let b = scene.bodies[k as int];
            &&& t.root == 0
            &&& t.size() == scene.bodies.len()
            &&& t.traits.len() == scene.bodies.len()
            &&& t.traits[i as int].star <==> scene.bodies[i as int].kind == BodyKind::Star
            &&& t.traits[i as int].rings <==> scene.bodies[i as int].rings is Some
            &&& t.children[i as int].contains(j) <==> a.parent == Some(i)
            &&& t.children[i as int].no_duplicates()
            &&& a.parent == Some(i) && b.parent == Some(i) && a.elements.a@.lt(b.elements.a@)
                ==> t.children[i as int].index_of(j) < t.children[i as int].index_of(k)
            &&& a.parent == Some(i) && b.parent == Some(i) && a.elements.a == b.elements.a && j < k
                ==> t.children[i as int].index_of(j) < t.children[i as int].index_of(k)
        }),
{
    let t = scene_tree(scene);
    crate::sim::lemma_well_formed_parents(scene);
    let parents = scene_parents(scene);
    let order = scene_order(scene);
    law_ordered_trees(parents, order, scene_traits(scene), i, j);
    law_ordered_trees(parents, order, scene_traits(scene), i, k);
    assert(parents[0] is None);
    let a = scene.bodies[j as int];
    let b = scene.bodies[k as int];
    if a.parent == Some(i) && b.parent == Some(i) {
        let s = t.children[i as int];
        let u = s.index_of(j);
        let v = s.index_of(k);
        assert(s.contains(j) && s.contains(k));
        assert(s[u] == j && s[v] == k);
        crate::number::law_total_order(a.elements.a, b.elements.a);
        if v < u {
            assert(order[s[v] as int] <= order[s[u] as int]);
        }
    }
}

/// Structure is worth sixty points, marks and viewer twenty each: every matched
/// object of a tree of `n` adds 60 hundredths of an n-th part, every agreeing mark
/// ten, and the viewer twenty to the whole.
pub proof fn law_weights(s: Score, objects: u128, marks: u128)
    ensures
        (Score { matched: 0, agreed: 0, viewer: false, ..s }).points() == 0,
        s.matched + objects <= u128::MAX ==> (Score {
            matched: (s.matched + objects) as u128,
            ..s
        }).points() == s.points() + 60 * objects,
        s.agreed + marks <= u128::MAX ==> (Score {
            agreed: (s.agreed + marks) as u128,
            ..s
        }).points() == s.points() + 10 * marks,
        (Score { viewer: true, ..s }).points() == (Score { viewer: false, ..s }).points() + 20
            * s.size,
{
}

/// `c` has the shape of `a`, node `i` standing where `f(i)` does.
pub open spec fn reshaped(a: TopologyView, c: TopologyView, f: spec_fn(usize) -> usize) -> bool {
    &&& c.size() == a.size()
    &&& c.root == f(a.root)
    &&& forall|i: usize, j: usize|
        i < a.size() && j < a.size() && #[trigger] f(i) == #[trigger] f(j) ==> i == j
    &&& forall|i: usize|
        i < a.size() ==> #[trigger] f(i) < c.size() && c.children[f(i) as int]
            == a.children[i as int].map_values(f)
}

/// In trees of one shape that are identical, every node has the marks of the node in
/// its place.
pub proof fn lemma_identical_at(
    a: TopologyView,
    b: TopologyView,
    f: spec_fn(usize) -> usize,
    i: usize,
    levels: nat,
    x: usize,
)
    requires
        a.well_formed(),
        a.under(i, a.root),
        a.under(x, i),
        reshaped(a, b, f),
        levels >= a.subtree(i).len(),
        identical(a, i, b, f(i), levels),
    ensures
        a.traits[x as int] == b.traits[f(x) as int],
    decreases levels,
{
    let n = a.children[i as int].len();
    lemma_subtree_finite(a, i);
    lemma_subtree_parts(a, i);
    lemma_branches(a, i, n);
    assert(a.above(i, 0) == Some(i));
    assert(a.subtree(i).contains(i));
    assert(levels > 0);
    if x != i {
        assert(a.subtree(i).contains(x));
        assert(branches(a, i, n).contains(x));
        let k = choose|k: int| 0 <= k < n && a.under(x, #[trigger] a.children[i as int][k]);
        let c = a.children[i as int][k];
        assert(a.child(i, k, c));
        lemma_child_subtree(a, i, k);
        assert(i < a.size());
        assert(b.children[f(i) as int][k] == f(c));
        lemma_identical_at(a, b, f, c, (levels - 1) as nat, x);
    }
}

} // verus!
