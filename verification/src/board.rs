//! The diagram of a theory: objects, their orbits and their order.
//!
//! Relative diagram radii determine the scored sibling order.
use crate::number::Number;
use crate::order::{index_of, sort_by_key};
use crate::topology::{members, Topology, Traits};
use vstd::prelude::*;
use vstd::string::StringExecFns;

verus! {

/// How many objects a diagram holds.
pub const MAX_NODES: usize = 64;

/// A place on the diagram.
#[derive(Clone, Copy, Debug, PartialEq, Eq, Structural)]
pub struct Point {
    pub x: Number,
    pub y: Number,
}

impl Point {
    pub open spec fn same(self, other: Point) -> bool {
        self.x@.same(other.x@) && self.y@.same(other.y@)
    }

    pub fn equals(self, other: Point) -> (r: bool)
        ensures
            r == self.same(other),
    {
        self.x.equals(other.x) && self.y.equals(other.y)
    }
}

#[derive(Clone, Copy, Debug)]
pub struct Node {
    pub parent: Option<usize>,
    pub pos: Point,
    /// Distance from the parent on the diagram.
    pub radius: Number,
    /// Zero-based rank among siblings, from inner to outer orbit.
    pub orbit_rank: usize,
    pub traits: Traits,
}

impl Node {
    /// "C" for the centre, else the rank counted from one.
    pub open spec fn caption(self) -> Seq<char> {
        if self.parent is None {
            "C"@
        } else {
            crate::text::decimal((self.orbit_rank + 1) as nat)
        }
    }

    pub fn label(&self) -> (r: String)
        requires
            self.orbit_rank < usize::MAX,
        ensures
            r@ == self.caption(),
    {
        if self.parent.is_none() {
            String::from_str("C")
        } else {
            crate::text::decimal_text((self.orbit_rank + 1) as u64)
        }
    }
}

pub open spec fn parents(nodes: Seq<Node>) -> Seq<Option<usize>> {
    Seq::new(nodes.len(), |i: int| nodes[i].parent)
}

pub open spec fn ranks(nodes: Seq<Node>) -> Seq<i128> {
    Seq::new(nodes.len(), |i: int| nodes[i].orbit_rank as i128)
}

/// Radii, by the key of the total order of numbers.
pub open spec fn radii(nodes: Seq<Node>) -> Seq<i128> {
    Seq::new(nodes.len(), |i: int| crate::number::total_order(nodes[i].radius.bits) as i128)
}

/// The children of `p`, from inner to outer orbit.
pub open spec fn siblings(nodes: Seq<Node>, p: usize) -> Seq<usize> {
    crate::order::sorted_by(crate::topology::family(parents(nodes), p), ranks(nodes))
}

/// The centre comes first, and every other object behind its parent.
pub open spec fn rooted(nodes: Seq<Node>) -> bool {
    &&& 1 <= nodes.len() <= MAX_NODES
    &&& nodes[0].parent is None
    &&& forall|i: int| 0 < i < nodes.len() ==> ((#[trigger] nodes[i]).parent matches Some(p) && p < i)
}

/// The children of every object are ranked 0, 1, 2 and so on.
pub open spec fn ranked(nodes: Seq<Node>) -> bool {
    forall|p: usize, k: int|
        0 <= k < siblings(nodes, p).len() ==> nodes[(#[trigger] siblings(nodes, p)[k]) as int].orbit_rank
            == k
}

/// Inner orbits are those with the smaller radii.
pub open spec fn inner_first(nodes: Seq<Node>) -> bool {
    forall|p: usize| crate::order::ascending(#[trigger] siblings(nodes, p), radii(nodes))
}

pub open spec fn tidy(nodes: Seq<Node>) -> bool {
    rooted(nodes) && ranked(nodes) && inner_first(nodes)
}

/// The tree that a diagram shows.
pub open spec fn tree(nodes: Seq<Node>) -> crate::topology::TopologyView {
    crate::topology::ordered_tree(
        parents(nodes),
        ranks(nodes),
        Seq::new(nodes.len(), |i: int| nodes[i].traits),
    )
}

/// `families[p]` arranges the children of `p`.
pub open spec fn arranges(families: Seq<Seq<usize>>, nodes: Seq<Node>) -> bool {
    &&& families.len() == nodes.len()
    &&& forall|p: usize|
        p < nodes.len() ==> (#[trigger] families[p as int]).to_multiset() == crate::topology::family(
            parents(nodes),
            p,
        ).to_multiset()
}

/// Every object but the centre gets the rank of its place in its family.
pub open spec fn with_ranks(nodes: Seq<Node>, families: Seq<Seq<usize>>) -> Seq<Node> {
    Seq::new(
        nodes.len(),
        |i: int|
            match nodes[i].parent {
                Some(p) => Node {
                    orbit_rank: families[p as int].index_of(i as usize) as usize,
                    ..nodes[i]
                },
                None => nodes[i],
            },
    )
}

/// Families by their present ranks.
pub open spec fn by_rank(nodes: Seq<Node>) -> Seq<Seq<usize>> {
    Seq::new(nodes.len(), |p: int| siblings(nodes, p as usize))
}

/// Families by radius; equal radii keep their present order.
pub open spec fn by_radius(nodes: Seq<Node>) -> Seq<Seq<usize>> {
    Seq::new(
        nodes.len(),
        |p: int| crate::order::sorted_by(siblings(nodes, p as usize), radii(nodes)),
    )
}

/// Ranks made gapless.
pub open spec fn compacted(nodes: Seq<Node>) -> Seq<Node> {
    with_ranks(nodes, by_rank(nodes))
}

/// Ranks made to follow the radii.
pub open spec fn reordered(nodes: Seq<Node>) -> Seq<Node> {
    with_ranks(nodes, by_radius(nodes))
}

pub open spec fn root_node() -> Node {
    Node {
        parent: None,
        pos: Point {
            x: Number { bits: 0x3FE0_0000_0000_0000 },
            y: Number { bits: 0x3FDC_CCCC_C000_0000 },
        },
        radius: Number { bits: 0 },
        orbit_rank: 0,
        traits: Traits { star: false, rings: false },
    }
}

/// The diagram with one more object around `parent`.
pub open spec fn grown(nodes: Seq<Node>, parent: usize, pos: Point, radius: Number) -> Seq<Node> {
    reordered(
        nodes.push(
            Node {
                parent: Some(parent),
                pos,
                radius,
                orbit_rank: siblings(nodes, parent).len() as usize,
                traits: Traits { star: false, rings: false },
            },
        ),
    )
}

/// Object `i` put at `pos`, which lies `reach[j]` away from object `j`: its own
/// radius and those of its children follow.
pub open spec fn shifted(nodes: Seq<Node>, i: usize, pos: Point, reach: Seq<Number>) -> Seq<Node> {
    Seq::new(
        nodes.len(),
        |j: int|
            if j == i {
                Node {
                    pos,
                    radius: match nodes[j].parent {
                        Some(p) => reach[p as int],
                        None => nodes[j].radius,
                    },
                    ..nodes[j]
                }
            } else if nodes[j].parent == Some(i) {
                Node { radius: reach[j], ..nodes[j] }
            } else {
                nodes[j]
            },
    )
}

/// Whether object `i` is `top` or stands in the branch below it.
pub open spec fn in_branch(nodes: Seq<Node>, top: usize, i: int) -> bool
    decreases i,
{
    i == top || (nodes[i].parent matches Some(p) && p < i && in_branch(nodes, top, p as int))
}

/// The objects outside the branch of `top`.
pub open spec fn outside(nodes: Seq<Node>, top: usize) -> spec_fn(int) -> bool {
    |i: int| !in_branch(nodes, top, i)
}

/// Index of object `i` once the branch of `top` is gone.
pub open spec fn renumbered(nodes: Seq<Node>, top: usize, i: usize) -> usize {
    crate::order::picked(i as nat, outside(nodes, top)).len() as usize
}

/// What is left without the branch of `top`, ranks as they were.
pub open spec fn survivors(nodes: Seq<Node>, top: usize) -> Seq<Node> {
    let kept = crate::order::picked(nodes.len(), outside(nodes, top));
    Seq::new(
        kept.len(),
        |k: int|
            Node {
                parent: match nodes[kept[k] as int].parent {
                    Some(p) => Some(renumbered(nodes, top, p)),
                    None => None,
                },
                ..nodes[kept[k] as int]
            },
    )
}

/// The diagram without the branch of `top`.
pub open spec fn pruned(nodes: Seq<Node>, top: usize) -> Seq<Node> {
    compacted(survivors(nodes, top))
}

proof fn lemma_family(nodes: Seq<Node>, p: usize)
    requires
        nodes.len() <= MAX_NODES,
    ensures
        crate::topology::family(parents(nodes), p).no_duplicates(),
        forall|x: usize| #[trigger]
            crate::topology::family(parents(nodes), p).contains(x) <==> x < nodes.len()
                && nodes[x as int].parent == Some(p),
        siblings(nodes, p).to_multiset() == crate::topology::family(
            parents(nodes),
            p,
        ).to_multiset(),
        siblings(nodes, p).len() <= nodes.len(),
        siblings(nodes, p).no_duplicates(),
        forall|x: usize| #[trigger]
            siblings(nodes, p).contains(x) <==> x < nodes.len() && nodes[x as int].parent == Some(
                p,
            ),
        crate::order::ascending(siblings(nodes, p), ranks(nodes)),
{
    let f = crate::topology::family(parents(nodes), p);
    crate::order::lemma_picked(nodes.len(), |i: int| parents(nodes)[i] == Some(p));
    crate::order::law_stable_sort(f, ranks(nodes));
    crate::topology::lemma_permuted(f, siblings(nodes, p));
}

proof fn lemma_place(s: Seq<usize>, k: int)
    requires
        s.no_duplicates(),
        0 <= k < s.len(),
    ensures
        s.index_of(s[k]) == k,
{
    assert(s.contains(s[k]));
    assert(s[s.index_of(s[k])] == s[k]);
}

/// Ranking by an arrangement makes that arrangement the order of siblings.
proof fn lemma_with_ranks(nodes: Seq<Node>, families: Seq<Seq<usize>>)
    requires
        rooted(nodes),
        arranges(families, nodes),
    ensures
        parents(with_ranks(nodes, families)) == parents(nodes),
        radii(with_ranks(nodes, families)) == radii(nodes),
        rooted(with_ranks(nodes, families)),
        ranked(with_ranks(nodes, families)),
        forall|p: usize|
            p < nodes.len() ==> #[trigger] siblings(with_ranks(nodes, families), p)
                == families[p as int],
        forall|p: usize|
            p >= nodes.len() ==> (#[trigger] siblings(with_ranks(nodes, families), p)).len() == 0,
{
    let r = with_ranks(nodes, families);
    assert(parents(r) =~= parents(nodes));
    assert(radii(r) =~= radii(nodes));
    assert forall|p: usize| p < nodes.len() implies #[trigger] siblings(r, p) == families[p as int] by {
        lemma_ranked_family(nodes, families, p);
    }
    assert forall|p: usize| p >= nodes.len() implies (#[trigger] siblings(r, p)).len() == 0 by {
        lemma_family(r, p);
        if siblings(r, p).len() > 0 {
            let x = siblings(r, p)[0];
            assert(siblings(r, p).contains(x));
            assert(r[x as int].parent == Some(p));
            assert(nodes[x as int].parent == Some(p));
        }
    }
    assert forall|p: usize, k: int| 0 <= k < siblings(r, p).len() implies r[(
    #[trigger] siblings(r, p)[k]) as int].orbit_rank == k by {
        if p < nodes.len() {
            lemma_ranked_family(nodes, families, p);
        }
    }
}

proof fn lemma_ranked_family(nodes: Seq<Node>, families: Seq<Seq<usize>>, p: usize)
    requires
        rooted(nodes),
        arranges(families, nodes),
        p < nodes.len(),
    ensures
        siblings(with_ranks(nodes, families), p) == families[p as int],
        forall|k: int|
            0 <= k < families[p as int].len() ==> with_ranks(
                nodes,
                families,
            )[(#[trigger] families[p as int][k]) as int].orbit_rank == k,
{
    let r = with_ranks(nodes, families);
    let s = families[p as int];
    let f = crate::topology::family(parents(nodes), p);
    assert(parents(r) =~= parents(nodes));
    lemma_family(nodes, p);
    crate::topology::lemma_permuted(f, s);
    crate::topology::lemma_permuted(siblings(nodes, p), s);
    assert forall|k: int| 0 <= k < s.len() implies r[(#[trigger] s[k]) as int].orbit_rank == k
        && s[k] < nodes.len() by {
        assert(s.contains(s[k]));
        assert(f.contains(s[k]));
        assert(nodes[s[k] as int].parent == Some(p));
        lemma_place(s, k);
    }
    assert(crate::order::rising(s, ranks(r))) by {
        assert forall|a: int, b: int| 0 <= a < b < s.len() implies ranks(r)[#[trigger] s[a] as int]
            < ranks(r)[#[trigger] s[b] as int] by {
            assert(r[s[a] as int].orbit_rank == a);
            assert(r[s[b] as int].orbit_rank == b);
        }
    }
    crate::order::lemma_rising_is_sorted(f, s, ranks(r));
}

/// Reordering by radius makes any rooted diagram tidy.
pub proof fn lemma_reordered(nodes: Seq<Node>)
    requires
        rooted(nodes),
    ensures
        tidy(reordered(nodes)),
        reordered(nodes).len() == nodes.len(),
        arranges(by_radius(nodes), nodes),
{
    let f = by_radius(nodes);
    assert forall|p: usize| p < nodes.len() implies (#[trigger] f[p as int]).to_multiset()
        == crate::topology::family(parents(nodes), p).to_multiset() by {
        lemma_family(nodes, p);
        crate::order::law_stable_sort(siblings(nodes, p), radii(nodes));
    }
    lemma_with_ranks(nodes, f);
    let r = reordered(nodes);
    assert forall|p: usize| crate::order::ascending(#[trigger] siblings(r, p), radii(r)) by {
        if p < nodes.len() {
            crate::order::law_stable_sort(siblings(nodes, p), radii(nodes));
            assert(siblings(r, p) == f[p as int]);
        }
    }
}

/// Making ranks gapless keeps the order of siblings.
pub proof fn lemma_compacted(nodes: Seq<Node>)
    requires
        rooted(nodes),
    ensures
        rooted(compacted(nodes)),
        ranked(compacted(nodes)),
        compacted(nodes).len() == nodes.len(),
        arranges(by_rank(nodes), nodes),
        radii(compacted(nodes)) == radii(nodes),
        forall|p: usize| #[trigger] siblings(compacted(nodes), p) == siblings(nodes, p),
{
    let f = by_rank(nodes);
    assert forall|p: usize| p < nodes.len() implies (#[trigger] f[p as int]).to_multiset()
        == crate::topology::family(parents(nodes), p).to_multiset() by {
        lemma_family(nodes, p);
    }
    lemma_with_ranks(nodes, f);
    assert forall|p: usize| #[trigger] siblings(compacted(nodes), p) == siblings(nodes, p) by {
        if p >= nodes.len() {
            lemma_family(nodes, p);
            if siblings(nodes, p).len() > 0 {
                assert(siblings(nodes, p).contains(siblings(nodes, p)[0]));
            }
            assert(siblings(compacted(nodes), p) =~= siblings(nodes, p));
        } else {
            assert(f[p as int] == siblings(nodes, p));
        }
    }
}

/// Picking below a larger bound extends picking below a smaller one.
proof fn lemma_picked_prefix(m: nat, n: nat, p: spec_fn(int) -> bool)
    requires
        m <= n <= usize::MAX,
    ensures
        crate::order::picked(m, p).len() <= crate::order::picked(n, p).len(),
        crate::order::picked(n, p).take(crate::order::picked(m, p).len() as int)
            == crate::order::picked(m, p),
        m < n && p(m as int) ==> crate::order::picked(m, p).len() < crate::order::picked(n, p).len()
            && crate::order::picked(n, p)[crate::order::picked(m, p).len() as int] == m,
    decreases n,
{
    let a = crate::order::picked(m, p);
    let b = crate::order::picked(n, p);
    if m == n {
        assert(b.take(a.len() as int) =~= a);
    } else {
        lemma_picked_prefix(m, (n - 1) as nat, p);
        let c = crate::order::picked((n - 1) as nat, p);
        if m + 1 == n {
            assert(c == a);
        }
        assert(b.take(a.len() as int) =~= c.take(a.len() as int));
    }
}

/// Deleting a branch keeps the diagram tidy.
pub proof fn lemma_pruned(nodes: Seq<Node>, top: usize)
    requires
        tidy(nodes),
        0 < top < nodes.len(),
    ensures
        rooted(survivors(nodes, top)),
        tidy(pruned(nodes, top)),
        forall|i: usize|
            i < nodes.len() && !#[trigger] in_branch(nodes, top, i as int) ==> renumbered(
                nodes,
                top,
                i,
            ) < pruned(nodes, top).len(),
{
    let keep = outside(nodes, top);
    let n = nodes.len();
    let kept = crate::order::picked(n, keep);
    let s = survivors(nodes, top);
    crate::order::lemma_picked(n, keep);
    assert(!in_branch(nodes, top, 0));
    lemma_picked_prefix(0, n, keep);
    assert(kept[0] == 0);
    assert forall|i: int| 0 < i < s.len() implies ((#[trigger] s[i]).parent matches Some(p) && p
        < i) by {
        let x = kept[i];
        assert(kept[0] < kept[i]);
        assert(keep(x as int));
        let p = nodes[x as int].parent->0;
        assert(p < x);
        assert(!in_branch(nodes, top, p as int));
        lemma_picked_prefix(p as nat, x as nat, keep);
        lemma_picked_prefix(x as nat, n, keep);
        crate::order::lemma_picked(x as nat, keep);
        let a = crate::order::picked(x as nat, keep).len() as int;
        assert(kept[a] == x);
        assert(a == i);
    }
    assert(rooted(s));
    lemma_compacted(s);
    assert forall|p: usize| crate::order::ascending(
        #[trigger] siblings(pruned(nodes, top), p),
        radii(pruned(nodes, top)),
    ) by {
        assert(siblings(pruned(nodes, top), p) == siblings(s, p));
        lemma_survivor_order(nodes, top, p);
    }
    assert forall|i: usize| i < nodes.len() && !#[trigger] in_branch(nodes, top, i as int) implies renumbered(
        nodes,
        top,
        i,
    ) < pruned(nodes, top).len() by {
        lemma_picked_prefix(i as nat, n, keep);
    }
}

/// Survivors with one parent had one parent before.
proof fn lemma_same_parent(nodes: Seq<Node>, top: usize, x: int, y: int)
    requires
        tidy(nodes),
        0 < top < nodes.len(),
        0 <= x < survivors(nodes, top).len(),
        0 <= y < survivors(nodes, top).len(),
        survivors(nodes, top)[x].parent is Some,
        survivors(nodes, top)[x].parent == survivors(nodes, top)[y].parent,
    ensures
        ({
            let kept = crate::order::picked(nodes.len(), outside(nodes, top));
            &&& kept[x] < nodes.len()
            &&& kept[y] < nodes.len()
            &&& nodes[kept[x] as int].parent is Some
            &&& nodes[kept[x] as int].parent == nodes[kept[y] as int].parent
        }),
{
    let keep = outside(nodes, top);
    let kept = crate::order::picked(nodes.len(), keep);
    crate::order::lemma_picked(nodes.len(), keep);
    let p = nodes[kept[x] as int].parent->0;
    let q = nodes[kept[y] as int].parent->0;
    assert(keep(kept[x] as int));
    assert(keep(kept[y] as int));
    assert(!in_branch(nodes, top, p as int));
    assert(!in_branch(nodes, top, q as int));
    lemma_picked_prefix(p as nat, nodes.len(), keep);
    lemma_picked_prefix(q as nat, nodes.len(), keep);
    assert(crate::order::picked(p as nat, keep).len() <= nodes.len()) by {
        crate::order::lemma_picked(p as nat, keep);
    }
    assert(crate::order::picked(q as nat, keep).len() <= nodes.len()) by {
        crate::order::lemma_picked(q as nat, keep);
    }
    assert(kept[crate::order::picked(p as nat, keep).len() as int] == p);
    assert(kept[crate::order::picked(q as nat, keep).len() as int] == q);
}

/// Among survivors, inner orbits still have the smaller radii.
proof fn lemma_survivor_order(nodes: Seq<Node>, top: usize, p: usize)
    requires
        tidy(nodes),
        0 < top < nodes.len(),
        rooted(survivors(nodes, top)),
    ensures
        crate::order::ascending(
            siblings(survivors(nodes, top), p),
            radii(survivors(nodes, top)),
        ),
{
    let s = survivors(nodes, top);
    let f = siblings(s, p);
    let kept = crate::order::picked(nodes.len(), outside(nodes, top));
    lemma_family(s, p);
    assert forall|a: int, b: int| 0 <= a < b < f.len() implies radii(s)[#[trigger] f[a] as int]
        <= radii(s)[#[trigger] f[b] as int] by {
        let x = f[a];
        let y = f[b];
        assert(f.contains(x));
        assert(f.contains(y));
        assert(ranks(s)[x as int] <= ranks(s)[y as int]);
        lemma_same_parent(nodes, top, x as int, y as int);
        let i = kept[x as int];
        let j = kept[y as int];
        let q = nodes[i as int].parent->0;
        lemma_family(nodes, q);
        let g = siblings(nodes, q);
        assert(g.contains(i));
        assert(g.contains(j));
        let u = choose|u: int| 0 <= u < g.len() && g[u] == i;
        let v = choose|v: int| 0 <= v < g.len() && g[v] == j;
        assert(nodes[g[u] as int].orbit_rank == u);
        assert(nodes[g[v] as int].orbit_rank == v);
        assert(u <= v);
        assert(crate::order::ascending(g, radii(nodes)));
        if u < v {
            assert(radii(nodes)[g[u] as int] <= radii(nodes)[g[v] as int]);
        }
    }
}

/// Traits play no part in the order of orbits.
pub proof fn lemma_traits_do_not_order(nodes: Seq<Node>, i: int, traits: Traits)
    requires
        0 <= i < nodes.len(),
    ensures
        tidy(nodes) ==> tidy(nodes.update(i, Node { traits, ..nodes[i] })),
{
    let r = nodes.update(i, Node { traits, ..nodes[i] });
    assert(parents(r) =~= parents(nodes));
    assert(ranks(r) =~= ranks(nodes));
    assert(radii(r) =~= radii(nodes));
    if tidy(nodes) {
        assert forall|p: usize, k: int| 0 <= k < siblings(r, p).len() implies r[(
        #[trigger] siblings(r, p)[k]) as int].orbit_rank == k by {
            lemma_family(nodes, p);
            assert(siblings(nodes, p).contains(siblings(nodes, p)[k]));
            assert(nodes[siblings(nodes, p)[k] as int].orbit_rank == k);
        }
        assert forall|p: usize| crate::order::ascending(#[trigger] siblings(r, p), radii(r)) by {
            assert(crate::order::ascending(siblings(nodes, p), radii(nodes)));
        }
    }
}

/// A tidy diagram is in order already.
pub proof fn law_tidy_diagrams_stay(nodes: Seq<Node>)
    requires
        tidy(nodes),
    ensures
        reordered(nodes) == nodes,
{
    assert forall|i: int| 0 <= i < nodes.len() implies #[trigger] reordered(nodes)[i] == nodes[i] by {
        if let Some(p) = nodes[i].parent {
            let g = siblings(nodes, p);
            lemma_family(nodes, p);
            assert(p < nodes.len());
            assert(crate::order::ascending(g, radii(nodes)));
            crate::order::lemma_ascending_is_sorted(g, radii(nodes));
            assert(by_radius(nodes)[p as int] == g);
            assert(g.contains(i as usize));
            let k = choose|k: int| 0 <= k < g.len() && g[k] == i as usize;
            lemma_place(g, k);
            assert(nodes[g[k] as int].orbit_rank == k);
        }
    }
    assert(reordered(nodes) =~= nodes);
}

/// Reordering a second time changes nothing.
pub proof fn law_reordering_twice(nodes: Seq<Node>)
    requires
        rooted(nodes),
    ensures
        reordered(reordered(nodes)) == reordered(nodes),
{
    lemma_reordered(nodes);
    law_tidy_diagrams_stay(reordered(nodes));
}

/// In a tidy diagram, of two children of one parent the one with the smaller
/// radius has the smaller rank.
pub proof fn law_nearer_is_inner(nodes: Seq<Node>, i: usize, j: usize)
    requires
        tidy(nodes),
        i < nodes.len(),
        j < nodes.len(),
        nodes[i as int].parent is Some,
        nodes[i as int].parent == nodes[j as int].parent,
        nodes[i as int].radius@.lt(nodes[j as int].radius@),
    ensures
        nodes[i as int].orbit_rank < nodes[j as int].orbit_rank,
{
    let p = nodes[i as int].parent->0;
    let g = siblings(nodes, p);
    lemma_family(nodes, p);
    assert(g.contains(i));
    assert(g.contains(j));
    let u = choose|u: int| 0 <= u < g.len() && g[u] == i;
    let v = choose|v: int| 0 <= v < g.len() && g[v] == j;
    assert(nodes[g[u] as int].orbit_rank == u);
    assert(nodes[g[v] as int].orbit_rank == v);
    assert(crate::order::ascending(g, radii(nodes)));
    crate::number::law_total_order(nodes[i as int].radius, nodes[j as int].radius);
    if v < u {
        assert(radii(nodes)[g[v] as int] <= radii(nodes)[g[u] as int]);
    }
}

/// Ranks identify siblings: they are distinct, and below the number of objects.
pub proof fn law_ranks_identify_siblings(nodes: Seq<Node>, i: usize, j: usize)
    requires
        tidy(nodes),
        i < nodes.len(),
        j < nodes.len(),
        nodes[i as int].parent is Some,
        nodes[i as int].parent == nodes[j as int].parent,
    ensures
        nodes[i as int].orbit_rank < nodes.len(),
        nodes[i as int].orbit_rank == nodes[j as int].orbit_rank ==> i == j,
{
    let p = nodes[i as int].parent->0;
    let g = siblings(nodes, p);
    lemma_family(nodes, p);
    assert(g.contains(i));
    assert(g.contains(j));
    let u = choose|u: int| 0 <= u < g.len() && g[u] == i;
    let v = choose|v: int| 0 <= v < g.len() && g[v] == j;
    assert(nodes[g[u] as int].orbit_rank == u);
    assert(nodes[g[v] as int].orbit_rank == v);
}

/// Deleting a branch keeps the relative order of the siblings that stay.
pub proof fn law_deleting_keeps_order(nodes: Seq<Node>, top: usize, i: usize, j: usize)
    requires
        tidy(nodes),
        0 < top < nodes.len(),
        i < nodes.len(),
        j < nodes.len(),
        nodes[i as int].parent is Some,
        nodes[i as int].parent == nodes[j as int].parent,
        nodes[i as int].orbit_rank < nodes[j as int].orbit_rank,
        !in_branch(nodes, top, i as int),
        !in_branch(nodes, top, j as int),
    ensures
        pruned(nodes, top)[renumbered(nodes, top, i) as int].orbit_rank < pruned(
            nodes,
            top,
        )[renumbered(nodes, top, j) as int].orbit_rank,
{
    let keep = outside(nodes, top);
    let s = survivors(nodes, top);
    let r = pruned(nodes, top);
    lemma_pruned(nodes, top);
    lemma_compacted(s);
    lemma_picked_prefix(i as nat, nodes.len(), keep);
    lemma_picked_prefix(j as nat, nodes.len(), keep);
    crate::order::lemma_picked(i as nat, keep);
    crate::order::lemma_picked(j as nat, keep);
    let a = renumbered(nodes, top, i);
    let b = renumbered(nodes, top, j);
    assert(s[a as int].orbit_rank == nodes[i as int].orbit_rank);
    assert(s[b as int].orbit_rank == nodes[j as int].orbit_rank);
    let p = s[a as int].parent->0;
    let g = siblings(s, p);
    lemma_family(s, p);
    assert(g.contains(a));
    assert(g.contains(b));
    let u = choose|u: int| 0 <= u < g.len() && g[u] == a;
    let v = choose|v: int| 0 <= v < g.len() && g[v] == b;
    assert(siblings(r, p) == g);
    assert(r[siblings(r, p)[u] as int].orbit_rank == u);
    assert(r[siblings(r, p)[v] as int].orbit_rank == v);
    if v < u {
        assert(ranks(s)[g[v] as int] <= ranks(s)[g[u] as int]);
    }
}

/// A copy of `nodes`.
pub fn duplicate(nodes: &Vec<Node>) -> (r: Vec<Node>)
    ensures
        r@ == nodes@,
{
    let mut r: Vec<Node> = Vec::new();
    let mut i: usize = 0;
    while i < nodes.len()
        invariant
            i <= nodes@.len(),
            r@ == nodes@.take(i as int),
        decreases nodes.len() - i,
    {
        r.push(nodes[i]);
        i += 1;
        assert(nodes@.take(i as int) =~= nodes@.take(i - 1).push(nodes@[i - 1]));
    }
    assert(nodes@.take(i as int) =~= nodes@);
    r
}

/// The parent of every object.
pub fn parent_list(nodes: &Vec<Node>) -> (r: Vec<Option<usize>>)
    ensures
        r@ == parents(nodes@),
{
    let mut r: Vec<Option<usize>> = Vec::new();
    let mut i: usize = 0;
    while i < nodes.len()
        invariant
            i <= nodes@.len(),
            r@ == parents(nodes@).take(i as int),
        decreases nodes.len() - i,
    {
        r.push(nodes[i].parent);
        i += 1;
        assert(parents(nodes@).take(i as int) =~= parents(nodes@).take(i - 1).push(
            parents(nodes@)[i - 1],
        ));
    }
    assert(parents(nodes@).take(i as int) =~= parents(nodes@));
    r
}

fn rank_list(nodes: &Vec<Node>) -> (r: Vec<i128>)
    ensures
        r@ == ranks(nodes@),
{
    let mut r: Vec<i128> = Vec::new();
    let mut i: usize = 0;
    while i < nodes.len()
        invariant
            i <= nodes@.len(),
            r@ == ranks(nodes@).take(i as int),
        decreases nodes.len() - i,
    {
        r.push(nodes[i].orbit_rank as i128);
        i += 1;
        assert(ranks(nodes@).take(i as int) =~= ranks(nodes@).take(i - 1).push(
            ranks(nodes@)[i - 1],
        ));
    }
    assert(ranks(nodes@).take(i as int) =~= ranks(nodes@));
    r
}

fn radius_list(nodes: &Vec<Node>) -> (r: Vec<i128>)
    ensures
        r@ == radii(nodes@),
{
    let mut r: Vec<i128> = Vec::new();
    let mut i: usize = 0;
    while i < nodes.len()
        invariant
            i <= nodes@.len(),
            r@ == radii(nodes@).take(i as int),
        decreases nodes.len() - i,
    {
        r.push(nodes[i].radius.total_key());
        i += 1;
        assert(radii(nodes@).take(i as int) =~= radii(nodes@).take(i - 1).push(
            radii(nodes@)[i - 1],
        ));
    }
    assert(radii(nodes@).take(i as int) =~= radii(nodes@));
    r
}

/// The children of `parent`, from inner to outer orbit.
pub fn sibling_list(nodes: &Vec<Node>, parent: usize) -> (r: Vec<usize>)
    requires
        nodes@.len() <= MAX_NODES,
    ensures
        r@ == siblings(nodes@, parent),
{
    let parents = parent_list(nodes);
    let ranks = rank_list(nodes);
    let family = members(&parents, parent);
    proof {
        lemma_family(nodes@, parent);
        assert forall|i: int| 0 <= i < family@.len() implies (#[trigger] family@[i]) < ranks@.len() by {
            assert(family@.contains(family@[i]));
        }
    }
    sort_by_key(&family, &ranks)
}

/// Ranks every object but the centre by its place in its family.
fn apply_ranks(nodes: &mut Vec<Node>, families: &Vec<Vec<usize>>)
    requires
        rooted(old(nodes)@),
        arranges(families@.map_values(|v: Vec<usize>| v@), old(nodes)@),
    ensures
        final(nodes)@ == with_ranks(old(nodes)@, families@.map_values(|v: Vec<usize>| v@)),
{
    let ghost before = nodes@;
    let ghost arranged = families@.map_values(|v: Vec<usize>| v@);
    let mut i: usize = 0;
    while i < nodes.len()
        invariant
            i <= nodes@.len(),
            nodes@.len() == before.len(),
            rooted(before),
            arranged == families@.map_values(|v: Vec<usize>| v@),
            arranges(arranged, before),
            forall|j: int| 0 <= j < i ==> nodes@[j] == with_ranks(before, arranged)[j],
            forall|j: int| i <= j < before.len() ==> nodes@[j] == before[j],
        decreases nodes.len() - i,
    {
        let node = nodes[i];
        if let Some(p) = node.parent {
            assert(before[i as int].parent == Some(p));
            let family = &families[p];
            assert(family@ == arranged[p as int]);
            proof {
                lemma_family(before, p);
                crate::topology::lemma_permuted(
                    crate::topology::family(parents(before), p),
                    family@,
                );
                assert(family@.contains(i));
            }
            let k: usize = index_of(family, i);
            proof {
                lemma_place(family@, k as int);
            }
            nodes.set(
                i,
                Node {
                    parent: node.parent,
                    pos: node.pos,
                    radius: node.radius,
                    orbit_rank: k,
                    traits: node.traits,
                },
            );
        }
        i += 1;
    }
    assert(nodes@ =~= with_ranks(before, arranged));
}

/// Makes ranks gapless.
pub fn compact(nodes: &mut Vec<Node>)
    requires
        rooted(old(nodes)@),
    ensures
        final(nodes)@ == compacted(old(nodes)@),
{
    let mut families: Vec<Vec<usize>> = Vec::new();
    let mut p: usize = 0;
    while p < nodes.len()
        invariant
            p <= nodes@.len() <= MAX_NODES,
            families@.len() == p,
            forall|q: int| 0 <= q < p ==> (#[trigger] families@[q])@ == by_rank(nodes@)[q],
        decreases nodes.len() - p,
    {
        families.push(sibling_list(nodes, p));
        p += 1;
    }
    assert(families@.map_values(|v: Vec<usize>| v@) =~= by_rank(nodes@));
    proof {
        lemma_compacted(nodes@);
    }
    apply_ranks(nodes, &families);
}

/// Makes ranks follow the radii.
pub fn reorder_by_distance(nodes: &mut Vec<Node>)
    requires
        rooted(old(nodes)@),
    ensures
        final(nodes)@ == reordered(old(nodes)@),
        tidy(final(nodes)@),
{
    let radii = radius_list(nodes);
    let mut families: Vec<Vec<usize>> = Vec::new();
    let mut p: usize = 0;
    while p < nodes.len()
        invariant
            p <= nodes@.len() <= MAX_NODES,
            radii@ == self::radii(nodes@),
            families@.len() == p,
            forall|q: int| 0 <= q < p ==> (#[trigger] families@[q])@ == by_radius(nodes@)[q],
        decreases nodes.len() - p,
    {
        let siblings = sibling_list(nodes, p);
        proof {
            lemma_family(nodes@, p);
            assert forall|i: int| 0 <= i < siblings@.len() implies (#[trigger] siblings@[i])
                < radii@.len() by {
                assert(siblings@.contains(siblings@[i]));
            }
        }
        // Keep the previous ordering when two radii are exactly equal.
        families.push(sort_by_key(&siblings, &radii));
        p += 1;
    }
    assert(families@.map_values(|v: Vec<usize>| v@) =~= by_radius(nodes@));
    proof {
        lemma_reordered(nodes@);
    }
    apply_ranks(nodes, &families);
}

/// The diagram of a fresh theory: the centre alone.
pub fn fresh() -> (r: Vec<Node>)
    ensures
        r@ == seq![root_node()],
        tidy(r@),
{
    let root = Node {
        parent: None,
        pos: Point {
            x: Number { bits: 0x3FE0_0000_0000_0000 },
            y: Number { bits: 0x3FDC_CCCC_C000_0000 },
        },
        radius: Number { bits: 0 },
        orbit_rank: 0,
        traits: Traits::none(),
    };
    let mut r: Vec<Node> = Vec::new();
    r.push(root);
    proof {
        let s = seq![root_node()];
        assert(r@ =~= s);
        assert forall|p: usize| (#[trigger] siblings(s, p)).len() == 0 by {
            lemma_family(s, p);
            if siblings(s, p).len() > 0 {
                assert(siblings(s, p).contains(siblings(s, p)[0]));
            }
        }
    }
    r
}

/// Adds an object around `parent`, `radius` away from it.
pub fn grow(nodes: &mut Vec<Node>, parent: usize, pos: Point, radius: Number)
    requires
        tidy(old(nodes)@),
        old(nodes)@.len() < MAX_NODES,
        parent < old(nodes)@.len(),
    ensures
        final(nodes)@ == grown(old(nodes)@, parent, pos, radius),
        final(nodes)@.len() == old(nodes)@.len() + 1,
        tidy(final(nodes)@),
{
    let orbit_rank: usize = sibling_list(nodes, parent).len();
    nodes.push(
        Node { parent: Some(parent), pos, radius, orbit_rank, traits: Traits::none() },
    );
    proof {
        lemma_reordered(nodes@);
    }
    reorder_by_distance(nodes);
}

/// Moves object `i` to `pos`, which lies `reach[j]` away from object `j`.
pub fn shift(nodes: &mut Vec<Node>, i: usize, pos: Point, reach: &Vec<Number>)
    requires
        tidy(old(nodes)@),
        i < old(nodes)@.len(),
        reach@.len() == old(nodes)@.len(),
    ensures
        final(nodes)@ == reordered(shifted(old(nodes)@, i, pos, reach@)),
        final(nodes)@.len() == old(nodes)@.len(),
        tidy(final(nodes)@),
{
    let ghost before = nodes@;
    let mut j: usize = 0;
    while j < nodes.len()
        invariant
            j <= nodes@.len(),
            nodes@.len() == before.len(),
            rooted(before),
            i < before.len(),
            reach@.len() == before.len(),
            forall|k: int| 0 <= k < j ==> nodes@[k] == shifted(before, i, pos, reach@)[k],
            forall|k: int| j <= k < before.len() ==> nodes@[k] == before[k],
        decreases nodes.len() - j,
    {
        let node = nodes[j];
        assert(node == before[j as int]);
        if j == i {
            let radius: Number = match node.parent {
                Some(p) => reach[p],
                None => node.radius,
            };
            nodes.set(
                j,
                Node {
                    parent: node.parent,
                    pos,
                    radius,
                    orbit_rank: node.orbit_rank,
                    traits: node.traits,
                },
            );
        } else if let Some(p) = node.parent {
            if p == i {
                nodes.set(
                    j,
                    Node {
                        parent: node.parent,
                        pos: node.pos,
                        radius: reach[j],
                        orbit_rank: node.orbit_rank,
                        traits: node.traits,
                    },
                );
            }
        }
        j += 1;
    }
    assert(nodes@ =~= shifted(before, i, pos, reach@));
    proof {
        lemma_reordered(nodes@);
    }
    reorder_by_distance(nodes);
}

/// Deletes the branch of `top`. The marks say which objects it held, and the
/// numbers where the others went.
pub fn prune(nodes: &mut Vec<Node>, top: usize) -> (r: (Vec<bool>, Vec<usize>))
    requires
        tidy(old(nodes)@),
        0 < top < old(nodes)@.len(),
    ensures
        final(nodes)@ == pruned(old(nodes)@, top),
        tidy(final(nodes)@),
        r.0@.len() == old(nodes)@.len(),
        r.1@.len() == old(nodes)@.len(),
        forall|i: int|
            0 <= i < old(nodes)@.len() ==> #[trigger] r.0@[i] == in_branch(old(nodes)@, top, i),
        forall|i: int|
            0 <= i < old(nodes)@.len() && !r.0@[i] ==> #[trigger] r.1@[i] == renumbered(
                old(nodes)@,
                top,
                i as usize,
            ) && r.1@[i] < final(nodes)@.len(),
{
    let ghost before = nodes@;
    let ghost keep = outside(before, top);
    let mut removed: Vec<bool> = Vec::new();
    let mut indices: Vec<usize> = Vec::new();
    let mut kept: Vec<Node> = Vec::new();
    let ghost all = crate::order::picked(before.len(), keep);
    let mut i: usize = 0;
    proof {
        lemma_pruned(before, top);
        crate::order::lemma_picked(before.len(), keep);
    }
    while i < nodes.len()
        invariant
            i <= nodes@.len(),
            nodes@ == before,
            rooted(before),
            0 < top < before.len(),
            keep == outside(before, top),
            all == crate::order::picked(before.len(), keep),
            removed@.len() == i,
            indices@.len() == i,
            forall|j: int| 0 <= j < i ==> #[trigger] removed@[j] == in_branch(before, top, j),
            forall|j: int|
                0 <= j < i && !removed@[j] ==> #[trigger] indices@[j] == renumbered(
                    before,
                    top,
                    j as usize,
                ),
            kept@.len() == crate::order::picked(i as nat, keep).len(),
            kept@.len() <= survivors(before, top).len(),
            kept@ == survivors(before, top).take(kept@.len() as int),
        decreases nodes.len() - i,
    {
        let node = nodes[i];
        let gone = if i == top {
            true
        } else {
            match node.parent {
                Some(p) => removed[p],
                None => false,
            }
        };
        removed.push(gone);
        indices.push(kept.len());
        if !gone {
            assert(!in_branch(before, top, i as int));
            let parent: Option<usize> = match node.parent {
                Some(p) => Some(indices[p]),
                None => None,
            };
            let ghost held = kept@;
            kept.push(
                Node {
                    parent,
                    pos: node.pos,
                    radius: node.radius,
                    orbit_rank: node.orbit_rank,
                    traits: node.traits,
                },
            );
            proof {
                lemma_picked_prefix(i as nat, before.len(), keep);
                assert(all[held.len() as int] == i);
                assert(kept@ =~= survivors(before, top).take(kept@.len() as int));
            }
        }
        i += 1;
    }
    assert(kept@ =~= survivors(before, top));
    *nodes = kept;
    compact(nodes);
    proof {
        assert forall|j: int| 0 <= j < before.len() && !removed@[j] implies #[trigger] indices@[j]
            < nodes@.len() by {
            assert(!in_branch(before, top, (j as usize) as int));
        }
    }
    (removed, indices)
}

/// The tree that a diagram shows.
pub fn topology(nodes: &Vec<Node>) -> (r: Topology)
    requires
        rooted(nodes@),
    ensures
        r@ == tree(nodes@),
        r@.well_formed(),
        r@.connected(),
        r@.size() == nodes@.len(),
{
    let parents = parent_list(nodes);
    let ranks = rank_list(nodes);
    let mut traits: Vec<Traits> = Vec::new();
    let ghost all = Seq::new(nodes@.len(), |i: int| nodes@[i].traits);
    let mut i: usize = 0;
    while i < nodes.len()
        invariant
            i <= nodes@.len(),
            all == Seq::new(nodes@.len(), |i: int| nodes@[i].traits),
            traits@ == all.take(i as int),
        decreases nodes.len() - i,
    {
        traits.push(nodes[i].traits);
        i += 1;
        assert(all.take(i as int) =~= all.take(i - 1).push(all[i - 1]));
    }
    assert(all.take(i as int) =~= all);
    proof {
        assert forall|i: int| 0 < i < parents@.len() implies ((#[trigger] parents@[i]) matches Some(
        p) && p < i) by {
            assert(nodes@[i].parent == parents@[i]);
        }
        crate::topology::lemma_ordered_tree_connected(parents@, ranks@, all);
    }
    Topology::new(&parents, &ranks, traits)
}

/// Reordering touches ranks alone.
proof fn lemma_only_ranks_change(nodes: Seq<Node>, families: Seq<Seq<usize>>)
    ensures
        with_ranks(nodes, families).len() == nodes.len(),
        forall|i: int|
            0 <= i < nodes.len() ==> (#[trigger] with_ranks(nodes, families)[i]) == (Node {
                orbit_rank: with_ranks(nodes, families)[i].orbit_rank,
                ..nodes[i]
            }),
{
}

/// Of two siblings at one distance, the one that was inner stays inner.
proof fn lemma_ties_stay(nodes: Seq<Node>, i: usize, j: usize)
    requires
        rooted(nodes),
        i < nodes.len(),
        j < nodes.len(),
        nodes[i as int].parent is Some,
        nodes[i as int].parent == nodes[j as int].parent,
        nodes[i as int].radius == nodes[j as int].radius,
        nodes[i as int].orbit_rank < nodes[j as int].orbit_rank,
    ensures
        reordered(nodes)[i as int].orbit_rank < reordered(nodes)[j as int].orbit_rank,
{
    let p = nodes[i as int].parent->0;
    let g = siblings(nodes, p);
    let f = crate::order::sorted_by(g, radii(nodes));
    lemma_family(nodes, p);
    crate::order::law_stable_sort(g, radii(nodes));
    crate::topology::lemma_permuted(g, f);
    assert(g.contains(i) && g.contains(j));
    let u = choose|u: int| 0 <= u < g.len() && g[u] == i;
    let v = choose|v: int| 0 <= v < g.len() && g[v] == j;
    assert(u < v) by {
        if v < u {
            assert(ranks(nodes)[g[v] as int] <= ranks(nodes)[g[u] as int]);
        }
    }
    assert(f.contains(i) && f.contains(j));
    let a = f.index_of(i);
    let b = f.index_of(j);
    assert(f[a] == i && f[b] == j);
    lemma_place(g, u);
    lemma_place(g, v);
    if b < a {
        assert(crate::order::keeps_ties(f, g, radii(nodes)));
        assert(radii(nodes)[f[b] as int] == radii(nodes)[f[a] as int]);
    }
    assert(by_radius(nodes)[p as int] == f);
    lemma_reordered(nodes);
}

/// Dragging object `i` to a place puts it there; its own radius becomes the place's
/// distance from its parent, that of each of its children the distance from that
/// child, and every other object keeps place and radius. Nobody changes parent or
/// traits. Siblings are ranked by their radii again, so the children of `i` by how
/// far the place lies from them, and siblings at one distance keep their order.
pub proof fn law_dragging(
    nodes: Seq<Node>,
    i: usize,
    pos: Point,
    reach: Seq<Number>,
    j: usize,
    k: usize,
)
    requires
        tidy(nodes),
        i < nodes.len(),
        reach.len() == nodes.len(),
        j < nodes.len(),
        k < nodes.len(),
    ensures
        ({
            let r = reordered(shifted(nodes, i, pos, reach));
            let a = nodes[j as int];
            let b = nodes[k as int];
            let c = r[j as int];
            let d = r[k as int];
            &&& tidy(r)
            &&& r.len() == nodes.len()
            &&& c.parent == a.parent && c.traits == a.traits
            &&& c.pos == (if j == i {
                pos
            } else {
                a.pos
            })
            &&& a.parent == Some(i) ==> c.radius == reach[j as int]
            &&& j == i && a.parent is Some ==> c.radius == reach[a.parent->0 as int]
            &&& j == i && a.parent is None ==> c.radius == a.radius
            &&& j != i && a.parent != Some(i) ==> c.radius == a.radius
            &&& a.parent == Some(i) && b.parent == Some(i) && reach[j as int]@.lt(
                reach[k as int]@,
            ) ==> c.orbit_rank < d.orbit_rank
            &&& a.parent is Some && a.parent == b.parent && c.radius@.lt(d.radius@) ==> c.orbit_rank
                < d.orbit_rank
            &&& a.parent is Some && a.parent == b.parent && c.radius == d.radius && a.orbit_rank
                < b.orbit_rank ==> c.orbit_rank < d.orbit_rank
        }),
{
    let s = shifted(nodes, i, pos, reach);
    let r = reordered(s);
    assert(rooted(s)) by {
        assert forall|m: int| 0 < m < s.len() implies ((#[trigger] s[m]).parent matches Some(p) && p
            < m) by {
            assert(s[m].parent == nodes[m].parent);
        }
    }
    lemma_reordered(s);
    lemma_only_ranks_change(s, by_radius(s));
    assert(nodes[i as int].parent != Some(i));
    if nodes[j as int].parent is Some && nodes[j as int].parent == nodes[k as int].parent {
        if r[j as int].radius@.lt(r[k as int].radius@) {
            law_nearer_is_inner(r, j, k);
        }
        if r[j as int].radius == r[k as int].radius && nodes[j as int].orbit_rank
            < nodes[k as int].orbit_rank {
            lemma_ties_stay(s, j, k);
        }
    }
}

/// A new object comes last, around the parent asked for, at the place and distance
/// asked for, without marks; nothing but ranks changes among the others. It is
/// ranked by its distance, outside of those as far away.
pub proof fn law_growing(nodes: Seq<Node>, parent: usize, pos: Point, radius: Number, j: usize)
    requires
        tidy(nodes),
        nodes.len() < MAX_NODES,
        parent < nodes.len(),
        j < nodes.len(),
    ensures
        ({
            let r = grown(nodes, parent, pos, radius);
            let new = r.last();
            let a = nodes[j as int];
            let c = r[j as int];
            &&& tidy(r)
            &&& r.len() == nodes.len() + 1
            &&& new.parent == Some(parent) && new.pos == pos && new.radius == radius
            &&& !new.traits.star && !new.traits.rings
            &&& c.parent == a.parent && c.pos == a.pos && c.radius == a.radius && c.traits
                == a.traits
            &&& a.parent == Some(parent) && a.radius@.lt(radius@) ==> c.orbit_rank < new.orbit_rank
            &&& a.parent == Some(parent) && radius@.lt(a.radius@) ==> new.orbit_rank < c.orbit_rank
            &&& a.parent == Some(parent) && a.radius == radius ==> c.orbit_rank < new.orbit_rank
        }),
{
    let n = nodes.len();
    let s = nodes.push(
        Node {
            parent: Some(parent),
            pos,
            radius,
            orbit_rank: siblings(nodes, parent).len() as usize,
            traits: Traits { star: false, rings: false },
        },
    );
    let r = grown(nodes, parent, pos, radius);
    assert(rooted(s));
    lemma_reordered(s);
    lemma_only_ranks_change(s, by_radius(s));
    assert(r == reordered(s));
    if nodes[j as int].parent == Some(parent) {
        assert(s[j as int] == nodes[j as int]);
        if nodes[j as int].radius@.lt(radius@) {
            law_nearer_is_inner(r, j, n as usize);
        }
        if radius@.lt(nodes[j as int].radius@) {
            law_nearer_is_inner(r, n as usize, j);
        }
        if nodes[j as int].radius == radius {
            let g = siblings(nodes, parent);
            lemma_family(nodes, parent);
            assert(g.contains(j));
            let u = choose|u: int| 0 <= u < g.len() && g[u] == j;
            assert(nodes[g[u] as int].orbit_rank == u);
            lemma_ties_stay(s, j, n as usize);
        }
    }
}

/// The branch of `top` is `top` and whatever orbits an object of the branch; the
/// centre is in no branch but its own.
pub proof fn law_branches(nodes: Seq<Node>, top: usize, i: usize)
    requires
        rooted(nodes),
        top < nodes.len(),
        i < nodes.len(),
    ensures
        in_branch(nodes, top, top as int),
        i != top && i > 0 ==> (in_branch(nodes, top, i as int) <==> in_branch(
            nodes,
            top,
            nodes[i as int].parent->0 as int,
        )),
        in_branch(nodes, top, 0) <==> top == 0,
        in_branch(nodes, top, i as int) ==> top <= i,
    decreases i,
{
    if i > 0 {
        law_branches(nodes, top, nodes[i as int].parent->0);
    }
}

/// What a branch leaves behind: every object outside of it stays, in the same order,
/// with its place, radius and marks and around the same object as before, and
/// nothing else is there.
pub proof fn law_pruning(nodes: Seq<Node>, top: usize, i: usize, j: usize)
    requires
        tidy(nodes),
        0 < top < nodes.len(),
        i < nodes.len(),
        j < nodes.len(),
        !in_branch(nodes, top, i as int),
        !in_branch(nodes, top, j as int),
    ensures
        ({
            let r = pruned(nodes, top);
            let a = nodes[i as int];
            let c = r[renumbered(nodes, top, i) as int];
            &&& tidy(r)
            &&& r.len() < nodes.len()
            &&& renumbered(nodes, top, i) < r.len()
            &&& renumbered(nodes, top, 0) == 0
            &&& i < j <==> renumbered(nodes, top, i) < renumbered(nodes, top, j)
            &&& c.pos == a.pos && c.radius == a.radius && c.traits == a.traits
            &&& i > 0 ==> !in_branch(nodes, top, a.parent->0 as int) && c.parent == Some(
                renumbered(nodes, top, a.parent->0),
            )
            &&& i == 0 ==> c.parent is None
            &&& forall|m: int|
                0 <= m < r.len() ==> exists|x: usize|
                    x < nodes.len() && !in_branch(nodes, top, x as int) && #[trigger] renumbered(
                        nodes,
                        top,
                        x,
                    ) == m && (#[trigger] r[m]).pos == nodes[x as int].pos
        }),
{
    let keep = outside(nodes, top);
    let n = nodes.len();
    let kept = crate::order::picked(n, keep);
    let s = survivors(nodes, top);
    let r = pruned(nodes, top);
    crate::order::lemma_picked(n, keep);
    lemma_pruned(nodes, top);
    lemma_compacted(s);
    lemma_only_ranks_change(s, by_rank(s));
    law_branches(nodes, top, i);
    law_branches(nodes, top, top);
    lemma_picked_prefix(i as nat, n, keep);
    lemma_picked_prefix(j as nat, n, keep);
    crate::order::lemma_picked(i as nat, keep);
    crate::order::lemma_picked(j as nat, keep);
    if i < j {
        lemma_picked_prefix(i as nat, j as nat, keep);
    } else if j < i {
        lemma_picked_prefix(j as nat, i as nat, keep);
    }
    assert(kept.len() < n) by {
        if kept.len() == n {
            lemma_full(kept, n);
            assert(kept.contains(top));
            assert(keep(top as int));
        }
    }
    assert forall|m: int| 0 <= m < r.len() implies exists|x: usize|
        x < nodes.len() && !in_branch(nodes, top, x as int) && #[trigger] renumbered(nodes, top, x)
            == m && (#[trigger] r[m]).pos == nodes[x as int].pos by {
        let x = kept[m];
        assert(keep(x as int));
        lemma_picked_prefix(x as nat, n, keep);
        crate::order::lemma_picked(x as nat, keep);
        let a = crate::order::picked(x as nat, keep).len() as int;
        assert(kept[a] == x);
        assert(a == m);
        assert(renumbered(nodes, top, x) == m);
    }
}

/// As many increasing indices as there are hold them all.
proof fn lemma_full(s: Seq<usize>, n: nat)
    requires
        s.len() == n,
        forall|i: int, j: int| 0 <= i < j < s.len() ==> s[i] < s[j],
        forall|i: int| 0 <= i < s.len() ==> (#[trigger] s[i]) < n,
    ensures
        forall|x: usize| x < n ==> s.contains(x),
{
    assert forall|i: int| 0 <= i < n implies (#[trigger] s[i]) == i by {
        lemma_at_least(s, i);
        lemma_at_most(s, n, i);
    }
    assert forall|x: usize| x < n implies s.contains(x) by {
        assert(s[x as int] == x);
    }
}

proof fn lemma_at_least(s: Seq<usize>, i: int)
    requires
        0 <= i < s.len(),
        forall|i: int, j: int| 0 <= i < j < s.len() ==> s[i] < s[j],
    ensures
        s[i] >= i,
    decreases i,
{
    if i > 0 {
        lemma_at_least(s, i - 1);
        assert(s[i - 1] < s[i]);
    }
}

proof fn lemma_at_most(s: Seq<usize>, n: nat, i: int)
    requires
        0 <= i < s.len(),
        s.len() == n,
        forall|i: int, j: int| 0 <= i < j < s.len() ==> s[i] < s[j],
        forall|i: int| 0 <= i < s.len() ==> (#[trigger] s[i]) < n,
    ensures
        s[i] <= i,
    decreases n - i,
{
    if i + 1 < n {
        lemma_at_most(s, n, i + 1);
        assert(s[i] < s[i + 1]);
    }
}

/// A fresh diagram is the centre alone, in the middle of the page and a little above
/// it, without radius or marks.
pub proof fn law_the_centre(c: Node)
    requires
        c == root_node(),
    ensures
        c.parent is None && c.orbit_rank == 0 && !c.traits.star && !c.traits.rings,
        c.radius@ == crate::number::Real::Finite(0),
        c.pos.x@ matches crate::number::Real::Finite(x) && 2 * x == crate::number::unit(),
        c.pos.y@ matches crate::number::Real::Finite(y) && y * 0x80_0000 * 20 <= (9 * 0x80_0000 + 3)
            * crate::number::unit() && y * 0x80_0000 * 20 >= (9 * 0x80_0000 - 3)
            * crate::number::unit(),
        c.caption() == "C"@,
{
    crate::number::lemma_bounds();
    vstd::arithmetic::power2::lemma2_to64();
    vstd::arithmetic::power2::lemma2_to64_rest();
    vstd::arithmetic::power2::lemma_pow2_pos(1074);
    crate::number::lemma_value(c.pos.x, 53, 0x20_0000_0000_0000);
    crate::number::lemma_value(c.pos.y, 54, 0x40_0000_0000_0000);
    let m = 0x10_0000_0000_0000 + c.pos.y.bits as int % 0x10_0000_0000_0000;
    let y = c.pos.y@->0;
    let u = crate::number::unit();
    assert(m == 0x1C_CCCC_C000_0000);
    assert(y * 0x80_0000 * 20 <= (9 * 0x80_0000 + 3) * u && y * 0x80_0000 * 20 >= (9 * 0x80_0000
        - 3) * u) by (nonlinear_arith)
        requires
            y * 0x40_0000_0000_0000 == m * u,
            m == 0x1C_CCCC_C000_0000,
            u > 0,
    ;
}

/// An orbiting object is captioned with its rank counted from one.
pub proof fn law_captions(n: Node)
    ensures
        n.parent is None <==> n.caption() == "C"@,
        n.parent is Some ==> crate::text::all_digits(n.caption()) && crate::text::numeral_value(
            n.caption(),
        ) == n.orbit_rank + 1,
{
    reveal_strlit("C");
    crate::text::law_numerals((n.orbit_rank + 1) as nat);
    if n.parent is Some {
        assert(crate::text::is_digit(n.caption()[0]));
        assert("C"@[0] == 'C');
    }
}

/// Two places are the same when their numbers are, whatever their patterns.
pub proof fn law_same_places(a: Point, b: Point)
    ensures
        a.same(b) <==> a.x@ == b.x@ && a.y@ == b.y@ && a.x@ !is NotANumber && a.y@ !is NotANumber,
{
}

/// The tree of a diagram: each object is a child of its parent and of no other, the
/// children from inner to outer, and carries its own marks.
pub proof fn law_the_tree_of_a_diagram(nodes: Seq<Node>, i: usize, j: usize)
    requires
        tidy(nodes),
        i < nodes.len(),
        j < nodes.len(),
    ensures
        ({
            let t = tree(nodes);
            &&& t.root == 0
            &&& t.size() == nodes.len()
            &&& t.traits[i as int] == nodes[i as int].traits
            &&& t.children[i as int].contains(j) <==> nodes[j as int].parent == Some(i)
            &&& nodes[j as int].parent == Some(i) ==> t.children[i as int][nodes[j as int].orbit_rank as int]
                == j
        }),
{
    let t = tree(nodes);
    let n = nodes.len();
    let traits = Seq::new(n, |k: int| nodes[k].traits);
    crate::topology::law_ordered_trees(parents(nodes), ranks(nodes), traits, i, j);
    lemma_family(nodes, i);
    assert(t.children[i as int] == siblings(nodes, i));
    let g = siblings(nodes, i);
    if nodes[j as int].parent == Some(i) {
        assert(g.contains(j));
        let u = choose|u: int| 0 <= u < g.len() && g[u] == j;
        assert(nodes[g[u] as int].orbit_rank == u);
    }
    assert(parents(nodes)[0] is None);
}

} // verus!
