//! Keys, and the rectangles that a pointer is held against.
use crate::number::Number;
use vstd::prelude::*;

verus! {

/// The keys that the program answers to.
#[derive(Clone, Copy, Debug, PartialEq, Eq, Structural)]
pub enum Key {
    Escape,
    Enter,
    Tab,
    Space,
    Delete,
    ArrowLeft,
    ArrowRight,
    PageUp,
    PageDown,
    A,
    E,
    H,
    L,
    M,
    N,
    O,
    R,
    S,
    T,
    U,
    V,
    X,
    Y,
    Z,
    Comma,
    Period,
    Equal,
    Minus,
    NumpadAdd,
    NumpadSubtract,
    BracketLeft,
    BracketRight,
    /// A digit above the letters, 0 to 9.
    Digit(u8),
    /// A function key, from 1.
    Function(u8),
    Other,
}

/// A place on the window, in pixels.
#[derive(Clone, Copy, Debug, PartialEq, Eq, Structural)]
pub struct Cursor {
    pub x: Number,
    pub y: Number,
}

/// A rectangle by its edges, in pixels.
#[derive(Clone, Copy, Debug, PartialEq, Eq, Structural)]
pub struct Rect {
    pub left: Number,
    pub top: Number,
    pub right: Number,
    pub bottom: Number,
}

impl Rect {
    /// Edges belong to the rectangle.
    pub open spec fn holds(self, at: Cursor) -> bool {
        &&& self.left@.le(at.x@)
        &&& at.x@.le(self.right@)
        &&& self.top@.le(at.y@)
        &&& at.y@.le(self.bottom@)
    }

    pub fn contains(&self, at: Cursor) -> (r: bool)
        ensures
            r == self.holds(at),
    {
        self.left.at_most(at.x) && at.x.at_most(self.right) && self.top.at_most(at.y)
            && at.y.at_most(self.bottom)
    }
}

/// Index of the first rectangle, from `from` on, that holds the place.
pub open spec fn first_at(rects: Seq<Rect>, at: Cursor, from: nat) -> Option<usize>
    decreases rects.len() - from,
{
    if from >= rects.len() {
        None
    } else if rects[from as int].holds(at) {
        Some(from as usize)
    } else {
        first_at(rects, at, from + 1)
    }
}

/// The first rectangle that holds the place.
pub fn position<const N: usize>(rects: &[Rect; N], at: Cursor) -> (r: Option<usize>)
    ensures
        r == first_at(rects@, at, 0),
        r matches Some(i) ==> i < N,
{
    let mut i: usize = 0;
    while i < N
        invariant
            i <= N,
            rects@.len() == N,
            first_at(rects@, at, 0) == first_at(rects@, at, i as nat),
        decreases N - i,
    {
        if rects[i].contains(at) {
            return Some(i);
        }
        i += 1;
    }
    None
}

/// Index of the last mark that is set.
pub open spec fn last_marked(marks: Seq<bool>) -> Option<usize>
    decreases marks.len(),
{
    if marks.len() == 0 {
        None
    } else if marks.last() {
        Some((marks.len() - 1) as usize)
    } else {
        last_marked(marks.drop_last())
    }
}

/// The last mark that is set, which is drawn on top.
pub fn topmost(marks: &Vec<bool>) -> (r: Option<usize>)
    ensures
        r == last_marked(marks@),
        r matches Some(i) ==> i < marks@.len(),
{
    let mut n: usize = marks.len();
    assert(marks@.take(n as int) =~= marks@);
    while n > 0
        invariant
            n <= marks@.len(),
            last_marked(marks@) == last_marked(marks@.take(n as int)),
        decreases n,
    {
        assert(marks@.take(n as int).drop_last() =~= marks@.take(n - 1));
        if marks[n - 1] {
            return Some(n - 1);
        }
        n -= 1;
    }
    None
}

/// The first rectangle under a place is the one that is found: it holds the place
/// and none before it does, and there is none only where no rectangle does.
pub proof fn law_first_rectangle(rects: Seq<Rect>, at: Cursor)
    requires
        rects.len() <= usize::MAX,
    ensures
        match first_at(rects, at, 0) {
            Some(i) => i < rects.len() && rects[i as int].holds(at) && forall|j: int|
                0 <= j < i ==> !(#[trigger] rects[j]).holds(at),
            None => forall|j: int| 0 <= j < rects.len() ==> !(#[trigger] rects[j]).holds(at),
        },
{
    lemma_first_at(rects, at, 0);
}

proof fn lemma_first_at(rects: Seq<Rect>, at: Cursor, from: nat)
    requires
        from <= rects.len() <= usize::MAX,
    ensures
        match first_at(rects, at, from) {
            Some(i) => from <= i < rects.len() && rects[i as int].holds(at) && forall|j: int|
                from <= j < i ==> !(#[trigger] rects[j]).holds(at),
            None => forall|j: int| from <= j < rects.len() ==> !(#[trigger] rects[j]).holds(at),
        },
    decreases rects.len() - from,
{
    if from < rects.len() {
        lemma_first_at(rects, at, from + 1);
    }
}

/// What lies on top is the last of the marks: it is set and none behind it is, and
/// there is none only where no mark is set.
pub proof fn law_last_mark(marks: Seq<bool>)
    requires
        marks.len() <= usize::MAX,
    ensures
        match last_marked(marks) {
            Some(i) => i < marks.len() && marks[i as int] && forall|j: int|
                i < j < marks.len() ==> !#[trigger] marks[j],
            None => forall|j: int| 0 <= j < marks.len() ==> !#[trigger] marks[j],
        },
    decreases marks.len(),
{
    if marks.len() > 0 {
        law_last_mark(marks.drop_last());
        assert forall|j: int| 0 <= j < marks.len() - 1 implies #[trigger] marks[j]
            == marks.drop_last()[j] by {}
    }
}

/// A place lies in a rectangle exactly when it is neither left of it, right of it,
/// above nor below it; the edges are inside.
pub proof fn law_edges_are_inside(r: Rect, at: Cursor, x: int, y: int, edges: (int, int, int, int))
    requires
        at.x@ == crate::number::Real::Finite(x),
        at.y@ == crate::number::Real::Finite(y),
        r.left@ == crate::number::Real::Finite(edges.0),
        r.top@ == crate::number::Real::Finite(edges.1),
        r.right@ == crate::number::Real::Finite(edges.2),
        r.bottom@ == crate::number::Real::Finite(edges.3),
    ensures
        r.holds(at) <==> edges.0 <= x <= edges.2 && edges.1 <= y <= edges.3,
{
}

} // verus!
