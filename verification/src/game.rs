//! Orbital-tree puzzle: the notebook in which a theory is drawn, edited,
//! checked and taken back.
use crate::board::{
    duplicate, fresh, grow, prune, shift, sibling_list, topology, Node, Point, MAX_NODES,
};
use crate::input::{position, topmost, Cursor, Key, Rect};
use crate::number::Number;
use crate::sim::{Scene, SceneView};
use crate::topology::{score, Score, Topology, Traits};
use vstd::prelude::*;
use vstd::string::StringExecFns;

verus! {

/// How many edits can be taken back.
pub const HISTORY: usize = 100;

/// A theory as an edit found it.
#[derive(Debug)]
pub struct Snapshot {
    pub nodes: Vec<Node>,
    pub viewer: Option<usize>,
    pub selected: usize,
}

pub struct SnapshotView {
    pub nodes: Seq<Node>,
    pub viewer: Option<usize>,
    pub selected: usize,
}

impl View for Snapshot {
    type V = SnapshotView;

    open spec fn view(&self) -> SnapshotView {
        SnapshotView { nodes: self.nodes@, viewer: self.viewer, selected: self.selected }
    }
}

impl SnapshotView {
    /// The diagram is tidy, and selection and viewer are objects of it.
    pub open spec fn well_formed(self) -> bool {
        &&& crate::board::tidy(self.nodes)
        &&& self.selected < self.nodes.len()
        &&& (self.viewer matches Some(v) ==> v < self.nodes.len())
    }
}

#[derive(Debug)]
pub struct Game {
    pub open: bool,
    pub nodes: Vec<Node>,
    pub selected: usize,
    pub viewer: Option<usize>,
    pub dragging: Option<usize>,
    pub drag_saved: bool,
    pub undo: Vec<Snapshot>,
    pub redo: Vec<Snapshot>,
    pub confirm_clear: bool,
    pub score: Option<Score>,
    pub message: String,
}

#[verifier::ext_equal]
pub struct GameView {
    pub open: bool,
    pub nodes: Seq<Node>,
    pub selected: usize,
    pub viewer: Option<usize>,
    pub dragging: Option<usize>,
    pub drag_saved: bool,
    pub undo: Seq<SnapshotView>,
    pub redo: Seq<SnapshotView>,
    pub confirm_clear: bool,
    pub score: Option<Score>,
    pub message: Seq<char>,
}

pub open spec fn snapshots(v: Seq<Snapshot>) -> Seq<SnapshotView> {
    v.map_values(|s: Snapshot| s@)
}

impl View for Game {
    type V = GameView;

    open spec fn view(&self) -> GameView {
        GameView {
            open: self.open,
            nodes: self.nodes@,
            selected: self.selected,
            viewer: self.viewer,
            dragging: self.dragging,
            drag_saved: self.drag_saved,
            undo: snapshots(self.undo@),
            redo: snapshots(self.redo@),
            confirm_clear: self.confirm_clear,
            score: self.score,
            message: self.message@,
        }
    }
}

/// What the notebook's controls cover.
#[derive(Debug)]
pub struct Layout {
    pub toggle: Rect,
    pub maps: Rect,
    pub canvas: Rect,
    /// Redo, viewer, delete, undo, check, clear.
    pub buttons: [Rect; 6],
    /// Star, rings.
    pub traits: [Rect; 2],
    pub confirm: Rect,
    pub cancel: Rect,
}

/// The pointer, and where it stands on the diagram.
#[derive(Debug)]
pub struct Pointer {
    pub at: Cursor,
    /// The pointer's place on the diagram, kept off the margin.
    pub place: Point,
    /// Which objects the pointer is over.
    pub over: Vec<bool>,
    /// How far `place` lies from each object.
    pub reach: Vec<Number>,
}

impl Pointer {
    /// It speaks of every object of a diagram of `count`.
    pub open spec fn covers(self, count: nat) -> bool {
        self.over@.len() == count && self.reach@.len() == count
    }
}

impl GameView {
    /// The theory as it stands.
    pub open spec fn snapshot(self) -> SnapshotView {
        SnapshotView { nodes: self.nodes, viewer: self.viewer, selected: self.selected }
    }

    pub open spec fn well_formed(self) -> bool {
        &&& self.snapshot().well_formed()
        &&& (self.dragging matches Some(i) ==> i < self.nodes.len())
        &&& self.undo.len() + self.redo.len() <= HISTORY
        &&& forall|i: int| 0 <= i < self.undo.len() ==> (#[trigger] self.undo[i]).well_formed()
        &&& forall|i: int| 0 <= i < self.redo.len() ==> (#[trigger] self.redo[i]).well_formed()
    }

    pub open spec fn with_message(self, message: Seq<char>) -> GameView {
        GameView { message, ..self }
    }

    pub open spec fn initial() -> GameView {
        GameView {
            open: false,
            nodes: seq![crate::board::root_node()],
            selected: 0,
            viewer: None,
            dragging: None,
            drag_saved: false,
            undo: Seq::empty(),
            redo: Seq::empty(),
            confirm_clear: false,
            score: None,
            message: "Select a parent, then right-click empty space to add. [N] also adds at the cursor."@,
        }
    }

    /// The theory goes on the undo stack, which forgets its oldest entry when
    /// full; what was undone can no longer be redone.
    pub open spec fn saved(self) -> GameView {
        let kept = if self.undo.len() == HISTORY {
            self.undo.remove(0)
        } else {
            self.undo
        };
        GameView { undo: kept.push(self.snapshot()), redo: Seq::empty(), score: None, ..self }
    }

    pub open spec fn released(self) -> GameView {
        GameView { dragging: None, drag_saved: false, ..self }
    }

    pub open spec fn toggled(self) -> GameView {
        GameView { confirm_clear: false, open: !self.open, ..self }.released()
    }

    /// An object added around the selected one, and selected itself.
    pub open spec fn added(self, pos: Point, radius: Number) -> GameView {
        if self.nodes.len() >= MAX_NODES {
            self
        } else {
            GameView {
                nodes: crate::board::grown(self.nodes, self.selected, pos, radius),
                selected: self.nodes.len() as usize,
                message: "Added. Distance from its parent sets the orbit order."@,
                ..self.saved()
            }
        }
    }

    /// The selected branch deleted; the centre stays.
    pub open spec fn deleted(self) -> GameView {
        if self.selected == 0 {
            self.with_message(
                "The centre stays. Select an orbiting object to delete its branch."@,
            )
        } else {
            GameView {
                nodes: crate::board::pruned(self.nodes, self.selected),
                selected: 0,
                viewer: match self.viewer {
                    Some(v) => if crate::board::in_branch(self.nodes, self.selected, v as int) {
                        None
                    } else {
                        Some(crate::board::renumbered(self.nodes, self.selected, v))
                    },
                    None => None,
                },
                message: "Branch deleted. Undo restores it."@,
                ..self.saved()
            }
        }
    }

    pub open spec fn undone(self) -> GameView {
        let g = self.released();
        if self.undo.len() == 0 {
            g
        } else {
            GameView {
                nodes: self.undo.last().nodes,
                viewer: self.undo.last().viewer,
                selected: self.undo.last().selected,
                undo: self.undo.drop_last(),
                redo: self.redo.push(self.snapshot()),
                score: None,
                message: "Edit undone."@,
                ..g
            }
        }
    }

    pub open spec fn redone(self) -> GameView {
        let g = self.released();
        if self.redo.len() == 0 {
            g
        } else {
            GameView {
                nodes: self.redo.last().nodes,
                viewer: self.redo.last().viewer,
                selected: self.redo.last().selected,
                redo: self.redo.drop_last(),
                undo: self.undo.push(self.snapshot()),
                score: None,
                message: "Edit redone."@,
                ..g
            }
        }
    }

    pub open spec fn cleared(self) -> GameView {
        GameView {
            nodes: seq![crate::board::root_node()],
            selected: 0,
            viewer: None,
            confirm_clear: false,
            message: "Theory cleared. Undo [Z] restores everything."@,
            ..self.saved().released()
        }
    }

    pub open spec fn viewing(self) -> GameView {
        GameView {
            viewer: Some(self.selected),
            message: "Viewer placed on the selected object."@,
            ..self.saved()
        }
    }

    /// The theory compared with the scene; a viewer is required first.
    pub open spec fn checked(self, scene: SceneView) -> GameView {
        match self.viewer {
            Some(viewer) => GameView {
                score: Some(
                    crate::topology::scored(
                        crate::board::tree(self.nodes),
                        viewer,
                        crate::topology::scene_tree(scene),
                        scene.host,
                    ),
                ),
                message: "Edit your theory and check again, or return to observing."@,
                ..self
            },
            None => self.with_message(
                "Select an object and choose Viewer here [V] before checking."@,
            ),
        }
    }

    /// The button with that number pressed.
    pub open spec fn acted(self, action: usize, scene: SceneView) -> GameView {
        let g = self.released();
        if action == 0 {
            g.redone()
        } else if action == 1 {
            g.viewing()
        } else if action == 2 {
            g.deleted()
        } else if action == 3 {
            g.undone()
        } else if action == 4 {
            g.checked(scene)
        } else {
            GameView { confirm_clear: true, ..g }
        }
    }

    /// Star (0) or rings switched on the selected object.
    pub open spec fn trait_toggled(self, property: usize) -> GameView {
        let node = self.nodes[self.selected as int];
        let traits = if property == 0 {
            Traits { star: !node.traits.star, ..node.traits }
        } else {
            Traits { rings: !node.traits.rings, ..node.traits }
        };
        GameView {
            nodes: self.nodes.update(self.selected as int, Node { traits, ..node }),
            message: "Object updated. Gold rays mark stars; an oval marks rings."@,
            ..self.released().saved()
        }
    }

    /// On the canvas a right click selects an object or adds one.
    pub open spec fn right_clicked(self, l: Layout, p: Pointer) -> GameView {
        if !self.open || self.confirm_clear || !l.canvas.holds(p.at) {
            self
        } else {
            let g = self.released();
            match crate::input::last_marked(p.over@) {
                Some(i) => GameView { selected: i, ..g },
                None => if self.nodes.len() < MAX_NODES {
                    g.added(p.place, p.reach@[self.selected as int])
                } else {
                    g.with_message(
                        "Diagram limit: 64 objects. Delete a branch to make room."@,
                    )
                },
            }
        }
    }

    pub open spec fn keyed(self, key: Key, l: Layout, p: Pointer, scene: SceneView) -> GameView {
        if self.confirm_clear {
            match key {
                Key::Enter => self.cleared(),
                Key::Escape => GameView { confirm_clear: false, ..self },
                _ => self,
            }
        } else {
            match key {
                Key::N => self.right_clicked(l, p),
                Key::V => self.acted(1, scene),
                Key::Delete => self.acted(2, scene),
                Key::Z => self.acted(3, scene),
                Key::Y => self.acted(0, scene),
                Key::Enter => self.acted(4, scene),
                Key::X => self.acted(5, scene),
                Key::S => self.trait_toggled(0),
                Key::R => self.trait_toggled(1),
                _ => self,
            }
        }
    }

    /// Whether a click is the notebook's.
    pub open spec fn takes(self, l: Layout, p: Pointer) -> bool {
        self.confirm_clear || self.open || l.toggle.holds(p.at)
    }

    pub open spec fn clicked(self, l: Layout, p: Pointer, scene: SceneView) -> GameView {
        if self.confirm_clear {
            if l.confirm.holds(p.at) {
                self.cleared()
            } else if l.cancel.holds(p.at) {
                GameView { confirm_clear: false, ..self }
            } else {
                self
            }
        } else if l.toggle.holds(p.at) {
            self.toggled()
        } else if !self.open {
            self
        } else if let Some(property) = crate::input::first_at(l.traits@, p.at, 0) {
            self.trait_toggled(property)
        } else if let Some(action) = crate::input::first_at(l.buttons@, p.at, 0) {
            self.acted(action, scene)
        } else if l.canvas.holds(p.at) {
            match crate::input::last_marked(p.over@) {
                Some(i) => GameView {
                    selected: i,
                    dragging: Some(i),
                    drag_saved: false,
                    ..self
                },
                None => self,
            }
        } else {
            self
        }
    }

    /// The dragged object follows the pointer; the first step of a drag is
    /// what an undo returns to.
    pub open spec fn moved(self, p: Pointer) -> GameView {
        match self.dragging {
            Some(i) => if self.confirm_clear || self.nodes[i as int].pos.same(p.place) {
                self
            } else {
                let g = if self.drag_saved {
                    self
                } else {
                    self.saved()
                };
                GameView {
                    drag_saved: true,
                    nodes: crate::board::reordered(
                        crate::board::shifted(self.nodes, i, p.place, p.reach@),
                    ),
                    message: "Orbit order follows distance from each parent. Undo restores this drag."@,
                    ..g
                }
            },
            None => self,
        }
    }
}

impl Default for Game {
    fn default() -> (r: Self)
        ensures
            r@ == GameView::initial(),
            r@.well_formed(),
    {
        let r = Game {
            open: false,
            nodes: fresh(),
            selected: 0,
            viewer: None,
            dragging: None,
            drag_saved: false,
            undo: Vec::new(),
            redo: Vec::new(),
            confirm_clear: false,
            score: None,
            message: String::from_str(
                "Select a parent, then right-click empty space to add. [N] also adds at the cursor.",
            ),
        };
        assert(r@ =~= GameView::initial());
        r
    }
}

impl Game {
    /// Puts the theory on the undo stack before an edit.
    pub fn save(&mut self)
        requires
            old(self)@.well_formed(),
        ensures
            final(self)@ == old(self)@.saved(),
            final(self)@.well_formed(),
    {
        let ghost before = self@;
        self.redo.clear();
        if self.undo.len() == HISTORY {
            self.undo.remove(0);
            assert(snapshots(self.undo@) =~= before.undo.remove(0));
        }
        let ghost kept = self.undo@;
        self.undo.push(
            Snapshot {
                nodes: duplicate(&self.nodes),
                viewer: self.viewer,
                selected: self.selected,
            },
        );
        self.score = None;
        assert(snapshots(self.undo@) =~= snapshots(kept).push(before.snapshot()));
        assert(snapshots(self.redo@) =~= Seq::<SnapshotView>::empty());
        assert(self@ =~= before.saved());
    }

    pub fn toggle(&mut self)
        requires
            old(self)@.well_formed(),
        ensures
            final(self)@ == old(self)@.toggled(),
            final(self)@.well_formed(),
    {
        self.confirm_clear = false;
        self.open = !self.open;
        self.release();
    }

    pub fn release(&mut self)
        ensures
            final(self)@ == old(self)@.released(),
            old(self)@.well_formed() ==> final(self)@.well_formed(),
    {
        self.dragging = None;
        self.drag_saved = false;
    }

    /// Adds an object around the selected one, `radius` away from it.
    pub fn add(&mut self, pos: Point, radius: Number)
        requires
            old(self)@.well_formed(),
        ensures
            final(self)@ == old(self)@.added(pos, radius),
            final(self)@.well_formed(),
    {
        if self.nodes.len() >= MAX_NODES {
            return;
        }
        self.save();
        let parent: usize = self.selected;
        grow(&mut self.nodes, parent, pos, radius);
        self.selected = self.nodes.len() - 1;
        self.message = String::from_str("Added. Distance from its parent sets the orbit order.");
        assert(self@ =~= old(self)@.added(pos, radius));
    }

    /// Deletes the selected branch.
    pub fn delete(&mut self)
        requires
            old(self)@.well_formed(),
        ensures
            final(self)@ == old(self)@.deleted(),
            old(self)@.dragging is None ==> final(self)@.well_formed(),
    {
        if self.selected == 0 {
            self.message = String::from_str(
                "The centre stays. Select an orbiting object to delete its branch.",
            );
            return;
        }
        self.save();
        let top: usize = self.selected;
        let (removed, indices) = prune(&mut self.nodes, top);
        self.viewer = match self.viewer {
            Some(v) => if removed[v] {
                None
            } else {
                Some(indices[v])
            },
            None => None,
        };
        self.selected = 0;
        self.message = String::from_str("Branch deleted. Undo restores it.");
        assert(self@ =~= old(self)@.deleted());
    }

    /// The children of `parent`, from inner to outer orbit.
    pub fn siblings(&self, parent: usize) -> (r: Vec<usize>)
        requires
            self@.well_formed(),
        ensures
            r@ == crate::board::siblings(self@.nodes, parent),
    {
        sibling_list(&self.nodes, parent)
    }

    /// The tree that the theory shows.
    pub fn topology(&self) -> (r: Topology)
        requires
            self@.well_formed(),
        ensures
            r@ == crate::board::tree(self@.nodes),
            r@.well_formed(),
            r@.connected(),
    {
        topology(&self.nodes)
    }

    /// Takes the last edit back, or makes it again.
    pub fn history(&mut self, redo: bool)
        requires
            old(self)@.well_formed(),
        ensures
            final(self)@ == (if redo {
                old(self)@.redone()
            } else {
                old(self)@.undone()
            }),
            final(self)@.well_formed(),
    {
        let ghost before = self@;
        self.release();
        let snapshot = if redo {
            self.redo.pop()
        } else {
            self.undo.pop()
        };
        if let Some(found) = snapshot {
            let mut nodes = found.nodes;
            std::mem::swap(&mut self.nodes, &mut nodes);
            let current = Snapshot { nodes, viewer: self.viewer, selected: self.selected };
            assert(current@ == before.snapshot());
            if redo {
                assert(found@ == before.redo.last());
                self.undo.push(current);
                assert(snapshots(self.undo@) =~= before.undo.push(before.snapshot()));
                assert(snapshots(self.redo@) =~= before.redo.drop_last());
            } else {
                assert(found@ == before.undo.last());
                self.redo.push(current);
                assert(snapshots(self.redo@) =~= before.redo.push(before.snapshot()));
                assert(snapshots(self.undo@) =~= before.undo.drop_last());
            }
            self.viewer = found.viewer;
            self.selected = found.selected;
            self.score = None;
            self.message = if redo {
                String::from_str("Edit redone.")
            } else {
                String::from_str("Edit undone.")
            };
            assert(self@ =~= (if redo {
                before.redone()
            } else {
                before.undone()
            }));
        }
    }

    fn clear(&mut self)
        requires
            old(self)@.well_formed(),
        ensures
            final(self)@ == old(self)@.cleared(),
            final(self)@.well_formed(),
    {
        self.save();
        self.release();
        self.nodes = fresh();
        self.selected = 0;
        self.viewer = None;
        self.confirm_clear = false;
        self.message = String::from_str("Theory cleared. Undo [Z] restores everything.");
        assert(self@ =~= old(self)@.cleared());
    }

    /// Presses the button with that number.
    pub fn action(&mut self, action: usize, scene: &Scene)
        requires
            old(self)@.well_formed(),
            action < 6,
            crate::topology::parents_valid(crate::topology::scene_parents(scene@)),
        ensures
            final(self)@ == old(self)@.acted(action, scene@),
            final(self)@.well_formed(),
    {
        self.release();
        if action == 0 {
            self.history(true);
        } else if action == 1 {
            self.save();
            self.viewer = Some(self.selected);
            self.message = String::from_str("Viewer placed on the selected object.");
        } else if action == 2 {
            self.delete();
        } else if action == 3 {
            self.history(false);
        } else if action == 4 {
            if let Some(viewer) = self.viewer {
                let guess = self.topology();
                let truth = Topology::from_scene(scene);
                self.score = Some(score(&guess, viewer, &truth, scene.host));
                self.message = String::from_str(
                    "Edit your theory and check again, or return to observing.",
                );
            } else {
                self.message = String::from_str(
                    "Select an object and choose Viewer here [V] before checking.",
                );
            }
        } else {
            self.confirm_clear = true;
        }
        assert(self@ =~= old(self)@.acted(action, scene@));
    }

    /// Switches a trait of the selected object: star (0) or rings.
    pub fn toggle_trait(&mut self, property: usize)
        requires
            old(self)@.well_formed(),
        ensures
            final(self)@ == old(self)@.trait_toggled(property),
            final(self)@.well_formed(),
    {
        self.release();
        self.save();
        let i: usize = self.selected;
        let node = self.nodes[i];
        let traits = if property == 0 {
            Traits { star: !node.traits.star, rings: node.traits.rings }
        } else {
            Traits { star: node.traits.star, rings: !node.traits.rings }
        };
        self.nodes.set(
            i,
            Node {
                parent: node.parent,
                pos: node.pos,
                radius: node.radius,
                orbit_rank: node.orbit_rank,
                traits,
            },
        );
        self.message = String::from_str(
            "Object updated. Gold rays mark stars; an oval marks rings.",
        );
        proof {
            crate::board::lemma_traits_do_not_order(
                old(self)@.nodes,
                i as int,
                traits,
            );
        }
        assert(self@ =~= old(self)@.trait_toggled(property));
    }

    pub fn right_click(&mut self, l: &Layout, p: &Pointer)
        requires
            old(self)@.well_formed(),
            p.covers(old(self)@.nodes.len()),
        ensures
            final(self)@ == old(self)@.right_clicked(*l, *p),
            final(self)@.well_formed(),
    {
        if !self.open || self.confirm_clear || !l.canvas.contains(p.at) {
            return;
        }
        self.release();
        if let Some(i) = topmost(&p.over) {
            self.selected = i;
        } else if self.nodes.len() < MAX_NODES {
            let radius: Number = p.reach[self.selected];
            self.add(p.place, radius);
        } else {
            self.message = String::from_str(
                "Diagram limit: 64 objects. Delete a branch to make room.",
            );
        }
        assert(self@ =~= old(self)@.right_clicked(*l, *p));
    }

    pub fn key(&mut self, key: Key, l: &Layout, p: &Pointer, scene: &Scene)
        requires
            old(self)@.well_formed(),
            p.covers(old(self)@.nodes.len()),
            crate::topology::parents_valid(crate::topology::scene_parents(scene@)),
        ensures
            final(self)@ == old(self)@.keyed(key, *l, *p, scene@),
            final(self)@.well_formed(),
    {
        if self.confirm_clear {
            match key {
                Key::Enter => self.clear(),
                Key::Escape => {
                    self.confirm_clear = false;
                },
                _ => {},
            }
            return;
        }
        match key {
            Key::N => self.right_click(l, p),
            Key::V => self.action(1, scene),
            Key::Delete => self.action(2, scene),
            Key::Z => self.action(3, scene),
            Key::Y => self.action(0, scene),
            Key::Enter => self.action(4, scene),
            Key::X => self.action(5, scene),
            Key::S => self.toggle_trait(0),
            Key::R => self.toggle_trait(1),
            _ => {},
        }
    }

    /// Modal editor clicks never leak into the observing view.
    pub fn click(&mut self, l: &Layout, p: &Pointer, scene: &Scene) -> (r: bool)
        requires
            old(self)@.well_formed(),
            p.covers(old(self)@.nodes.len()),
            crate::topology::parents_valid(crate::topology::scene_parents(scene@)),
        ensures
            final(self)@ == old(self)@.clicked(*l, *p, scene@),
            final(self)@.well_formed(),
            r == old(self)@.takes(*l, *p),
    {
        if self.confirm_clear {
            if l.confirm.contains(p.at) {
                self.clear();
            } else if l.cancel.contains(p.at) {
                self.confirm_clear = false;
            }
            return true;
        }
        if l.toggle.contains(p.at) {
            self.toggle();
            return true;
        }
        if !self.open {
            return false;
        }
        if let Some(property) = position(&l.traits, p.at) {
            self.toggle_trait(property);
        } else if let Some(action) = position(&l.buttons, p.at) {
            self.action(action, scene);
        } else if l.canvas.contains(p.at) {
            if let Some(i) = topmost(&p.over) {
                self.selected = i;
                self.dragging = Some(i);
                self.drag_saved = false;
            }
        }
        assert(self@ =~= old(self)@.clicked(*l, *p, scene@));
        true
    }

    pub fn motion(&mut self, p: &Pointer)
        requires
            old(self)@.well_formed(),
            p.covers(old(self)@.nodes.len()),
        ensures
            final(self)@ == old(self)@.moved(*p),
            final(self)@.well_formed(),
    {
        if self.confirm_clear {
            return;
        }
        if let Some(i) = self.dragging {
            if self.nodes[i].pos.equals(p.place) {
                return;
            }
            if !self.drag_saved {
                self.save();
                self.drag_saved = true;
            }
            shift(&mut self.nodes, i, p.place, &p.reach);
            self.message = String::from_str(
                "Orbit order follows distance from each parent. Undo restores this drag.",
            );
            assert(self@ =~= old(self)@.moved(*p));
        }
    }
}

/// How one object of the diagram is drawn.
#[derive(Debug)]
pub struct Mark {
    pub label: String,
    pub parent: Option<usize>,
    pub traits: Traits,
    /// Ringed as the selected object.
    pub selected: bool,
    /// Captioned "YOU".
    pub viewer: bool,
}

impl GameView {
    /// Whether `m` draws object `i`.
    pub open spec fn drawn(self, i: int, m: Mark) -> bool {
        &&& m.label@ == self.nodes[i].caption()
        &&& m.parent == self.nodes[i].parent
        &&& m.traits == self.nodes[i].traits
        &&& m.selected == (i == self.selected)
        &&& m.viewer == (self.viewer matches Some(v) && v == i)
    }

    /// The line under the diagram, given the three numbers as text.
    pub open spec fn summary(
        self,
        total: Seq<char>,
        orbits: Seq<char>,
        traits: Seq<char>,
    ) -> Seq<char> {
        match self.score {
            Some(score) => "Score: "@ + total + "/100  Orbits: "@ + orbits + "%  Traits: "@ + traits
                + "%  Viewer: "@ + (if score.viewer {
                "matches"@
            } else {
                "does not match"@
            }),
            None =>
            "60% ordered structure + 20% star/ring traits + 20% viewer. Orbit 1 = innermost."@,
        }
    }
}

impl Game {
    /// How the diagram is drawn, object by object.
    pub fn marks(&self) -> (r: Vec<Mark>)
        requires
            self@.well_formed(),
        ensures
            r@.len() == self@.nodes.len(),
            forall|i: int| 0 <= i < r@.len() ==> self@.drawn(i, #[trigger] r@[i]),
    {
        let mut r: Vec<Mark> = Vec::new();
        let mut i: usize = 0;
        while i < self.nodes.len()
            invariant
                self@.well_formed(),
                i <= self@.nodes.len(),
                r@.len() == i,
                forall|j: int| 0 <= j < i ==> self@.drawn(j, #[trigger] r@[j]),
            decreases self.nodes.len() - i,
        {
            let node = self.nodes[i];
            proof {
                if i > 0 {
                    crate::board::law_ranks_identify_siblings(self@.nodes, i, i);
                }
            }
            let label = if i == 0 {
                String::from_str("C")
            } else {
                node.label()
            };
            let viewer = match self.viewer {
                Some(v) => v == i,
                None => false,
            };
            r.push(
                Mark {
                    label,
                    parent: node.parent,
                    traits: node.traits,
                    selected: i == self.selected,
                    viewer,
                },
            );
            i += 1;
        }
        r
    }

    /// The line under the diagram: the score, or how one is made up.
    pub fn score_line(&self, total: &str, orbits: &str, traits: &str) -> (r: String)
        ensures
            r@ == self@.summary(total@, orbits@, traits@),
    {
        match self.score {
            Some(score) => {
                let mut r = String::from_str("Score: ");
                r.append(total);
                r.append("/100  Orbits: ");
                r.append(orbits);
                r.append("%  Traits: ");
                r.append(traits);
                r.append("%  Viewer: ");
                r.append(if score.viewer {
                    "matches"
                } else {
                    "does not match"
                });
                r
            },
            None => String::from_str(
                "60% ordered structure + 20% star/ring traits + 20% viewer. Orbit 1 = innermost.",
            ),
        }
    }
}

/// What reaches the notebook.
pub enum Input {
    Toggle,
    Release,
    RightClick(Layout, Pointer),
    Key(Key, Layout, Pointer),
    Click(Layout, Pointer),
    Motion(Pointer),
}

impl GameView {
    /// The notebook's answer to an input, over that scene.
    pub open spec fn answered(self, input: Input, scene: SceneView) -> GameView {
        match input {
            Input::Toggle => self.toggled(),
            Input::Release => self.released(),
            Input::RightClick(l, p) => self.right_clicked(l, p),
            Input::Key(key, l, p) => self.keyed(key, l, p, scene),
            Input::Click(l, p) => self.clicked(l, p, scene),
            Input::Motion(p) => self.moved(p),
        }
    }

    /// A fresh notebook after a run of inputs.
    pub open spec fn after(inputs: Seq<Input>, scene: SceneView) -> GameView
        decreases inputs.len(),
    {
        if inputs.len() == 0 {
            GameView::initial()
        } else {
            GameView::after(inputs.drop_last(), scene).answered(inputs.last(), scene)
        }
    }
}

/// Whatever is done, the history never holds more than its limit, undone edits
/// included.
#[verifier::rlimit(60)]
pub proof fn law_history_is_bounded(inputs: Seq<Input>, scene: SceneView)
    ensures
        ({
            let g = GameView::after(inputs, scene);
            g.undo.len() + g.redo.len() <= HISTORY
        }),
    decreases inputs.len(),
{
    if inputs.len() > 0 {
        law_history_is_bounded(inputs.drop_last(), scene);
    }
}

/// Saving puts the theory on top of the history, which forgets its oldest entry
/// when full, leaves nothing to redo and no score, and changes nothing else.
pub proof fn law_saving(g: GameView)
    requires
        g.undo.len() <= HISTORY,
    ensures
        g.saved().redo.len() == 0,
        g.saved().score is None,
        g.saved().undo.last() == g.snapshot(),
        g.undo.len() < 100 ==> g.saved().undo.drop_last() == g.undo,
        g.undo.len() == 100 ==> g.saved().undo.drop_last() == g.undo.skip(1),
        g.saved().undo.len() + g.saved().redo.len() <= 100,
        HISTORY == 100,
        g.saved() == (GameView { undo: g.saved().undo, redo: Seq::empty(), score: None, ..g }),
{
    assert(g.undo.len() < HISTORY ==> g.saved().undo.drop_last() =~= g.undo);
    assert(g.undo.len() == HISTORY ==> g.saved().undo.drop_last() =~= g.undo.skip(1));
}

/// Undoing an edit brings the theory back as the edit found it, whichever edit
/// it was.
pub proof fn law_undo_takes_an_edit_back(g: GameView, pos: Point, radius: Number, property: usize)
    requires
        g.well_formed(),
    ensures
        g.nodes.len() < MAX_NODES ==> g.added(pos, radius).undone().snapshot() == g.snapshot(),
        g.selected > 0 ==> g.deleted().undone().snapshot() == g.snapshot(),
        g.trait_toggled(property).undone().snapshot() == g.snapshot(),
        g.viewing().undone().snapshot() == g.snapshot(),
        g.cleared().undone().snapshot() == g.snapshot(),
{
}

impl GameView {
    /// The pointer moved along `path`.
    pub open spec fn moved_along(self, path: Seq<Pointer>) -> GameView
        decreases path.len(),
    {
        if path.len() == 0 {
            self
        } else {
            self.moved_along(path.drop_last()).moved(path.last())
        }
    }
}

/// A drag is one edit: along whatever path, it leaves the theory alone or fills
/// one place of the history, and then its undo returns to where it began.
pub proof fn law_a_drag_is_one_edit(g: GameView, path: Seq<Pointer>)
    requires
        g.well_formed(),
        g.dragging is Some,
        !g.confirm_clear,
        !g.drag_saved,
    ensures
        ({
            let h = g.moved_along(path);
            &&& h.dragging == g.dragging
            &&& !h.confirm_clear
            &&& h == g || {
                &&& h.drag_saved
                &&& h.undo == g.saved().undo
                &&& h.redo.len() == 0
                &&& h.undone().snapshot() == g.snapshot()
            }
        }),
    decreases path.len(),
{
    if path.len() > 0 {
        law_a_drag_is_one_edit(g, path.drop_last());
    }
}

/// Redoing what was undone brings the theory back, with the same history.
pub proof fn law_redo_inverts_undo(g: GameView)
    requires
        g.well_formed(),
        g.undo.len() > 0,
    ensures
        g.undone().redone().snapshot() == g.snapshot(),
        g.undone().redone().undo == g.undo,
        g.undone().redone().redo == g.redo,
{
    assert(g.undo.drop_last().push(g.undo.last()) =~= g.undo);
    assert(g.redo.push(g.snapshot()).drop_last() =~= g.redo);
}

/// Undoing what was redone brings the theory back, with the same history.
pub proof fn law_undo_inverts_redo(g: GameView)
    requires
        g.well_formed(),
        g.redo.len() > 0,
    ensures
        g.redone().undone().snapshot() == g.snapshot(),
        g.redone().undone().undo == g.undo,
        g.redone().undone().redo == g.redo,
{
    assert(g.redo.drop_last().push(g.redo.last()) =~= g.redo);
    assert(g.undo.push(g.snapshot()).drop_last() =~= g.undo);
}

/// A new edit leaves nothing to redo and no score.
pub proof fn law_edits_invalidate_redo(g: GameView, pos: Point, radius: Number, property: usize)
    requires
        g.well_formed(),
    ensures
        g.nodes.len() < MAX_NODES ==> g.added(pos, radius).redo.len() == 0 && g.added(
            pos,
            radius,
        ).score is None,
        g.selected > 0 ==> g.deleted().redo.len() == 0 && g.deleted().score is None,
        g.trait_toggled(property).redo.len() == 0 && g.trait_toggled(property).score is None,
        g.viewing().redo.len() == 0 && g.viewing().score is None,
        g.cleared().redo.len() == 0 && g.cleared().score is None,
{
}

/// While the clear-all question stands, only its two answers do anything.
pub proof fn law_confirmation_blocks_edits(
    g: GameView,
    key: Key,
    l: Layout,
    p: Pointer,
    scene: SceneView,
)
    requires
        g.confirm_clear,
    ensures
        g.right_clicked(l, p) == g,
        g.moved(p) == g,
        key != Key::Enter && key != Key::Escape ==> g.keyed(key, l, p, scene) == g,
        !l.confirm.holds(p.at) && !l.cancel.holds(p.at) ==> g.clicked(l, p, scene) == g,
{
}

/// A theory is one connected tree.
proof fn lemma_theory_is_a_tree(g: GameView)
    requires
        g.well_formed(),
    ensures
        crate::board::tree(g.nodes).well_formed(),
        crate::board::tree(g.nodes).connected(),
{
    let n = g.nodes.len();
    let parents = crate::board::parents(g.nodes);
    let traits = Seq::new(n, |i: int| g.nodes[i].traits);
    assert forall|i: int| 0 < i < parents.len() implies ((#[trigger] parents[i]) matches Some(p)
        && p < i) by {
        assert(g.nodes[i].parent == parents[i]);
    }
    crate::topology::lemma_ordered_tree_connected(
        parents,
        crate::board::ranks(g.nodes),
        traits,
    );
}

/// Only the truth scores one hundred: the scene's own tree, its traits included,
/// with the viewer in the host's place.
pub proof fn law_full_marks_mean_the_truth(g: GameView, viewer: usize, scene: SceneView)
    requires
        g.well_formed(),
        g.viewer == Some(viewer),
        scene.well_formed(),
    ensures
        ({
            let s = g.checked(scene).score->0;
            let guess = crate::board::tree(g.nodes);
            let truth = crate::topology::scene_tree(scene);
            s.points() == 100 * s.size <==> crate::topology::same_tree(guess, truth)
                && crate::topology::same_place(
                guess,
                guess.root,
                truth,
                truth.root,
                viewer,
                scene.host,
            )
        }),
{
    lemma_theory_is_a_tree(g);
    let parents = crate::topology::scene_parents(scene);
    assert forall|i: int| 0 < i < parents.len() implies ((#[trigger] parents[i]) matches Some(p)
        && p < i) by {
        assert(scene.bodies[i].parent == parents[i]);
    }
    crate::topology::lemma_ordered_tree_connected(
        parents,
        crate::topology::scene_order(scene),
        crate::topology::scene_traits(scene),
    );
    crate::topology::law_only_the_truth_scores_full_marks(
        crate::board::tree(g.nodes),
        viewer,
        crate::topology::scene_tree(scene),
        scene.host,
    );
}

/// A theory that draws the scene as it is, with the viewer on the host, scores
/// one hundred, however the two number their objects.
pub proof fn law_the_truth_scores_full_marks(
    g: GameView,
    viewer: usize,
    scene: SceneView,
    f: spec_fn(usize) -> usize,
)
    requires
        g.well_formed(),
        g.viewer == Some(viewer),
        crate::topology::renumbers(
            crate::board::tree(g.nodes),
            crate::topology::scene_tree(scene),
            f,
        ),
        f(viewer) == scene.host,
    ensures
        ({
            let s = g.checked(scene).score->0;
            s.points() == 100 * s.size && s.size == g.nodes.len()
        }),
{
    let t = crate::board::tree(g.nodes);
    lemma_theory_is_a_tree(g);
    crate::topology::law_numbering_does_not_matter(
        t,
        crate::topology::scene_tree(scene),
        f,
        viewer,
        t,
        viewer,
    );
    crate::topology::law_perfect_match(t, viewer);
}

/// The scene's own tree is connected.
proof fn lemma_truth_is_a_tree(scene: SceneView)
    requires
        scene.well_formed(),
    ensures
        crate::topology::scene_tree(scene).well_formed(),
        crate::topology::scene_tree(scene).connected(),
{
    let parents = crate::topology::scene_parents(scene);
    assert forall|i: int| 0 < i < parents.len() implies ((#[trigger] parents[i]) matches Some(p)
        && p < i) by {
        assert(scene.bodies[i].parent == parents[i]);
    }
    crate::topology::lemma_ordered_tree_connected(
        parents,
        crate::topology::scene_order(scene),
        crate::topology::scene_traits(scene),
    );
}

/// A theory of the scene's shape, with the viewer on the host, that marks stars
/// exactly at the stars and rings exactly at the ringed bodies scores one hundred.
pub proof fn law_marking_the_bodies_scores_full(
    g: GameView,
    viewer: usize,
    scene: SceneView,
    f: spec_fn(usize) -> usize,
)
    requires
        g.well_formed(),
        g.viewer == Some(viewer),
        scene.well_formed(),
        crate::topology::reshaped(
            crate::board::tree(g.nodes),
            crate::topology::scene_tree(scene),
            f,
        ),
        f(viewer) == scene.host,
        forall|i: usize|
            i < g.nodes.len() ==> {
                let body = scene.bodies[#[trigger] f(i) as int];
                let marks = g.nodes[i as int].traits;
                (marks.star <==> body.kind == crate::sim::BodyKind::Star) && (marks.rings
                    <==> body.rings is Some)
            },
    ensures
        ({
            let s = g.checked(scene).score->0;
            g.checked(scene).score is Some && s.points() == 100 * s.size && s.size
                == scene.bodies.len()
        }),
{
    let t = crate::board::tree(g.nodes);
    let truth = crate::topology::scene_tree(scene);
    assert forall|i: usize| i < t.size() implies {
        &&& #[trigger] f(i) < truth.size()
        &&& truth.children[f(i) as int] == t.children[i as int].map_values(f)
        &&& truth.traits[f(i) as int] == t.traits[i as int]
    } by {
        crate::topology::law_the_true_tree(scene, f(i), f(i), f(i));
    }
    law_the_truth_scores_full_marks(g, viewer, scene, f);
}

/// Of a theory of the scene's shape, one wrong mark is enough to miss one hundred: a
/// ringed body left unmarked, a ring drawn around a body that has none, a star not
/// marked as one, or the reverse.
pub proof fn law_a_wrong_mark_costs(
    g: GameView,
    viewer: usize,
    scene: SceneView,
    f: spec_fn(usize) -> usize,
    x: usize,
)
    requires
        g.well_formed(),
        g.viewer == Some(viewer),
        scene.well_formed(),
        crate::topology::reshaped(
            crate::board::tree(g.nodes),
            crate::topology::scene_tree(scene),
            f,
        ),
        x < g.nodes.len(),
        ({
            let body = scene.bodies[f(x) as int];
            let marks = g.nodes[x as int].traits;
            (marks.rings != (body.rings is Some)) || (marks.star != (body.kind
                == crate::sim::BodyKind::Star))
        }),
    ensures
        ({
            let s = g.checked(scene).score->0;
            g.checked(scene).score is Some && s.points() < 100 * s.size
        }),
{
    let t = crate::board::tree(g.nodes);
    let truth = crate::topology::scene_tree(scene);
    lemma_theory_is_a_tree(g);
    lemma_truth_is_a_tree(scene);
    law_full_marks_mean_the_truth(g, viewer, scene);
    crate::topology::law_the_true_tree(scene, f(x), f(x), f(x));
    crate::topology::law_match_bounds(t, viewer, truth, scene.host);
    let s = g.checked(scene).score->0;
    crate::topology::law_total_is_a_percentage(s);
    if s.points() == 100 * s.size {
        assert(t.under(x, t.root));
        crate::topology::law_the_true_tree(scene, truth.root, truth.root, truth.root);
        crate::topology::lemma_whole(t);
        crate::topology::lemma_identical_at(t, truth, f, t.root, t.size(), x);
    }
}

/// Checking asks for a viewer first; then it scores the drawn tree against the
/// scene's and changes nothing but the score and what is said.
pub proof fn law_checking(g: GameView, scene: SceneView)
    requires
        g.well_formed(),
        scene.well_formed(),
    ensures
        ({
            let h = g.acted(4, scene);
            let guess = crate::board::tree(g.nodes);
            let truth = crate::topology::scene_tree(scene);
            &&& h == (GameView {
                score: h.score,
                message: h.message,
                dragging: None,
                drag_saved: false,
                ..g
            })
            &&& g.viewer is None ==> h.score == g.score && h.message
                == "Select an object and choose Viewer here [V] before checking."@
            &&& g.viewer is Some ==> h.message
                == "Edit your theory and check again, or return to observing."@
            &&& g.viewer matches Some(v) ==> h.score == Some(
                crate::topology::scored(guess, v, truth, scene.host),
            )
        }),
{
}

/// A new object stands around the selected one at the place and distance asked for,
/// is selected itself, and carries no mark; the others keep their places, and the
/// edit can be taken back. A full diagram takes no more than its 64.
pub proof fn law_adding(g: GameView, pos: Point, radius: Number, j: usize)
    requires
        g.well_formed(),
        j < g.nodes.len(),
    ensures
        ({
            let h = g.added(pos, radius);
            &&& g.nodes.len() >= 64 ==> h == g
            &&& g.nodes.len() < 64 ==> {
                &&& h.nodes.len() == g.nodes.len() + 1
                &&& h.selected == g.nodes.len()
                &&& h.nodes.last().parent == Some(g.selected)
                &&& h.nodes.last().pos == pos && h.nodes.last().radius == radius
                &&& !h.nodes.last().traits.star && !h.nodes.last().traits.rings
                &&& h.nodes[j as int].parent == g.nodes[j as int].parent
                &&& h.nodes[j as int].pos == g.nodes[j as int].pos
                &&& h.nodes[j as int].radius == g.nodes[j as int].radius
                &&& h.nodes[j as int].traits == g.nodes[j as int].traits
                &&& h.viewer == g.viewer && h.open == g.open && h.dragging == g.dragging
                &&& h.confirm_clear == g.confirm_clear
                &&& h.undo.len() > 0 && h.undo.last() == g.snapshot()
                &&& h.redo.len() == 0 && h.score is None
                &&& h.message == "Added. Distance from its parent sets the orbit order."@
            }
        }),
{
    if g.nodes.len() < MAX_NODES {
        crate::board::law_growing(g.nodes, g.selected, pos, radius, j);
    }
}

/// Deleting takes the selected object and all that orbits it, selects the centre and
/// loses the viewer only with the branch it stood in; the centre itself cannot be
/// deleted.
pub proof fn law_deleting(g: GameView, j: usize)
    requires
        g.well_formed(),
        j < g.nodes.len(),
    ensures
        ({
            let h = g.deleted();
            &&& g.selected == 0 ==> h == (GameView {
                message: "The centre stays. Select an orbiting object to delete its branch."@,
                ..g
            })
            &&& g.selected > 0 ==> {
                &&& h.nodes.len() < g.nodes.len()
                &&& h.selected == 0
                &&& g.viewer is None ==> h.viewer is None
                &&& g.viewer == Some(j) ==> (h.viewer is None <==> crate::board::in_branch(
                    g.nodes,
                    g.selected,
                    j as int,
                ))
                &&& g.viewer == Some(j) && h.viewer is Some ==> h.nodes[h.viewer->0 as int].pos
                    == g.nodes[j as int].pos && h.nodes[h.viewer->0 as int].traits
                    == g.nodes[j as int].traits
                &&& h.open == g.open && h.dragging == g.dragging
                &&& h.undo.len() > 0 && h.undo.last() == g.snapshot()
                &&& h.redo.len() == 0 && h.score is None
                &&& h.message == "Branch deleted. Undo restores it."@
            }
        }),
{
    if g.selected > 0 {
        crate::board::law_branches(g.nodes, g.selected, 0);
        crate::board::law_pruning(g.nodes, g.selected, 0, 0);
        if !crate::board::in_branch(g.nodes, g.selected, j as int) {
            crate::board::law_pruning(g.nodes, g.selected, j, j);
        }
    }
}

/// Undo and redo go one step back or forth, let go of a drag, drop the score, and
/// do nothing else; at the end of the history they only let go.
pub proof fn law_history_steps(g: GameView)
    ensures
        ({
            let back = g.undone();
            let forth = g.redone();
            let idle = GameView { dragging: None, drag_saved: false, ..g };
            &&& g.undo.len() == 0 ==> back == idle
            &&& g.redo.len() == 0 ==> forth == idle
            &&& g.undo.len() > 0 ==> {
                &&& back.nodes == g.undo.last().nodes
                &&& back.viewer == g.undo.last().viewer
                &&& back.selected == g.undo.last().selected
                &&& back.undo == g.undo.drop_last()
                &&& back.redo == g.redo.push(
                    SnapshotView { nodes: g.nodes, viewer: g.viewer, selected: g.selected },
                )
                &&& back.score is None && back.message == "Edit undone."@
                &&& back.open == g.open && back.confirm_clear == g.confirm_clear
                &&& back.dragging is None && !back.drag_saved
            }
            &&& g.redo.len() > 0 ==> {
                &&& forth.nodes == g.redo.last().nodes
                &&& forth.viewer == g.redo.last().viewer
                &&& forth.selected == g.redo.last().selected
                &&& forth.redo == g.redo.drop_last()
                &&& forth.undo == g.undo.push(
                    SnapshotView { nodes: g.nodes, viewer: g.viewer, selected: g.selected },
                )
                &&& forth.score is None && forth.message == "Edit redone."@
                &&& forth.open == g.open && forth.confirm_clear == g.confirm_clear
                &&& forth.dragging is None && !forth.drag_saved
            }
        }),
{
}

/// A snapshot holds what an edit can change: the objects, the viewer and the
/// selection.
pub proof fn law_snapshots(g: GameView)
    ensures
        g.snapshot().nodes == g.nodes,
        g.snapshot().viewer == g.viewer,
        g.snapshot().selected == g.selected,
{
}

/// The buttons in their order: redo, viewer here, delete, undo, check, and the
/// question before clearing. Each lets go of a drag first.
pub proof fn law_buttons(g: GameView, scene: SceneView)
    requires
        g.well_formed(),
    ensures
        ({
            let idle = GameView { dragging: None, drag_saved: false, ..g };
            &&& g.acted(0, scene) == g.redone()
            &&& g.acted(1, scene).viewer == Some(g.selected)
            &&& g.acted(1, scene).nodes == g.nodes && g.acted(1, scene).selected == g.selected
            &&& g.acted(1, scene).undo.last() == g.snapshot() && g.acted(1, scene).redo.len() == 0
            &&& g.acted(1, scene).score is None
            &&& g.acted(1, scene).message == "Viewer placed on the selected object."@
            &&& g.acted(2, scene) == idle.deleted()
            &&& g.acted(3, scene) == g.undone()
            &&& g.acted(4, scene) == idle.checked(scene)
            &&& g.acted(5, scene) == (GameView { confirm_clear: true, ..idle })
            &&& forall|action: usize|
                action < 6 ==> (#[trigger] g.acted(action, scene)).dragging is None && !g.acted(
                    action,
                    scene,
                ).drag_saved && g.acted(action, scene).open == g.open && (g.acted(
                    action,
                    scene,
                ).confirm_clear == g.confirm_clear || action == 5)
        }),
{
}

/// The notebook's keys: `Z` undoes, `Y` redoes, `V` puts the viewer on the selected
/// object, Delete deletes its branch, Enter checks, `X` asks before clearing, `S` and
/// `R` switch its marks, `N` does what a right click does, and no other key does
/// anything.
pub proof fn law_notebook_keys(
    g: GameView,
    key: Key,
    l: Layout,
    p: Pointer,
    scene: SceneView,
)
    requires
        !g.confirm_clear,
    ensures
        ({
            let h = g.keyed(key, l, p, scene);
            let idle = GameView { dragging: None, drag_saved: false, ..g };
            &&& key == Key::Z ==> h == g.undone()
            &&& key == Key::Y ==> h == g.redone()
            &&& key == Key::V ==> h == idle.viewing()
            &&& key == Key::Delete ==> h == idle.deleted()
            &&& key == Key::Enter ==> h == idle.checked(scene)
            &&& key == Key::X ==> h == (GameView { confirm_clear: true, ..idle })
            &&& key == Key::S ==> h == g.trait_toggled(0)
            &&& key == Key::R ==> h == g.trait_toggled(1)
            &&& key == Key::N ==> h == g.right_clicked(l, p)
            &&& key != Key::Z && key != Key::Y && key != Key::V && key != Key::Delete && key
                != Key::Enter && key != Key::X && key != Key::S && key != Key::R && key != Key::N
                ==> h == g
        }),
{
}

/// Switching a mark changes that mark of the selected object and no other, and can
/// be taken back.
pub proof fn law_switching_marks(g: GameView, property: usize, j: int)
    requires
        g.well_formed(),
        0 <= j < g.nodes.len(),
    ensures
        ({
            let h = g.trait_toggled(property);
            let a = g.nodes[j];
            let c = h.nodes[j];
            &&& h.nodes.len() == g.nodes.len()
            &&& c.parent == a.parent && c.pos == a.pos && c.radius == a.radius && c.orbit_rank
                == a.orbit_rank
            &&& c.traits.star != a.traits.star <==> j == g.selected && property == 0
            &&& c.traits.rings != a.traits.rings <==> j == g.selected && property != 0
            &&& h.selected == g.selected && h.viewer == g.viewer && h.open == g.open
            &&& h.dragging is None && !h.drag_saved && h.confirm_clear == g.confirm_clear
            &&& h.undo.last() == g.snapshot() && h.redo.len() == 0 && h.score is None
            &&& h.message == "Object updated. Gold rays mark stars; an oval marks rings."@
        }),
{
}

/// The answers to the question: yes leaves the centre alone and can be taken back,
/// no leaves everything.
pub proof fn law_clearing(g: GameView, key: Key, l: Layout, p: Pointer, scene: SceneView)
    requires
        g.well_formed(),
        g.confirm_clear,
    ensures
        ({
            let h = g.keyed(key, l, p, scene);
            let c = g.clicked(l, p, scene);
            let kept = GameView { confirm_clear: false, ..g };
            &&& key == Key::Escape ==> h == kept
            &&& key == Key::Enter ==> {
                &&& h.nodes.len() == 1 && h.nodes[0] == crate::board::root_node()
                &&& h.selected == 0 && h.viewer is None && !h.confirm_clear
                &&& h.dragging is None && !h.drag_saved && h.open == g.open
                &&& h.undo.last() == g.snapshot() && h.redo.len() == 0 && h.score is None
                &&& h.message == "Theory cleared. Undo [Z] restores everything."@
            }
            &&& l.confirm.holds(p.at) ==> c == g.keyed(Key::Enter, l, p, scene)
            &&& !l.confirm.holds(p.at) && l.cancel.holds(p.at) ==> c == kept
        }),
{
}

/// A right click on the open canvas selects the topmost object under the pointer, or
/// adds one there around the selected object while there is room; elsewhere it does
/// nothing.
pub proof fn law_notebook_right_click(g: GameView, l: Layout, p: Pointer, i: usize)
    requires
        g.well_formed(),
        p.over@.len() == g.nodes.len(),
        p.reach@.len() == g.nodes.len(),
        i < g.nodes.len(),
    ensures
        ({
            let h = g.right_clicked(l, p);
            let idle = GameView { dragging: None, drag_saved: false, ..g };
            let active = g.open && !g.confirm_clear && l.canvas.holds(p.at);
            let bare = forall|j: int| 0 <= j < p.over@.len() ==> !#[trigger] p.over@[j];
            &&& !active ==> h == g
            &&& active && p.over@[i as int] && (forall|j: int|
                i < j < p.over@.len() ==> !#[trigger] p.over@[j]) ==> h == (GameView {
                selected: i,
                ..idle
            })
            &&& active && bare && g.nodes.len() < 64 ==> h == idle.added(
                p.place,
                p.reach@[g.selected as int],
            )
            &&& active && bare && g.nodes.len() >= 64 ==> h == (GameView {
                message: "Diagram limit: 64 objects. Delete a branch to make room."@,
                ..idle
            })
        }),
{
    crate::input::law_last_mark(p.over@);
}

/// A click in the open notebook: the notebook's own button leaves it; the two marks
/// and the six buttons do what they stand for, the first one under the pointer; and
/// on the canvas the topmost object under the pointer is selected and taken hold of.
pub proof fn law_notebook_clicks(
    g: GameView,
    l: Layout,
    p: Pointer,
    scene: SceneView,
    k: int,
    i: usize,
)
    requires
        g.well_formed(),
        !g.confirm_clear,
        p.over@.len() == g.nodes.len(),
        i < g.nodes.len(),
    ensures
        ({
            let h = g.clicked(l, p, scene);
            let free = !l.toggle.holds(p.at) && g.open;
            let marks = l.traits@[0].holds(p.at) || l.traits@[1].holds(p.at);
            let buttons = exists|j: int| 0 <= j < 6 && (#[trigger] l.buttons@[j]).holds(p.at);
            let first = 0 <= k < 6 && l.buttons@[k].holds(p.at) && forall|j: int|
                0 <= j < k ==> !(#[trigger] l.buttons@[j]).holds(p.at);
            let top = p.over@[i as int] && forall|j: int|
                i < j < p.over@.len() ==> !#[trigger] p.over@[j];
            &&& l.toggle.holds(p.at) ==> h == (GameView {
                open: !g.open,
                dragging: None,
                drag_saved: false,
                ..g
            })
            &&& !l.toggle.holds(p.at) && !g.open ==> h == g
            &&& free && l.traits@[0].holds(p.at) ==> h == g.trait_toggled(0)
            &&& free && !l.traits@[0].holds(p.at) && l.traits@[1].holds(p.at) ==> h
                == g.trait_toggled(1)
            &&& free && !marks && first ==> h == g.acted(k as usize, scene)
            &&& free && !marks && !buttons && l.canvas.holds(p.at) && top ==> h == (GameView {
                selected: i,
                dragging: Some(i),
                drag_saved: false,
                ..g
            })
            &&& free && !marks && !buttons && (!l.canvas.holds(p.at) || forall|j: int|
                0 <= j < p.over@.len() ==> !#[trigger] p.over@[j]) ==> h == g
        }),
{
    crate::input::law_first_rectangle(l.traits@, p.at);
    crate::input::law_first_rectangle(l.buttons@, p.at);
    crate::input::law_last_mark(p.over@);
    assert(l.traits@.len() == 2);
    assert(l.buttons@.len() == 6);
    let mark = crate::input::first_at(l.traits@, p.at, 0);
    let button = crate::input::first_at(l.buttons@, p.at, 0);
    if let Some(m) = mark {
        assert(m == 0 || m == 1);
    }
    if mark is None && 0 <= k < 6 && l.buttons@[k].holds(p.at) && (forall|j: int|
        0 <= j < k ==> !(#[trigger] l.buttons@[j]).holds(p.at)) {
        assert(button matches Some(b) && b == k);
    }
}

/// What is dragged goes where the pointer is, with the radii and ranks that follow
/// from there; the first step of a drag is remembered, later ones are not, and a
/// step that leads nowhere changes nothing.
pub proof fn law_dragging_objects(g: GameView, p: Pointer, j: usize)
    requires
        g.well_formed(),
        p.reach@.len() == g.nodes.len(),
        j < g.nodes.len(),
    ensures
        ({
            let h = g.moved(p);
            let i = g.dragging->0;
            let idle = g.dragging is None || g.confirm_clear || {
                let at = g.nodes[i as int].pos;
                at.x@ == p.place.x@ && at.y@ == p.place.y@ && at.x@ !is NotANumber && at.y@
                    !is NotANumber
            };
            &&& idle ==> h == g
            &&& !idle ==> {
                &&& h.nodes.len() == g.nodes.len()
                &&& h.nodes[i as int].pos == p.place
                &&& j != i ==> h.nodes[j as int].pos == g.nodes[j as int].pos
                &&& g.nodes[j as int].parent == Some(i) ==> h.nodes[j as int].radius
                    == p.reach@[j as int]
                &&& g.nodes[i as int].parent is Some ==> h.nodes[i as int].radius
                    == p.reach@[g.nodes[i as int].parent->0 as int]
                &&& h.nodes[j as int].traits == g.nodes[j as int].traits
                &&& h.nodes[j as int].parent == g.nodes[j as int].parent
                &&& h.drag_saved && h.dragging == g.dragging && h.selected == g.selected
                &&& h.viewer == g.viewer && h.open == g.open && !h.confirm_clear
                &&& g.drag_saved ==> h.undo == g.undo && h.redo == g.redo && h.score == g.score
                &&& !g.drag_saved ==> h.undo.last() == g.snapshot() && h.redo.len() == 0 && h.score
                    is None
                &&& h.message
                    == "Orbit order follows distance from each parent. Undo restores this drag."@
            }
        }),
{
    if let Some(i) = g.dragging {
        crate::board::law_dragging(g.nodes, i, p.place, p.reach@, j, j);
        crate::board::law_dragging(g.nodes, i, p.place, p.reach@, i, i);
    }
}

/// A fresh notebook is closed, holds the centre alone, selected and without viewer,
/// and remembers nothing.
pub proof fn law_a_fresh_notebook()
    ensures
        ({
            let g = GameView::initial();
            &&& !g.open && !g.confirm_clear && g.dragging is None && !g.drag_saved
            &&& g.nodes.len() == 1 && g.nodes[0].parent is None && g.selected == 0
            &&& g.viewer is None && g.score is None
            &&& g.undo.len() == 0 && g.redo.len() == 0
            &&& g.message
                == "Select a parent, then right-click empty space to add. [N] also adds at the cursor."@
        }),
{
}

/// Opening and closing twice comes back to where it began, and neither touches the
/// theory or its history.
pub proof fn law_opening_and_closing(g: GameView)
    ensures
        ({
            let h = g.toggled();
            &&& h.open == !g.open && !h.confirm_clear && h.dragging is None && !h.drag_saved
            &&& h.snapshot() == g.snapshot() && h.undo == g.undo && h.redo == g.redo
            &&& h.score == g.score && h.message == g.message
            &&& g.released() == (GameView { dragging: None, drag_saved: false, ..g })
            &&& h.toggled() == (GameView {
                confirm_clear: false,
                dragging: None,
                drag_saved: false,
                ..g
            })
        }),
{
}

/// The diagram shows each object's own marks, ties it to its parent, rings the
/// selected one alone and writes "YOU" at the viewer alone.
pub proof fn law_drawing(g: GameView, i: int, j: int, m: Mark, n: Mark)
    requires
        g.drawn(i, m),
        g.drawn(j, n),
    ensures
        m.selected <==> i == g.selected,
        m.selected && n.selected ==> i == j,
        m.viewer <==> g.viewer is Some && g.viewer->0 == i,
        m.viewer && n.viewer ==> i == j,
        m.traits.star == g.nodes[i].traits.star && m.traits.rings == g.nodes[i].traits.rings,
        m.parent == g.nodes[i].parent,
        m.parent is None ==> m.label@ == "C"@,
        m.parent is Some ==> crate::text::numeral_value(m.label@) == g.nodes[i].orbit_rank + 1,
{
    crate::board::law_captions(g.nodes[i]);
}

/// The line under the diagram gives the three numbers in their order and says
/// whether the viewer matches; before a check it says how a score is made up.
pub proof fn law_score_line(
    g: GameView,
    total: Seq<char>,
    orbits: Seq<char>,
    traits: Seq<char>,
)
    ensures
        ({
            let line = g.summary(total, orbits, traits);
            let a = total.len() as int;
            let b = orbits.len() as int;
            let c = traits.len() as int;
            &&& g.score matches Some(s) ==> {
                &&& line.len() == 7 + a + 14 + b + 11 + c + 11 + (if s.viewer {
                    7int
                } else {
                    14
                })
                &&& line.take(7) == "Score: "@
                &&& line.subrange(7, 7 + a) == total
                &&& line.subrange(7 + a, 21 + a) == "/100  Orbits: "@
                &&& line.subrange(21 + a, 21 + a + b) == orbits
                &&& line.subrange(21 + a + b, 32 + a + b) == "%  Traits: "@
                &&& line.subrange(32 + a + b, 32 + a + b + c) == traits
                &&& line.subrange(32 + a + b + c, 43 + a + b + c) == "%  Viewer: "@
                &&& line.skip(43 + a + b + c) == (if s.viewer {
                    "matches"@
                } else {
                    "does not match"@
                })
            }
            &&& g.score is None ==> line
                == "60% ordered structure + 20% star/ring traits + 20% viewer. Orbit 1 = innermost."@
        }),
{
    reveal_strlit("Score: ");
    reveal_strlit("/100  Orbits: ");
    reveal_strlit("%  Traits: ");
    reveal_strlit("%  Viewer: ");
    reveal_strlit("matches");
    reveal_strlit("does not match");
    let line = g.summary(total, orbits, traits);
    let a = total.len() as int;
    let b = orbits.len() as int;
    let c = traits.len() as int;
    if let Some(s) = g.score {
        assert(line.take(7) =~= "Score: "@);
        assert(line.subrange(7, 7 + a) =~= total);
        assert(line.subrange(7 + a, 21 + a) =~= "/100  Orbits: "@);
        assert(line.subrange(21 + a, 21 + a + b) =~= orbits);
        assert(line.subrange(21 + a + b, 32 + a + b) =~= "%  Traits: "@);
        assert(line.subrange(32 + a + b, 32 + a + b + c) =~= traits);
        assert(line.subrange(32 + a + b + c, 43 + a + b + c) =~= "%  Viewer: "@);
        assert(line.skip(43 + a + b + c) =~= (if s.viewer {
            "matches"@
        } else {
            "does not match"@
        }));
    }
}

/// An open notebook, a question and the notebook's own button take the click; any
/// other click leaves the notebook as it is.
pub proof fn law_whose_click_it_is(g: GameView, l: Layout, p: Pointer, scene: SceneView)
    ensures
        g.open ==> g.takes(l, p),
        g.confirm_clear ==> g.takes(l, p),
        l.toggle.holds(p.at) ==> g.takes(l, p),
        !g.takes(l, p) ==> g.clicked(l, p, scene) == g,
        g.takes(l, p) ==> g.open || g.confirm_clear || l.toggle.holds(p.at),
{
}

/// A step of a drag ranks the dragged object's children by their distance from where
/// it went.
pub proof fn law_a_drag_ranks_the_children(g: GameView, p: Pointer, j: usize, k: usize)
    requires
        g.well_formed(),
        p.reach@.len() == g.nodes.len(),
        j < g.nodes.len(),
        k < g.nodes.len(),
        g.dragging is Some,
        g.nodes[j as int].parent == g.dragging,
        g.nodes[k as int].parent == g.dragging,
        p.reach@[j as int]@.lt(p.reach@[k as int]@),
        g.moved(p) != g,
    ensures
        g.moved(p).nodes[j as int].orbit_rank < g.moved(p).nodes[k as int].orbit_rank,
{
    crate::board::law_dragging(g.nodes, g.dragging->0, p.place, p.reach@, j, k);
}

} // verus!
