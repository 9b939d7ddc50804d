//! Star systems: bodies on orbits around their parents, and the observatory.
//!
//! A body stores Keplerian elements relative to its parent. Distances are in
//! astronomical units, angles in radians and times in days.
use crate::number::Number;
use vstd::prelude::*;

verus! {

/// Keplerian orbital elements.
#[derive(Clone, Copy, Debug, PartialEq, Eq, Structural)]
pub struct Elements {
    /// Semi-major axis (AU).
    pub a: Number,
    /// Eccentricity.
    pub e: Number,
    /// Inclination (rad).
    pub inc: Number,
    /// Longitude of the ascending node (rad).
    pub node: Number,
    /// Argument of periapsis (rad).
    pub peri: Number,
    /// Mean anomaly at `epoch` (rad).
    pub m0: Number,
    /// Reference epoch (days).
    pub epoch: Number,
}

impl Elements {
    /// A circular, uninclined orbit that starts at mean anomaly `m0`.
    pub fn circular(a: Number, m0: Number) -> (r: Elements)
        ensures
            r == Elements::circle(a, m0),
    {
        let zero = Number { bits: 0 };
        Elements { a, e: zero, inc: zero, node: zero, peri: zero, m0, epoch: zero }
    }

    pub open spec fn circle(a: Number, m0: Number) -> Elements {
        let zero = Number { bits: 0 };
        Elements { a, e: zero, inc: zero, node: zero, peri: zero, m0, epoch: zero }
    }
}

#[derive(Clone, Copy, Debug, PartialEq, Eq, Structural)]
pub enum BodyKind {
    /// Invisible point that other bodies orbit; emits no light, casts none.
    Anchor,
    Star,
    Planet,
    Moon,
}

/// Red, green and blue.
#[derive(Clone, Copy, Debug, PartialEq, Eq, Structural)]
pub struct Color {
    pub red: Number,
    pub green: Number,
    pub blue: Number,
}

/// A thin annulus in a body's equator. Radii are multiples of the body's.
#[derive(Clone, Copy, Debug, PartialEq, Eq, Structural)]
pub struct Rings {
    pub inner_radius: Number,
    pub outer_radius: Number,
    pub optical_depth: Number,
    pub albedo: Color,
    pub banded: bool,
}

#[derive(Clone, Debug)]
pub struct Body {
    pub name: String,
    pub parent: Option<usize>,
    pub elements: Elements,
    /// Orbital period around the parent (days); zero for the root body.
    pub period_days: Number,
    /// Physical radius (AU).
    pub radius: Number,
    pub kind: BodyKind,
    /// Surface albedo for lit bodies.
    pub albedo: Color,
    /// Radiated colour and strength for stars.
    pub emission: Color,
    pub luminosity: Number,
    /// Axial tilt (rad), sidereal spin period (days) and phase (rad).
    pub obliquity: Number,
    pub spin_period: Number,
    pub spin_phase: Number,
    pub rings: Option<Rings>,
    pub tidally_locked: bool,
}

/// What a body is, with its name as a sequence of characters.
pub struct BodyView {
    pub name: Seq<char>,
    pub parent: Option<usize>,
    pub elements: Elements,
    pub period_days: Number,
    pub radius: Number,
    pub kind: BodyKind,
    pub albedo: Color,
    pub emission: Color,
    pub luminosity: Number,
    pub obliquity: Number,
    pub spin_period: Number,
    pub spin_phase: Number,
    pub rings: Option<Rings>,
    pub tidally_locked: bool,
}

impl View for Body {
    type V = BodyView;

    open spec fn view(&self) -> BodyView {
        BodyView {
            name: self.name@,
            parent: self.parent,
            elements: self.elements,
            period_days: self.period_days,
            radius: self.radius,
            kind: self.kind,
            albedo: self.albedo,
            emission: self.emission,
            luminosity: self.luminosity,
            obliquity: self.obliquity,
            spin_period: self.spin_period,
            spin_phase: self.spin_phase,
            rings: self.rings,
            tidally_locked: self.tidally_locked,
        }
    }
}

/// The air around the observer's host.
#[derive(Clone, Copy, Debug, PartialEq, Eq, Structural)]
pub enum Atmosphere {
    Earthlike,
}

/// A star system plus the index of the body the telescope stands on.
pub struct Scene {
    pub bodies: Vec<Body>,
    /// The body the observatory is attached to (a planet, or a moon).
    pub host: usize,
    /// Body to aim at on startup.
    pub default_target: usize,
    /// Bodies the number keys jump to, in order.
    pub targets: Vec<usize>,
    pub atmosphere: Option<Atmosphere>,
    /// Field of view, in degrees, for the startup view.
    pub default_fov_deg: Number,
    /// Observatory latitude and longitude on the host body (degrees).
    pub observer_lat_deg: Number,
    pub observer_lon_deg: Number,
    pub observer_height_m: Number,
    /// Starting day; absent when a dark view has to be searched for.
    pub initial_time_days: Option<Number>,
}

/// A scene with its bodies and targets as sequences.
pub struct SceneView {
    pub bodies: Seq<BodyView>,
    pub host: usize,
    pub default_target: usize,
    pub targets: Seq<usize>,
    pub atmosphere: Option<Atmosphere>,
    pub default_fov_deg: Number,
    pub observer_lat_deg: Number,
    pub observer_lon_deg: Number,
    pub observer_height_m: Number,
    pub initial_time_days: Option<Number>,
}

/// The views of a sequence of bodies.
pub open spec fn body_views(bodies: Seq<Body>) -> Seq<BodyView> {
    bodies.map_values(|b: Body| b@)
}

impl View for Scene {
    type V = SceneView;

    open spec fn view(&self) -> SceneView {
        SceneView {
            bodies: body_views(self.bodies@),
            host: self.host,
            default_target: self.default_target,
            targets: self.targets@,
            atmosphere: self.atmosphere,
            default_fov_deg: self.default_fov_deg,
            observer_lat_deg: self.observer_lat_deg,
            observer_lon_deg: self.observer_lon_deg,
            observer_height_m: self.observer_height_m,
            initial_time_days: self.initial_time_days,
        }
    }
}

/// A body that can be pointed at from the host.
pub open spec fn visible_from(bodies: Seq<BodyView>, host: usize, i: usize) -> bool {
    i < bodies.len() && i != host && bodies[i as int].kind != BodyKind::Anchor
}

impl SceneView {
    /// Whether body `i` is of kind `k`.
    pub open spec fn is_kind(self, i: int, k: BodyKind) -> bool {
        self.bodies[i].kind == k
    }

    /// One root comes first and every other body follows its parent, so a
    /// single pass over the bodies can place each one; the observatory stands
    /// on a planet or moon and every target can be pointed at.
    pub open spec fn well_formed(self) -> bool {
        &&& 0 < self.bodies.len() <= usize::MAX
        &&& self.bodies[0].parent is None
        &&& forall|i: int|
            0 < i < self.bodies.len() ==> ((#[trigger] self.bodies[i]).parent matches Some(p) && p
                < i)
        &&& self.host < self.bodies.len()
        &&& self.bodies[self.host as int].kind == BodyKind::Planet
            || self.bodies[self.host as int].kind == BodyKind::Moon
        &&& visible_from(self.bodies, self.host, self.default_target)
        &&& forall|k: int|
            0 <= k < self.targets.len() ==> visible_from(
                self.bodies,
                self.host,
                #[trigger] self.targets[k],
            )
    }

    pub open spec fn stars(self) -> Seq<usize> {
        crate::order::picked(self.bodies.len(), |i: int| self.is_kind(i, BodyKind::Star))
    }

    /// Bodies that orbit `target`.
    pub open spec fn children(self, target: usize) -> Seq<usize> {
        crate::order::picked(self.bodies.len(), |i: int| self.bodies[i].parent == Some(target))
    }

    /// Whether body `i` can occult a star as seen from the host.
    pub open spec fn occults(self, i: int, star: usize) -> bool {
        &&& i != self.host
        &&& i != star
        &&& self.bodies[i].kind != BodyKind::Star
        &&& self.bodies[i].kind != BodyKind::Anchor
    }

    /// Whether body `i` has a surface.
    pub open spec fn solid(self, i: int) -> bool {
        &&& self.bodies[i].kind != BodyKind::Anchor
        &&& !self.bodies[i].radius@.le((Number { bits: 0 })@)
    }

    /// Whether body `i` is a moon that can cross its planet as seen from the host.
    pub open spec fn transits(self, i: int) -> bool {
        &&& self.bodies[i].kind == BodyKind::Moon
        &&& i != self.host
        &&& self.bodies[i].parent matches Some(p) && p != self.host && p < self.bodies.len()
            && self.bodies[p as int].kind == BodyKind::Planet
    }
}

/// A well-formed scene is a tree to compare theories with.
pub proof fn lemma_well_formed_parents(scene: SceneView)
    requires
        scene.well_formed(),
    ensures
        crate::topology::parents_valid(crate::topology::scene_parents(scene)),
{
    let parents = crate::topology::scene_parents(scene);
    assert(parents[0] == None::<usize>);
    assert(parents.contains(None::<usize>));
    assert forall|i: int| 0 <= i < parents.len() implies ((#[trigger] parents[i]) matches Some(p)
        ==> p < parents.len()) by {
        assert(scene.bodies[i].parent == parents[i]);
    }
}

impl Scene {
    pub fn body(&self, index: usize) -> (r: &Body)
        requires
            index < self.bodies@.len(),
        ensures
            *r == self.bodies@[index as int],
    {
        &self.bodies[index]
    }

    /// The stars of the system, in body order.
    pub fn star_indices(&self) -> (r: Vec<usize>)
        ensures
            r@ == self@.stars(),
    {
        let ghost p = |i: int| self@.is_kind(i, BodyKind::Star);
        let mut r: Vec<usize> = Vec::new();
        let mut i: usize = 0;
        while i < self.bodies.len()
            invariant
                i <= self.bodies@.len(),
                p == (|i: int| self@.is_kind(i, BodyKind::Star)),
                r@ == crate::order::picked(i as nat, p),
            decreases self.bodies.len() - i,
        {
            if self.bodies[i].kind == BodyKind::Star {
                r.push(i);
            }
            i += 1;
        }
        r
    }

    /// The bodies that orbit `target`, which a fitting view has to hold too.
    pub fn children_of(&self, target: usize) -> (r: Vec<usize>)
        ensures
            r@ == self@.children(target),
    {
        let ghost p = |i: int| self@.bodies[i].parent == Some(target);
        let mut r: Vec<usize> = Vec::new();
        let mut i: usize = 0;
        while i < self.bodies.len()
            invariant
                i <= self.bodies@.len(),
                p == (|i: int| self@.bodies[i].parent == Some(target)),
                r@ == crate::order::picked(i as nat, p),
            decreases self.bodies.len() - i,
        {
            let orbits = match self.bodies[i].parent {
                Some(parent) => parent == target,
                None => false,
            };
            if orbits {
                r.push(i);
            }
            i += 1;
        }
        r
    }

    /// The bodies that an eclipse search tests against `star`.
    pub fn occulters(&self, star: usize) -> (r: Vec<usize>)
        ensures
            r@ == crate::order::picked(
                self.bodies@.len(),
                |i: int| self@.occults(i, star),
            ),
    {
        let ghost p = |i: int| self@.occults(i, star);
        let mut r: Vec<usize> = Vec::new();
        let mut i: usize = 0;
        while i < self.bodies.len()
            invariant
                i <= self.bodies@.len(),
                p == (|i: int| self@.occults(i, star)),
                r@ == crate::order::picked(i as nat, p),
            decreases self.bodies.len() - i,
        {
            let kind = self.bodies[i].kind;
            if i != self.host && i != star && kind != BodyKind::Star && kind != BodyKind::Anchor {
                r.push(i);
            }
            i += 1;
        }
        r
    }

    /// The moons that a transit search tests against their planets.
    pub fn transit_moons(&self) -> (r: Vec<usize>)
        ensures
            r@ == crate::order::picked(self.bodies@.len(), |i: int| self@.transits(i)),
    {
        let ghost p = |i: int| self@.transits(i);
        let mut r: Vec<usize> = Vec::new();
        let mut i: usize = 0;
        while i < self.bodies.len()
            invariant
                i <= self.bodies@.len(),
                p == (|i: int| self@.transits(i)),
                r@ == crate::order::picked(i as nat, p),
            decreases self.bodies.len() - i,
        {
            if self.bodies[i].kind == BodyKind::Moon && i != self.host {
                match self.bodies[i].parent {
                    Some(parent) => {
                        if parent != self.host && parent < self.bodies.len()
                            && self.bodies[parent].kind == BodyKind::Planet {
                            r.push(i);
                        }
                    },
                    None => {},
                }
            }
            i += 1;
        }
        r
    }

    /// The bodies that a pointer can hit. The host is one of them, so that a
    /// click on the ground cannot select a body on the far side.
    pub fn solid_bodies(&self) -> (r: Vec<usize>)
        ensures
            r@ == crate::order::picked(self.bodies@.len(), |i: int| self@.solid(i)),
    {
        let ghost p = |i: int| self@.solid(i);
        let mut r: Vec<usize> = Vec::new();
        let mut i: usize = 0;
        while i < self.bodies.len()
            invariant
                i <= self.bodies@.len(),
                p == (|i: int| self@.solid(i)),
                r@ == crate::order::picked(i as nat, p),
            decreases self.bodies.len() - i,
        {
            let body = &self.bodies[i];
            if body.kind != BodyKind::Anchor && !body.radius.at_most(Number { bits: 0 }) {
                r.push(i);
            }
            i += 1;
        }
        r
    }

    /// The bodies that are traced: all but the invisible orbit anchors.
    pub fn traced_bodies(&self) -> (r: Vec<usize>)
        ensures
            r@ == crate::order::picked(
                self.bodies@.len(),
                |i: int| !self@.is_kind(i, BodyKind::Anchor),
            ),
    {
        let ghost p = |i: int| !self@.is_kind(i, BodyKind::Anchor);
        let mut r: Vec<usize> = Vec::new();
        let mut i: usize = 0;
        while i < self.bodies.len()
            invariant
                i <= self.bodies@.len(),
                p == (|i: int| !self@.is_kind(i, BodyKind::Anchor)),
                r@ == crate::order::picked(i as nat, p),
            decreases self.bodies.len() - i,
        {
            if self.bodies[i].kind != BodyKind::Anchor {
                r.push(i);
            }
            i += 1;
        }
        r
    }
}

/// Which bodies are which: the stars, in body order and each once.
pub proof fn law_stars(scene: SceneView, i: usize)
    requires
        scene.bodies.len() <= usize::MAX,
    ensures
        scene.stars().contains(i) <==> i < scene.bodies.len() && scene.bodies[i as int].kind
            == BodyKind::Star,
        forall|a: int, b: int|
            0 <= a < b < scene.stars().len() ==> scene.stars()[a] < scene.stars()[b],
{
    crate::order::lemma_picked(
        scene.bodies.len(),
        |i: int| scene.is_kind(i, BodyKind::Star),
    );
}

/// The children of a body are the bodies that name it as their parent.
pub proof fn law_children(scene: SceneView, target: usize, i: usize)
    requires
        scene.bodies.len() <= usize::MAX,
    ensures
        scene.children(target).contains(i) <==> i < scene.bodies.len()
            && scene.bodies[i as int].parent == Some(target),
        forall|a: int, b: int|
            0 <= a < b < scene.children(target).len() ==> scene.children(target)[a]
                < scene.children(target)[b],
{
    crate::order::lemma_picked(
        scene.bodies.len(),
        |i: int| scene.bodies[i].parent == Some(target),
    );
}

/// Planets and moons other than the host can stand before a star, and nothing else
/// can.
pub proof fn law_what_occults(scene: SceneView, i: int, star: usize)
    requires
        0 <= i < scene.bodies.len(),
        scene.bodies[star as int].kind == BodyKind::Star,
    ensures
        scene.occults(i, star) <==> i != scene.host && (scene.bodies[i].kind == BodyKind::Planet
            || scene.bodies[i].kind == BodyKind::Moon),
{
}

/// A moon can cross its planet in the host's sky unless one of the two is the host.
pub proof fn law_what_transits(scene: SceneView, i: int)
    requires
        scene.well_formed(),
        0 <= i < scene.bodies.len(),
    ensures
        scene.transits(i) <==> scene.bodies[i].kind == BodyKind::Moon && scene.bodies[i].parent
            is Some && scene.bodies[scene.bodies[i].parent->0 as int].kind == BodyKind::Planet && i
            != scene.host && scene.bodies[i].parent->0 != scene.host,
{
}

/// What has a size and is no anchor has a surface.
pub proof fn law_what_is_solid(scene: SceneView, i: int, radius: int)
    requires
        0 <= i < scene.bodies.len(),
        scene.bodies[i].radius@ == crate::number::Real::Finite(radius),
    ensures
        scene.solid(i) <==> radius > 0 && (scene.bodies[i].kind == BodyKind::Star
            || scene.bodies[i].kind == BodyKind::Planet || scene.bodies[i].kind == BodyKind::Moon),
{
    crate::number::lemma_bounds();
}

/// A circular orbit keeps its size and its starting point, and is nought else.
pub proof fn law_circles(a: Number, m0: Number)
    ensures
        ({
            let c = Elements::circle(a, m0);
            &&& c.a == a && c.m0 == m0
            &&& c.e.bits == 0 && c.inc.bits == 0 && c.node.bits == 0 && c.peri.bits == 0
                && c.epoch.bits == 0
        }),
{
}

/// Anything but the host and the anchors can be pointed at.
pub proof fn law_what_can_be_pointed_at(bodies: Seq<BodyView>, host: usize, i: usize)
    requires
        i < bodies.len(),
    ensures
        visible_from(bodies, host, i) <==> i != host && (bodies[i as int].kind == BodyKind::Star
            || bodies[i as int].kind == BodyKind::Planet || bodies[i as int].kind
            == BodyKind::Moon),
{
}

} // verus!
