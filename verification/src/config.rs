//! Versioned, human-editable scene files. All external distances have explicit units.
//!
//! A file comes in as plain values. Where a rule needs a converted value (a
//! distance in astronomical units, an angle in radians) both stand side by
//! side.
use crate::number::{
    within, Number, HALF_TURN, MINUS_HALF_TURN, MINUS_NINETY, NINETY, ONE, TENTH, THOUSANDTH, ZERO,
};
use crate::order::{contains, index_of};
use crate::sim::{Atmosphere, Body, BodyKind, BodyView, Color, Elements, Rings, Scene, SceneView};
use crate::text::{decimal_text, is_blank};
use vstd::prelude::*;
use vstd::string::StringExecFns;

verus! {

#[derive(Clone, Copy, Debug, PartialEq, Eq, Structural)]
pub struct Distance {
    pub km: Number,
    pub au: Number,
}

#[derive(Clone, Copy, Debug, PartialEq, Eq, Structural)]
pub struct Angle {
    pub degrees: Number,
    pub radians: Number,
}

#[derive(Debug)]
pub struct System {
    pub version: u32,
    pub name: String,
    pub time_days: Option<Number>,
    pub camera: Camera,
    pub targets: Vec<String>,
    pub bodies: Vec<BodyDef>,
}

#[derive(Debug)]
pub struct Camera {
    pub body: String,
    pub latitude_deg: Number,
    pub longitude_deg: Number,
    pub height_m: Number,
    pub look_at: String,
    pub fov_deg: Number,
    pub atmosphere: Option<Atmosphere>,
}

#[derive(Debug)]
pub struct BodyDef {
    pub id: String,
    pub name: Option<String>,
    pub kind: BodyKind,
    pub parent: Option<String>,
    pub radius: Distance,
    pub albedo: Color,
    pub luminosity: Number,
    pub emission: Color,
    pub orbit: Option<Orbit>,
    pub rotation: Rotation,
    pub rings: Option<Rings>,
}

#[derive(Debug)]
pub struct Orbit {
    pub semi_major_axis_au: Option<Number>,
    pub semi_major_axis_km: Option<Distance>,
    pub period_days: Number,
    pub eccentricity: Number,
    pub inclination: Angle,
    pub ascending_node: Angle,
    pub periapsis: Angle,
    pub mean_anomaly: Angle,
    pub epoch_days: Number,
    /// For each body of the file: whether the orbit's periapsis clears it, were
    /// it the parent. A body without an entry is not cleared.
    pub clears: Vec<bool>,
}

#[derive(Clone, Copy, Debug)]
pub enum Rotation {
    Free { period_days: Number, obliquity: Angle, phase: Angle },
    TidalLock,
}

/// What is wrong with one body.
#[derive(Clone, Copy, Debug, PartialEq, Eq, Structural)]
pub enum BodyFault {
    Radius,
    Albedo,
    Emission,
    Luminosity,
    NotAStar,
    ParentWithoutOrbit,
    AxisChoice,
    Axis,
    Period,
    Eccentricity,
    OrbitAngles,
    Intersects,
    Rotation,
    TidalLock,
    RingHost,
    RingRadii,
    RingDepth,
    RingAlbedo,
}

impl BodyFault {
    pub open spec fn described(self) -> Seq<char> {
        match self {
            BodyFault::Radius => "radius_km must be positive (zero for anchors)"@,
            BodyFault::Albedo => "albedo must contain three values in [0, 1]"@,
            BodyFault::Emission => "emission must contain three values in [0, 1]"@,
            BodyFault::Luminosity => "luminosity must be finite and nonnegative"@,
            BodyFault::NotAStar => "only stars may have luminosity"@,
            BodyFault::ParentWithoutOrbit => "parent and orbit must be provided together"@,
            BodyFault::AxisChoice => "orbit requires exactly one of semi_major_axis_au or semi_major_axis_km"@,
            BodyFault::Axis => "semi-major axis must be positive and finite"@,
            BodyFault::Period => "orbital period_days must be positive and finite"@,
            BodyFault::Eccentricity => "eccentricity must be in [0, 1)"@,
            BodyFault::OrbitAngles => "orbit angles and epoch must be finite"@,
            BodyFault::Intersects => "orbit intersects the parent at periapsis"@,
            BodyFault::Rotation => "rotation period must be nonzero; rotation values must be finite"@,
            BodyFault::TidalLock => "tidal_lock requires an orbit and parent"@,
            BodyFault::RingHost => "rings require a planet or moon"@,
            BodyFault::RingRadii => "ring radii must satisfy 1 < inner_radius < outer_radius"@,
            BodyFault::RingDepth => "ring optical_depth must be finite and nonnegative"@,
            BodyFault::RingAlbedo => "ring albedo must contain three values in [0, 1]"@,
        }
    }

    pub fn message(self) -> (r: &'static str)
        ensures
            r@ == self.described(),
    {
        match self {
            BodyFault::Radius => "radius_km must be positive (zero for anchors)",
            BodyFault::Albedo => "albedo must contain three values in [0, 1]",
            BodyFault::Emission => "emission must contain three values in [0, 1]",
            BodyFault::Luminosity => "luminosity must be finite and nonnegative",
            BodyFault::NotAStar => "only stars may have luminosity",
            BodyFault::ParentWithoutOrbit => "parent and orbit must be provided together",
            BodyFault::AxisChoice => "orbit requires exactly one of semi_major_axis_au or semi_major_axis_km",
            BodyFault::Axis => "semi-major axis must be positive and finite",
            BodyFault::Period => "orbital period_days must be positive and finite",
            BodyFault::Eccentricity => "eccentricity must be in [0, 1)",
            BodyFault::OrbitAngles => "orbit angles and epoch must be finite",
            BodyFault::Intersects => "orbit intersects the parent at periapsis",
            BodyFault::Rotation => "rotation period must be nonzero; rotation values must be finite",
            BodyFault::TidalLock => "tidal_lock requires an orbit and parent",
            BodyFault::RingHost => "rings require a planet or moon",
            BodyFault::RingRadii => "ring radii must satisfy 1 < inner_radius < outer_radius",
            BodyFault::RingDepth => "ring optical_depth must be finite and nonnegative",
            BodyFault::RingAlbedo => "ring albedo must contain three values in [0, 1]",
        }
    }
}

/// Why a file is refused. Numbers are positions in the file's lists.
#[derive(Clone, Copy, Debug, PartialEq, Eq, Structural)]
pub enum ConfigError {
    Version,
    EmptyName,
    BodyCount,
    Time,
    BodyId(usize),
    Roots,
    UnknownParent(usize),
    Cycle,
    Body(usize, BodyFault),
    NoLuminousStar,
    CameraBody,
    HostKind,
    LookAt,
    /// A body that cannot be pointed at.
    Target(usize),
    TooManyTargets,
    UnknownTarget(usize),
    Latitude,
    Longitude,
    Height,
    FieldOfView,
}

pub open spec fn positive(x: Number) -> bool {
    x@ matches crate::number::Real::Finite(v) && v > 0
}

pub open spec fn nonnegative(x: Number) -> bool {
    x@ matches crate::number::Real::Finite(v) && v >= 0
}

pub open spec fn zero(x: Number) -> bool {
    x@ == crate::number::Real::Finite(0)
}

fn is_positive(x: Number) -> (r: bool)
    ensures
        r == positive(x),
{
    proof {
        crate::number::lemma_bounds();
    }
    x.is_finite() && (Number { bits: ZERO }).less(x)
}

fn is_nonnegative(x: Number) -> (r: bool)
    ensures
        r == nonnegative(x),
{
    proof {
        crate::number::lemma_bounds();
    }
    x.is_finite() && (Number { bits: ZERO }).at_most(x)
}

fn is_zero(x: Number) -> (r: bool)
    ensures
        r == zero(x),
{
    proof {
        crate::number::lemma_bounds();
    }
    x.equals(Number { bits: ZERO })
}

impl Color {
    /// Every component lies in [0, 1].
    pub open spec fn valid(self) -> bool {
        self.red@.between(0, 1) && self.green@.between(0, 1) && self.blue@.between(0, 1)
    }

    /// Some component is above zero.
    pub open spec fn shines(self) -> bool {
        let none = (Number { bits: ZERO })@;
        none.lt(self.red@) || none.lt(self.green@) || none.lt(self.blue@)
    }
}

/// Whether a colour has three values in [0, 1].
pub fn rgb(value: Color) -> (r: bool)
    ensures
        r == value.valid(),
{
    proof {
        crate::number::lemma_bounds();
    }
    let low = Number { bits: ZERO };
    let high = Number { bits: ONE };
    within(value.red, low, high) && within(value.green, low, high) && within(value.blue, low, high)
}

fn shines(value: Color) -> (r: bool)
    ensures
        r == value.shines(),
{
    let none = Number { bits: ZERO };
    none.less(value.red) || none.less(value.green) || none.less(value.blue)
}

impl Orbit {
    /// The semi-major axis, where exactly one form of it is given.
    pub open spec fn axis(self) -> Option<Number> {
        match (self.semi_major_axis_au, self.semi_major_axis_km) {
            (Some(a), None) => Some(a),
            (None, Some(d)) => Some(d.au),
            _ => None,
        }
    }

    /// What is wrong with the orbit of a body around body `parent` of the file.
    pub open spec fn fault(self, parent: usize) -> Option<BodyFault> {
        if self.axis() is None {
            Some(BodyFault::AxisChoice)
        } else if !positive(self.axis()->0) {
            Some(BodyFault::Axis)
        } else if !positive(self.period_days) {
            Some(BodyFault::Period)
        } else if !(self.eccentricity@ matches crate::number::Real::Finite(e) && 0 <= e
            < crate::number::unit()) {
            Some(BodyFault::Eccentricity)
        } else if !(self.inclination.degrees@ is Finite && self.ascending_node.degrees@ is Finite
            && self.periapsis.degrees@ is Finite && self.mean_anomaly.degrees@ is Finite
            && self.epoch_days@ is Finite) {
            Some(BodyFault::OrbitAngles)
        } else if !(parent < self.clears@.len() && self.clears@[parent as int]) {
            Some(BodyFault::Intersects)
        } else {
            None
        }
    }

    pub open spec fn elements(self) -> Elements {
        Elements {
            a: self.axis()->0,
            e: self.eccentricity,
            inc: self.inclination.radians,
            node: self.ascending_node.radians,
            peri: self.periapsis.radians,
            m0: self.mean_anomaly.radians,
            epoch: self.epoch_days,
        }
    }

    fn check(&self, parent: usize) -> (r: Result<Elements, BodyFault>)
        ensures
            match r {
                Ok(e) => {
                    &&& self.fault(parent) is None
                    &&& e == self.elements()
                    &&& e.e == self.eccentricity && e.epoch == self.epoch_days
                    &&& e.inc == self.inclination.radians && e.m0 == self.mean_anomaly.radians
                    &&& e.node == self.ascending_node.radians && e.peri == self.periapsis.radians
                },
                Err(f) => self.fault(parent) == Some(f),
            },
    {
        proof {
            crate::number::lemma_bounds();
        }
        let a: Number = match (self.semi_major_axis_au, self.semi_major_axis_km) {
            (Some(a), None) => a,
            (None, Some(d)) => d.au,
            _ => {
                return Err(BodyFault::AxisChoice);
            },
        };
        if !is_positive(a) {
            return Err(BodyFault::Axis);
        }
        if !is_positive(self.period_days) {
            return Err(BodyFault::Period);
        }
        if !(is_nonnegative(self.eccentricity) && self.eccentricity.less(Number { bits: ONE })) {
            return Err(BodyFault::Eccentricity);
        }
        if !(self.inclination.degrees.is_finite() && self.ascending_node.degrees.is_finite()
            && self.periapsis.degrees.is_finite() && self.mean_anomaly.degrees.is_finite()
            && self.epoch_days.is_finite()) {
            return Err(BodyFault::OrbitAngles);
        }
        if !(parent < self.clears.len() && self.clears[parent]) {
            return Err(BodyFault::Intersects);
        }
        Ok(
            Elements {
                a,
                e: self.eccentricity,
                inc: self.inclination.radians,
                node: self.ascending_node.radians,
                peri: self.periapsis.radians,
                m0: self.mean_anomaly.radians,
                epoch: self.epoch_days,
            },
        )
    }
}

/// What is wrong with the rings of a body of that kind.
pub open spec fn ring_fault(rings: Rings, kind: BodyKind) -> Option<BodyFault> {
    if kind != BodyKind::Planet && kind != BodyKind::Moon {
        Some(BodyFault::RingHost)
    } else if !(rings.inner_radius@ is Finite && rings.outer_radius@ is Finite && (Number {
        bits: ONE,
    })@.lt(rings.inner_radius@) && rings.inner_radius@.lt(rings.outer_radius@)) {
        Some(BodyFault::RingRadii)
    } else if !nonnegative(rings.optical_depth) {
        Some(BodyFault::RingDepth)
    } else if !rings.albedo.valid() {
        Some(BodyFault::RingAlbedo)
    } else {
        None
    }
}

fn check_rings(rings: Rings, kind: BodyKind) -> (r: Option<BodyFault>)
    ensures
        r == ring_fault(rings, kind),
{
    if kind != BodyKind::Planet && kind != BodyKind::Moon {
        Some(BodyFault::RingHost)
    } else if !(rings.inner_radius.is_finite() && rings.outer_radius.is_finite() && (Number {
        bits: ONE,
    }).less(rings.inner_radius) && rings.inner_radius.less(rings.outer_radius)) {
        Some(BodyFault::RingRadii)
    } else if !is_nonnegative(rings.optical_depth) {
        Some(BodyFault::RingDepth)
    } else if !rgb(rings.albedo) {
        Some(BodyFault::RingAlbedo)
    } else {
        None
    }
}

impl BodyDef {
    /// What is wrong with the body, when its parent is body `parent` of the file.
    pub open spec fn fault(self, parent: Option<usize>) -> Option<BodyFault> {
        if !(if self.kind == BodyKind::Anchor {
            zero(self.radius.km)
        } else {
            positive(self.radius.km)
        }) {
            Some(BodyFault::Radius)
        } else if !self.albedo.valid() {
            Some(BodyFault::Albedo)
        } else if !self.emission.valid() {
            Some(BodyFault::Emission)
        } else if !nonnegative(self.luminosity) {
            Some(BodyFault::Luminosity)
        } else if self.kind != BodyKind::Star && !zero(self.luminosity) {
            Some(BodyFault::NotAStar)
        } else if (parent is Some) != (self.orbit is Some) {
            Some(BodyFault::ParentWithoutOrbit)
        } else if self.orbit is Some && self.orbit->0.fault(parent->0) is Some {
            self.orbit->0.fault(parent->0)
        } else if !self.rotation_valid(parent) {
            Some(
                match self.rotation {
                    Rotation::Free { .. } => BodyFault::Rotation,
                    Rotation::TidalLock => BodyFault::TidalLock,
                },
            )
        } else if let Some(rings) = self.rings {
            ring_fault(rings, self.kind)
        } else {
            None
        }
    }

    /// A free rotation has a nonzero period and finite angles; a locked one
    /// needs a parent.
    pub open spec fn rotation_valid(self, parent: Option<usize>) -> bool {
        match self.rotation {
            Rotation::Free { period_days, obliquity, phase } => {
                &&& period_days@ is Finite
                &&& !zero(period_days)
                &&& obliquity.degrees@ is Finite
                &&& phase.degrees@ is Finite
            },
            Rotation::TidalLock => parent is Some,
        }
    }

    pub open spec fn elements(self) -> Elements {
        match self.orbit {
            Some(o) => o.elements(),
            None => Elements::circle(Number { bits: ZERO }, Number { bits: ZERO }),
        }
    }

    pub open spec fn period_days(self) -> Number {
        match self.orbit {
            Some(o) => o.period_days,
            None => Number { bits: ZERO },
        }
    }

    pub open spec fn title(self) -> Seq<char> {
        match self.name {
            Some(name) => name@,
            None => self.id@,
        }
    }

    /// The body that the definition stands for, with its parent's place in the
    /// scene. A locked rotation follows the orbit.
    pub open spec fn body(self, parent: Option<usize>) -> BodyView {
        let e = self.elements();
        let (obliquity, spin_period, spin_phase) = match self.rotation {
            Rotation::Free { period_days, obliquity, phase } => (
                obliquity.radians,
                period_days,
                phase.radians,
            ),
            Rotation::TidalLock => (e.inc, self.period_days(), e.m0),
        };
        BodyView {
            name: self.title(),
            parent,
            elements: e,
            period_days: self.period_days(),
            radius: self.radius.au,
            kind: self.kind,
            albedo: self.albedo,
            emission: self.emission,
            luminosity: self.luminosity,
            obliquity,
            spin_period,
            spin_phase,
            rings: self.rings,
            tidally_locked: self.rotation is TidalLock,
        }
    }

    /// Builds the body. `parent` is the parent's place in the file and `place`
    /// its place in the scene.
    pub fn build(&self, parent: Option<usize>, place: Option<usize>) -> (r: Result<
        Body,
        BodyFault,
    >)
        ensures
            match r {
                Ok(b) => self.fault(parent) is None && b@ == self.body(place) && follows(*self, b@),
                Err(f) => self.fault(parent) == Some(f),
            },
    {
        let sized = if self.kind == BodyKind::Anchor {
            is_zero(self.radius.km)
        } else {
            is_positive(self.radius.km)
        };
        if !sized {
            return Err(BodyFault::Radius);
        }
        if !rgb(self.albedo) {
            return Err(BodyFault::Albedo);
        }
        if !rgb(self.emission) {
            return Err(BodyFault::Emission);
        }
        if !is_nonnegative(self.luminosity) {
            return Err(BodyFault::Luminosity);
        }
        if self.kind != BodyKind::Star && !is_zero(self.luminosity) {
            return Err(BodyFault::NotAStar);
        }
        if parent.is_some() != self.orbit.is_some() {
            return Err(BodyFault::ParentWithoutOrbit);
        }
        let (elements, period_days) = match (&self.orbit, parent) {
            (Some(orbit), Some(p)) => match orbit.check(p) {
                Ok(elements) => (elements, orbit.period_days),
                Err(fault) => {
                    return Err(fault);
                },
            },
            _ => (
                Elements::circular(Number { bits: ZERO }, Number { bits: ZERO }),
                Number { bits: ZERO },
            ),
        };
        let (obliquity, spin_period, spin_phase, tidally_locked) = match self.rotation {
            Rotation::Free { period_days, obliquity, phase } => {
                if !(period_days.is_finite() && !is_zero(period_days)
                    && obliquity.degrees.is_finite() && phase.degrees.is_finite()) {
                    return Err(BodyFault::Rotation);
                }
                (obliquity.radians, period_days, phase.radians, false)
            },
            Rotation::TidalLock => {
                if parent.is_none() {
                    return Err(BodyFault::TidalLock);
                }
                (elements.inc, period_days, elements.m0, true)
            },
        };
        if let Some(rings) = self.rings {
            if let Some(fault) = check_rings(rings, self.kind) {
                return Err(fault);
            }
        }
        let name = match &self.name {
            Some(name) => name.clone(),
            None => self.id.clone(),
        };
        Ok(
            Body {
                name,
                parent: place,
                elements,
                period_days,
                radius: self.radius.au,
                kind: self.kind,
                albedo: self.albedo,
                emission: self.emission,
                luminosity: self.luminosity,
                obliquity,
                spin_period,
                spin_phase,
                rings: self.rings,
                tidally_locked,
            },
        )
    }
}

impl System {
    pub open spec fn count(self) -> nat {
        self.bodies@.len()
    }

    pub open spec fn id(self, i: int) -> Seq<char> {
        self.bodies@[i].id@
    }

    /// Place in the file of the first body with that id, from `from` on.
    pub open spec fn found(self, id: Seq<char>, from: nat) -> Option<usize>
        decreases self.count() - from,
    {
        if from >= self.count() {
            None
        } else if self.id(from as int) == id {
            Some(from as usize)
        } else {
            self.found(id, from + 1)
        }
    }

    pub open spec fn lookup(self, id: Seq<char>) -> Option<usize> {
        self.found(id, 0)
    }

    /// Place in the file of the parent of body `i`.
    pub open spec fn parent(self, i: int) -> Option<usize> {
        match self.bodies@[i].parent {
            Some(id) => self.lookup(id@),
            None => None,
        }
    }

    /// Whether the id of body `i` is blank, or that of an earlier body.
    pub open spec fn bad_id(self, i: int) -> bool {
        crate::text::blank(self.id(i)) || self.lookup(self.id(i)) != Some(i as usize)
    }

    /// Whether body `i` names a parent that the file does not hold.
    pub open spec fn orphan(self, i: int) -> bool {
        self.bodies@[i].parent is Some && self.parent(i) is None
    }

    pub open spec fn roots(self) -> Seq<usize> {
        crate::order::picked(self.count(), |i: int| self.bodies@[i].parent is None)
    }

    /// Whether body `i` can follow the bodies placed so far.
    pub open spec fn ready(self, placed: Seq<usize>, i: int) -> bool {
        !placed.contains(i as usize) && (self.bodies@[i].parent is Some ==> (self.parent(
            i,
        ) matches Some(p) && placed.contains(p)))
    }

    /// The bodies that can follow those placed so far, in file order.
    pub open spec fn candidates(self, placed: Seq<usize>) -> Seq<usize> {
        crate::order::picked(self.count(), |i: int| self.ready(placed, i))
    }

    /// The first bodies of the scene: each time the first candidate of the
    /// file, as long as there is one.
    pub open spec fn placed(self, steps: nat) -> Seq<usize>
        decreases steps,
    {
        if steps == 0 {
            Seq::empty()
        } else {
            let before = self.placed((steps - 1) as nat);
            if self.candidates(before).len() == 0 {
                before
            } else {
                before.push(self.candidates(before)[0])
            }
        }
    }

    /// A stable topological order of the file's bodies: parents first.
    pub open spec fn arranged(self) -> Seq<usize> {
        self.placed(self.count())
    }

    /// The first error in `steps` steps of placing and building bodies.
    pub open spec fn stopped(self, steps: nat) -> Option<ConfigError>
        decreases steps,
    {
        if steps == 0 {
            None
        } else if self.stopped((steps - 1) as nat) is Some {
            self.stopped((steps - 1) as nat)
        } else {
            let c = self.candidates(self.placed((steps - 1) as nat));
            if c.len() == 0 {
                Some(ConfigError::Cycle)
            } else {
                match self.bodies@[c[0] as int].fault(self.parent(c[0] as int)) {
                    Some(f) => Some(ConfigError::Body(c[0], f)),
                    None => None,
                }
            }
        }
    }

    /// Place in the scene of body `i` of the file.
    pub open spec fn place(self, i: usize) -> usize {
        self.arranged().index_of(i) as usize
    }

    /// The bodies of the scene.
    pub open spec fn scene_bodies(self) -> Seq<BodyView> {
        Seq::new(self.count(), |k: int| self.scene_body(k))
    }

    pub open spec fn scene_body(self, k: int) -> BodyView {
        let i = self.arranged()[k];
        self.bodies@[i as int].body(
            match self.parent(i as int) {
                Some(p) => Some(self.place(p)),
                None => None,
            },
        )
    }

    /// A star that gives light.
    pub open spec fn luminous(self, i: int) -> bool {
        let b = self.bodies@[i];
        &&& b.kind == BodyKind::Star
        &&& (Number { bits: ZERO })@.lt(b.luminosity@)
        &&& b.emission.shines()
    }

    /// Whether body `i` of the file can be pointed at from body `host`.
    pub open spec fn can_target(self, host: usize, i: usize) -> bool {
        i != host && self.bodies@[i as int].kind != BodyKind::Anchor
    }

    /// The first error among the targets, from `from` on.
    pub open spec fn target_error(self, host: usize, from: nat) -> Option<ConfigError>
        decreases self.targets@.len() - from,
    {
        if from >= self.targets@.len() {
            None
        } else {
            match self.lookup(self.targets@[from as int]@) {
                None => Some(ConfigError::UnknownTarget(from as usize)),
                Some(i) => if !self.can_target(host, i) {
                    Some(ConfigError::Target(i))
                } else {
                    self.target_error(host, from + 1)
                },
            }
        }
    }

    /// What is wrong with the camera and the targets.
    pub open spec fn view_error(self) -> Option<ConfigError> {
        let c = self.camera;
        match self.lookup(c.body@) {
            None => Some(ConfigError::CameraBody),
            Some(host) => {
                let kind = self.bodies@[host as int].kind;
                if kind != BodyKind::Planet && kind != BodyKind::Moon {
                    Some(ConfigError::HostKind)
                } else {
                    match self.lookup(c.look_at@) {
                        None => Some(ConfigError::LookAt),
                        Some(target) => if !self.can_target(host, target) {
                            Some(ConfigError::Target(target))
                        } else if self.targets@.len() > 9 {
                            Some(ConfigError::TooManyTargets)
                        } else if self.target_error(host, 0) is Some {
                            self.target_error(host, 0)
                        } else if !c.latitude_deg@.between(-90, 90) {
                            Some(ConfigError::Latitude)
                        } else if !c.longitude_deg@.between(-180, 180) {
                            Some(ConfigError::Longitude)
                        } else if !(c.height_m@ is Finite && (Number { bits: TENTH })@.le(
                            c.height_m@,
                        )) {
                            Some(ConfigError::Height)
                        } else if !(c.fov_deg@ is Finite && (Number { bits: THOUSANDTH })@.le(
                            c.fov_deg@,
                        ) && c.fov_deg@.le((Number { bits: NINETY })@)) {
                            Some(ConfigError::FieldOfView)
                        } else {
                            None
                        },
                    }
                }
            },
        }
    }

    /// What is wrong with the list of bodies as such.
    pub open spec fn list_error(self) -> Option<ConfigError> {
        let bad = crate::order::picked(self.count(), |i: int| self.bad_id(i));
        let orphans = crate::order::picked(self.count(), |i: int| self.orphan(i));
        if self.version != 1 {
            Some(ConfigError::Version)
        } else if crate::text::blank(self.name@) {
            Some(ConfigError::EmptyName)
        } else if !(2 <= self.count() <= 256) {
            Some(ConfigError::BodyCount)
        } else if self.time_days matches Some(t) && t@ !is Finite {
            Some(ConfigError::Time)
        } else if bad.len() > 0 {
            Some(ConfigError::BodyId(bad[0]))
        } else if self.roots().len() != 1 {
            Some(ConfigError::Roots)
        } else if orphans.len() > 0 {
            Some(ConfigError::UnknownParent(orphans[0]))
        } else {
            None
        }
    }

    /// Why the file is refused; the first reason, in the order of the rules.
    pub open spec fn refusal(self) -> Option<ConfigError> {
        if self.list_error() is Some {
            self.list_error()
        } else if self.stopped(self.count()) is Some {
            self.stopped(self.count())
        } else if forall|i: int| 0 <= i < self.count() ==> !#[trigger] self.luminous(i) {
            Some(ConfigError::NoLuminousStar)
        } else {
            self.view_error()
        }
    }

    /// Whether an error speaks of entries that the file has.
    pub open spec fn names(self, e: ConfigError) -> bool {
        match e {
            ConfigError::BodyId(i) => i < self.count(),
            ConfigError::UnknownParent(i) => i < self.count() && self.bodies@[i as int].parent is Some,
            ConfigError::Body(i, _) => i < self.count(),
            ConfigError::Target(i) => i < self.count(),
            ConfigError::UnknownTarget(k) => k < self.targets@.len(),
            _ => true,
        }
    }

    /// The ids of the bodies below `n` that no arrangement reaches, with a
    /// comma between them.
    pub open spec fn unplaced(self, n: nat) -> Seq<char>
        decreases n,
    {
        if n == 0 {
            Seq::empty()
        } else {
            let before = self.unplaced((n - 1) as nat);
            if self.arranged().contains((n - 1) as usize) {
                before
            } else if before.len() == 0 {
                self.id(n - 1)
            } else {
                before + ", "@ + self.id(n - 1)
            }
        }
    }

    /// An error in words.
    pub open spec fn described(self, e: ConfigError) -> Seq<char> {
        match e {
            ConfigError::Version => "unsupported version "@ + crate::text::decimal(
                self.version as nat,
            ) + "; expected 1"@,
            ConfigError::EmptyName => "system name cannot be empty"@,
            ConfigError::BodyCount => "a system needs 2..=256 bodies"@,
            ConfigError::Time => "time_days must be finite"@,
            ConfigError::BodyId(i) => "empty or duplicate body id '"@ + self.id(i as int) + "'"@,
            ConfigError::Roots =>
            "exactly one root body is required (use an anchor for a binary system)"@,
            ConfigError::UnknownParent(i) => "body '"@ + self.id(i as int) + "': unknown parent '"@
                + self.bodies@[i as int].parent->0@ + "'"@,
            ConfigError::Cycle => "cyclic parent references: "@ + self.unplaced(self.count()),
            ConfigError::Body(i, fault) => "body '"@ + self.id(i as int) + "': "@
                + fault.described(),
            ConfigError::NoLuminousStar => "at least one luminous star is required"@,
            ConfigError::CameraBody => "camera.body: unknown body '"@ + self.camera.body@ + "'"@,
            ConfigError::HostKind => "camera.body must be a planet or moon"@,
            ConfigError::LookAt => "camera.look_at: unknown body '"@ + self.camera.look_at@
                + "'"@,
            ConfigError::Target(i) => "target '"@ + self.bodies@[i as int].title()
                + "' must be a visible body other than the camera host"@,
            ConfigError::TooManyTargets => "targets supports at most nine number-key shortcuts"@,
            ConfigError::UnknownTarget(k) => "unknown body '"@ + self.targets@[k as int]@ + "'"@,
            ConfigError::Latitude => "camera.latitude_deg must be in [-90, 90]"@,
            ConfigError::Longitude => "camera.longitude_deg must be in [-180, 180]"@,
            ConfigError::Height => "camera.height_m must be at least 0.1 metres"@,
            ConfigError::FieldOfView => "camera.fov_deg must be in [0.001, 90]"@,
        }
    }

    /// The scene that an accepted file stands for. Without targets of its own
    /// it has the one that the camera looks at.
    pub open spec fn scene(self) -> SceneView {
        let c = self.camera;
        let host = self.place(self.lookup(c.body@)->0);
        let default_target = self.place(self.lookup(c.look_at@)->0);
        SceneView {
            bodies: self.scene_bodies(),
            host,
            default_target,
            targets: if self.targets@.len() == 0 {
                seq![default_target]
            } else {
                Seq::new(
                    self.targets@.len(),
                    |k: int| self.place(self.lookup(self.targets@[k]@)->0),
                )
            },
            atmosphere: c.atmosphere,
            default_fov_deg: c.fov_deg,
            observer_lat_deg: c.latitude_deg,
            observer_lon_deg: c.longitude_deg,
            observer_height_m: c.height_m,
            initial_time_days: self.time_days,
        }
    }

    proof fn lemma_found(self, id: Seq<char>, from: nat)
        requires
            self.count() <= usize::MAX,
        ensures
            self.found(id, from) matches Some(i) ==> from <= i < self.count() && self.id(i as int)
                == id && (forall|j: int| from <= j < i ==> #[trigger] self.id(j) != id),
            self.found(id, from) is None ==> (forall|j: int|
                from <= j < self.count() ==> #[trigger] self.id(j) != id),
        decreases self.count() - from,
    {
        if from < self.count() && self.id(from as int) != id {
            self.lemma_found(id, from + 1);
        }
    }

    /// Steps place distinct bodies of the file, each behind its parent.
    proof fn lemma_placed(self, steps: nat)
        requires
            self.count() <= usize::MAX,
        ensures
            self.placed(steps).no_duplicates(),
            self.placed(steps).len() <= steps,
            forall|k: int|
                0 <= k < self.placed(steps).len() ==> (#[trigger] self.placed(steps)[k])
                    < self.count() && (self.bodies@[self.placed(steps)[k] as int].parent is Some
                    ==> (self.parent(self.placed(steps)[k] as int) matches Some(p) && self.placed(
                    steps,
                ).take(k).contains(p))),
        decreases steps,
    {
        if steps > 0 {
            let m = (steps - 1) as nat;
            self.lemma_placed(m);
            let before = self.placed(m);
            let now = self.placed(steps);
            let c = self.candidates(before);
            crate::order::lemma_picked(self.count(), |i: int| self.ready(before, i));
            if c.len() > 0 {
                assert(self.ready(before, c[0] as int));
                assert forall|k: int| 0 <= k < now.len() implies (#[trigger] now[k]) < self.count()
                    && (self.bodies@[now[k] as int].parent is Some ==> (self.parent(
                    now[k] as int,
                ) matches Some(p) && now.take(k).contains(p))) by {
                    if k < before.len() {
                        assert(now[k] == before[k]);
                        assert(now.take(k) =~= before.take(k));
                    } else {
                        assert(now.take(k) =~= before);
                    }
                }
            }
        }
    }

    /// While nothing stops them, steps place one body each.
    proof fn lemma_progress(self, steps: nat)
        requires
            self.stopped(steps) is None,
        ensures
            self.placed(steps).len() == steps,
            forall|m: nat| m <= steps ==> #[trigger] self.stopped(m) is None && self.placed(m)
                =~= self.placed(steps).take(m as int),
            forall|k: int|
                0 <= k < steps ==> self.bodies@[(#[trigger] self.placed(steps)[k]) as int].fault(
                    self.parent(self.placed(steps)[k] as int),
                ) is None,
        decreases steps,
    {
        if steps > 0 {
            let m = (steps - 1) as nat;
            self.lemma_progress(m);
            let before = self.placed(m);
            let now = self.placed(steps);
            assert(now == before.push(self.candidates(before)[0]));
            assert forall|j: nat| j <= steps implies #[trigger] self.stopped(j) is None
                && self.placed(j) =~= now.take(j as int) by {
                if j <= m {
                    assert(self.stopped(j) is None);
                    assert(self.placed(j) =~= before.take(j as int));
                    assert(before.take(j as int) =~= now.take(j as int));
                } else {
                    assert(now.take(j as int) =~= now);
                }
            }
            assert forall|k: int| 0 <= k < steps implies self.bodies@[(#[trigger] now[k]) as int].fault(
                self.parent(now[k] as int),
            ) is None by {
                if k < m {
                    assert(now[k] == before[k]);
                }
            }
        }
    }

    /// A complete arrangement holds every body.
    proof fn lemma_complete(self)
        requires
            self.count() <= usize::MAX,
            self.arranged().len() == self.count(),
        ensures
            forall|i: usize| i < self.count() ==> #[trigger] self.arranged().contains(i),
    {
        let a = self.arranged();
        let n = self.count();
        self.lemma_placed(n);
        let s = a.to_set();
        let all = Set::new(|x: usize| x < n);
        crate::topology::lemma_range(n);
        a.unique_seq_to_set();
        assert(s.subset_of(all)) by {
            assert forall|x: usize| s.contains(x) implies all.contains(x) by {
                assert(a.contains(x));
                let k = choose|k: int| 0 <= k < a.len() && a[k] == x;
                assert(a[k] < n);
            }
        }
        vstd::set_lib::lemma_subset_equality(s, all);
        assert forall|i: usize| i < n implies #[trigger] a.contains(i) by {
            assert(all.contains(i));
            assert(s.contains(i));
        }
    }

    proof fn lemma_place(self, i: usize)
        requires
            self.count() <= usize::MAX,
            self.arranged().len() == self.count(),
            i < self.count(),
        ensures
            self.place(i) < self.count(),
            self.arranged()[self.place(i) as int] == i,
            self.scene_bodies()[self.place(i) as int].kind == self.bodies@[i as int].kind,
    {
        self.lemma_complete();
        assert(self.arranged().contains(i));
    }

    proof fn lemma_distinct_places(self, i: usize, j: usize)
        requires
            self.count() <= usize::MAX,
            self.arranged().len() == self.count(),
            i < self.count(),
            j < self.count(),
            i != j,
        ensures
            self.place(i) != self.place(j),
    {
        self.lemma_place(i);
        self.lemma_place(j);
    }

    proof fn lemma_targets(self, host: usize, from: nat)
        requires
            self.count() <= usize::MAX,
            self.target_error(host, from) is None,
        ensures
            forall|k: int|
                from <= k < self.targets@.len() ==> (self.lookup(
                    (#[trigger] self.targets@[k])@,
                ) matches Some(i) && i < self.count() && self.can_target(host, i)),
        decreases self.targets@.len() - from,
    {
        if from < self.targets@.len() {
            self.lemma_found(self.targets@[from as int]@, 0);
            self.lemma_targets(host, from + 1);
        }
    }
}

impl System {
    /// Place in the file of the body with that id.
    fn find(&self, id: &str) -> (r: Option<usize>)
        ensures
            r == self.lookup(id@),
            r matches Some(i) ==> i < self.count(),
    {
        let mut i: usize = 0;
        while i < self.bodies.len()
            invariant
                i <= self.count(),
                self.lookup(id@) == self.found(id@, i as nat),
            decreases self.bodies.len() - i,
        {
            if crate::text::same(self.bodies[i].id.as_str(), id) {
                return Some(i);
            }
            i += 1;
        }
        None
    }

    fn find_parent(&self, i: usize) -> (r: Option<usize>)
        requires
            i < self.count(),
        ensures
            r == self.parent(i as int),
            r matches Some(p) ==> p < self.count(),
    {
        match &self.bodies[i].parent {
            Some(id) => self.find(id.as_str()),
            None => None,
        }
    }

    fn first_bad_id(&self) -> (r: Option<usize>)
        ensures
            ({
                let bad = crate::order::picked(self.count(), |i: int| self.bad_id(i));
                match r {
                    Some(i) => bad.len() > 0 && bad[0] == i && i < self.count(),
                    None => bad.len() == 0,
                }
            }),
    {
        let ghost p = |i: int| self.bad_id(i);
        let mut i: usize = 0;
        while i < self.bodies.len()
            invariant
                i <= self.count(),
                p == (|i: int| self.bad_id(i)),
                forall|j: int| 0 <= j < i ==> !#[trigger] p(j),
            decreases self.bodies.len() - i,
        {
            let id = self.bodies[i].id.as_str();
            let repeated = match self.find(id) {
                Some(j) => j != i,
                None => true,
            };
            if is_blank(id) || repeated {
                proof {
                    assert(p(i as int));
                    crate::order::lemma_first_picked(self.count(), p, i as nat);
                }
                return Some(i);
            }
            i += 1;
        }
        proof {
            crate::order::lemma_first_picked(self.count(), p, i as nat);
        }
        None
    }

    fn count_roots(&self) -> (r: usize)
        ensures
            r == self.roots().len(),
    {
        let ghost p = |i: int| self.bodies@[i].parent is None;
        let mut roots: usize = 0;
        let mut i: usize = 0;
        while i < self.bodies.len()
            invariant
                i <= self.count(),
                roots <= i,
                p == (|i: int| self.bodies@[i].parent is None),
                roots == crate::order::picked(i as nat, p).len(),
            decreases self.bodies.len() - i,
        {
            if self.bodies[i].parent.is_none() {
                roots += 1;
            }
            i += 1;
        }
        roots
    }

    fn first_orphan(&self) -> (r: Option<usize>)
        ensures
            ({
                let orphans = crate::order::picked(self.count(), |i: int| self.orphan(i));
                match r {
                    Some(i) => orphans.len() > 0 && orphans[0] == i && self.orphan(i as int) && i
                        < self.count(),
                    None => orphans.len() == 0,
                }
            }),
            r is None ==> forall|i: int| 0 <= i < self.count() ==> !#[trigger] self.orphan(i),
    {
        let ghost p = |i: int| self.orphan(i);
        let mut i: usize = 0;
        while i < self.bodies.len()
            invariant
                i <= self.count(),
                p == (|i: int| self.orphan(i)),
                forall|j: int| 0 <= j < i ==> !#[trigger] p(j),
            decreases self.bodies.len() - i,
        {
            if self.bodies[i].parent.is_some() && self.find_parent(i).is_none() {
                proof {
                    assert(p(i as int));
                    crate::order::lemma_first_picked(self.count(), p, i as nat);
                }
                return Some(i);
            }
            i += 1;
        }
        proof {
            crate::order::lemma_first_picked(self.count(), p, i as nat);
            assert forall|j: int| 0 <= j < self.count() implies !#[trigger] self.orphan(j) by {
                assert(!p(j));
            }
        }
        None
    }

    fn check_list(&self) -> (r: Option<ConfigError>)
        ensures
            r == self.list_error(),
            r matches Some(e) ==> self.names(e),
            r is None ==> forall|i: int| 0 <= i < self.count() ==> !#[trigger] self.orphan(i),
    {
        if self.version != 1 {
            return Some(ConfigError::Version);
        }
        if is_blank(self.name.as_str()) {
            return Some(ConfigError::EmptyName);
        }
        if !(2 <= self.bodies.len() && self.bodies.len() <= 256) {
            return Some(ConfigError::BodyCount);
        }
        if let Some(t) = self.time_days {
            if !t.is_finite() {
                return Some(ConfigError::Time);
            }
        }
        if let Some(i) = self.first_bad_id() {
            return Some(ConfigError::BodyId(i));
        }
        if self.count_roots() != 1 {
            return Some(ConfigError::Roots);
        }
        match self.first_orphan() {
            Some(i) => Some(ConfigError::UnknownParent(i)),
            None => None,
        }
    }

    /// The first body of the file that can follow those placed so far.
    fn next_body(&self, placed: &Vec<usize>) -> (r: Option<usize>)
        ensures
            match r {
                Some(i) => i < self.count() && self.candidates(placed@).len() > 0
                    && self.candidates(placed@)[0] == i && self.ready(placed@, i as int),
                None => self.candidates(placed@).len() == 0,
            },
    {
        let ghost p = |i: int| self.ready(placed@, i);
        let mut i: usize = 0;
        while i < self.bodies.len()
            invariant
                i <= self.count(),
                p == (|i: int| self.ready(placed@, i)),
                forall|j: int| 0 <= j < i ==> !#[trigger] p(j),
            decreases self.bodies.len() - i,
        {
            let follows = match self.find_parent(i) {
                Some(parent) => contains(placed, parent),
                None => self.bodies[i].parent.is_none(),
            };
            if follows && !contains(placed, i) {
                proof {
                    assert(p(i as int));
                    crate::order::lemma_first_picked(self.count(), p, i as nat);
                }
                return Some(i);
            }
            i += 1;
        }
        proof {
            crate::order::lemma_first_picked(self.count(), p, i as nat);
        }
        None
    }

    /// Stable topological ordering lets authors place a moon before its planet.
    fn arrange(&self) -> (r: Result<(Vec<usize>, Vec<Body>), ConfigError>)
        requires
            self.count() <= 256,
        ensures
            match r {
                Ok((order, bodies)) => {
                    &&& self.stopped(self.count()) is None
                    &&& order@ == self.arranged()
                    &&& order@.len() == self.count()
                    &&& crate::sim::body_views(bodies@) == self.scene_bodies()
                },
                Err(e) => self.stopped(self.count()) == Some(e) && self.names(e),
            },
    {
        let n: usize = self.bodies.len();
        let mut order: Vec<usize> = Vec::new();
        let mut bodies: Vec<Body> = Vec::new();
        let ghost mut places: Seq<Option<usize>> = Seq::empty();
        while order.len() < n
            invariant
                n == self.count(),
                n <= 256,
                order@.len() <= n,
                order@ == self.placed(order@.len()),
                self.stopped(order@.len()) is None,
                bodies@.len() == order@.len(),
                places.len() == order@.len(),
                forall|k: int|
                    0 <= k < order@.len() ==> (#[trigger] bodies@[k])@
                        == self.bodies@[order@[k] as int].body(places[k]),
                forall|k: int|
                    0 <= k < order@.len() ==> match #[trigger] places[k] {
                        Some(q) => q < order@.len() && self.parent(order@[k] as int) == Some(
                            order@[q as int],
                        ),
                        None => self.parent(order@[k] as int) is None,
                    },
            decreases n - order.len(),
        {
            let ghost steps = order@.len();
            let i: usize = match self.next_body(&order) {
                Some(i) => i,
                None => {
                    proof {
                        assert(self.stopped(steps + 1) == Some(ConfigError::Cycle));
                        self.lemma_stays_stopped(steps + 1, n as nat);
                    }
                    return Err(ConfigError::Cycle);
                },
            };
            let parent = self.find_parent(i);
            let place: Option<usize> = match parent {
                Some(p) => Some(index_of(&order, p)),
                None => None,
            };
            match self.bodies[i].build(parent, place) {
                Ok(body) => {
                    bodies.push(body);
                    order.push(i);
                    proof {
                        places = places.push(place);
                    }
                },
                Err(fault) => {
                    proof {
                        assert(self.stopped(steps + 1) == Some(ConfigError::Body(i, fault)));
                        self.lemma_stays_stopped(steps + 1, n as nat);
                    }
                    return Err(ConfigError::Body(i, fault));
                },
            }
        }
        proof {
            self.lemma_placed(n as nat);
            assert forall|k: int| 0 <= k < n implies (#[trigger] bodies@[k])@
                == self.scene_bodies()[k] by {
                if let Some(q) = places[k] {
                    let p = order@[q as int];
                    self.lemma_place(p);
                }
            }
            assert(crate::sim::body_views(bodies@) =~= self.scene_bodies());
        }
        Ok((order, bodies))
    }

    proof fn lemma_stays_stopped(self, m: nat, n: nat)
        requires
            m <= n,
            self.stopped(m) is Some,
        ensures
            self.stopped(n) == self.stopped(m),
        decreases n,
    {
        if m < n {
            self.lemma_stays_stopped(m, (n - 1) as nat);
        }
    }

    fn has_luminous_star(&self) -> (r: bool)
        ensures
            r == exists|i: int| 0 <= i < self.count() && #[trigger] self.luminous(i),
    {
        let mut i: usize = 0;
        while i < self.bodies.len()
            invariant
                i <= self.count(),
                forall|j: int| 0 <= j < i ==> !#[trigger] self.luminous(j),
            decreases self.bodies.len() - i,
        {
            let b = &self.bodies[i];
            if b.kind == BodyKind::Star && (Number { bits: ZERO }).less(b.luminosity) && shines(
                b.emission,
            ) {
                assert(self.luminous(i as int));
                return true;
            }
            i += 1;
        }
        false
    }

    fn pointable(&self, host: usize, i: usize) -> (r: bool)
        requires
            i < self.count(),
        ensures
            r == self.can_target(host, i),
    {
        i != host && self.bodies[i].kind != BodyKind::Anchor
    }

    /// The places in the file of the targets.
    fn check_targets(&self, host: usize) -> (r: Result<Vec<usize>, ConfigError>)
        ensures
            match r {
                Ok(v) => {
                    &&& self.target_error(host, 0) is None
                    &&& v@.len() == self.targets@.len()
                    &&& forall|k: int|
                        0 <= k < v@.len() ==> #[trigger] v@[k] < self.count() && self.lookup(
                            self.targets@[k]@,
                        ) == Some(v@[k])
                },
                Err(e) => self.target_error(host, 0) == Some(e) && self.names(e),
            },
    {
        let mut found: Vec<usize> = Vec::new();
        let mut k: usize = 0;
        while k < self.targets.len()
            invariant
                k <= self.targets@.len(),
                found@.len() == k,
                self.target_error(host, 0) == self.target_error(host, k as nat),
                forall|j: int|
                    0 <= j < k ==> #[trigger] found@[j] < self.count() && self.lookup(
                        self.targets@[j]@,
                    ) == Some(found@[j]),
            decreases self.targets.len() - k,
        {
            let i: usize = match self.find(self.targets[k].as_str()) {
                Some(i) => i,
                None => {
                    return Err(ConfigError::UnknownTarget(k));
                },
            };
            if !self.pointable(host, i) {
                return Err(ConfigError::Target(i));
            }
            found.push(i);
            k += 1;
        }
        Ok(found)
    }

    /// Places in the file of the host, the first target and the targets.
    fn check_view(&self) -> (r: Result<(usize, usize, Vec<usize>), ConfigError>)
        ensures
            match r {
                Ok((host, target, targets)) => {
                    &&& self.view_error() is None
                    &&& self.lookup(self.camera.body@) == Some(host)
                    &&& host < self.count()
                    &&& self.lookup(self.camera.look_at@) == Some(target)
                    &&& target < self.count()
                    &&& targets@.len() == self.targets@.len()
                    &&& forall|k: int|
                        0 <= k < targets@.len() ==> #[trigger] targets@[k] < self.count()
                            && self.lookup(self.targets@[k]@) == Some(targets@[k])
                },
                Err(e) => self.view_error() == Some(e) && self.names(e),
            },
    {
        proof {
            crate::number::lemma_bounds();
        }
        let c = &self.camera;
        let host: usize = match self.find(c.body.as_str()) {
            Some(i) => i,
            None => {
                return Err(ConfigError::CameraBody);
            },
        };
        let kind = self.bodies[host].kind;
        if kind != BodyKind::Planet && kind != BodyKind::Moon {
            return Err(ConfigError::HostKind);
        }
        let target: usize = match self.find(c.look_at.as_str()) {
            Some(i) => i,
            None => {
                return Err(ConfigError::LookAt);
            },
        };
        if !self.pointable(host, target) {
            return Err(ConfigError::Target(target));
        }
        if self.targets.len() > 9 {
            return Err(ConfigError::TooManyTargets);
        }
        let targets = match self.check_targets(host) {
            Ok(v) => v,
            Err(e) => {
                return Err(e);
            },
        };
        if !within(
            c.latitude_deg,
            Number { bits: MINUS_NINETY },
            Number { bits: NINETY },
        ) {
            return Err(ConfigError::Latitude);
        }
        if !within(
            c.longitude_deg,
            Number { bits: MINUS_HALF_TURN },
            Number { bits: HALF_TURN },
        ) {
            return Err(ConfigError::Longitude);
        }
        if !(c.height_m.is_finite() && (Number { bits: TENTH }).at_most(c.height_m)) {
            return Err(ConfigError::Height);
        }
        if !within(c.fov_deg, Number { bits: THOUSANDTH }, Number { bits: NINETY }) {
            return Err(ConfigError::FieldOfView);
        }
        Ok((host, target, targets))
    }

    /// The scene that the file describes, or the first reason to refuse it.
    pub fn into_scene(&self) -> (r: Result<Scene, ConfigError>)
        ensures
            match r {
                Ok(scene) => {
                    &&& self.refusal() is None
                    &&& scene@ == self.scene()
                    &&& scene@.well_formed()
                    &&& forall|i: usize|
                        i < self.count() ==> follows(
                            self.bodies@[i as int],
                            scene@.bodies[#[trigger] self.place(i) as int],
                        )
                },
                Err(e) => self.refusal() == Some(e) && self.names(e),
            },
    {
        if let Some(e) = self.check_list() {
            return Err(e);
        }
        let (order, bodies) = match self.arrange() {
            Ok(parts) => parts,
            Err(e) => {
                return Err(e);
            },
        };
        if !self.has_luminous_star() {
            return Err(ConfigError::NoLuminousStar);
        }
        let (host, target, named) = match self.check_view() {
            Ok(parts) => parts,
            Err(e) => {
                return Err(e);
            },
        };
        proof {
            law_accepted_scene_is_well_formed(*self);
            self.lemma_complete();
            self.lemma_placed(self.count());
            assert forall|i: usize| i < self.count() implies follows(
                self.bodies@[i as int],
                self.scene().bodies[#[trigger] self.place(i) as int],
            ) by {
                law_bodies_follow_the_file(*self, i);
            }
        }
        let host: usize = self.scene_place(&order, host);
        let default_target: usize = self.scene_place(&order, target);
        let mut targets: Vec<usize> = Vec::new();
        if named.len() == 0 {
            targets.push(default_target);
        }
        let mut k: usize = 0;
        while k < named.len()
            invariant
                k <= named@.len(),
                named@.len() == self.targets@.len(),
                named@.len() > 0 ==> targets@.len() == k,
                named@.len() == 0 ==> targets@ == seq![default_target],
                order@ == self.arranged(),
                order@.len() == self.count(),
                self.count() <= 256,
                forall|j: int|
                    0 <= j < named@.len() ==> #[trigger] named@[j] < self.count() && self.lookup(
                        self.targets@[j]@,
                    ) == Some(named@[j]),
                forall|j: int| 0 <= j < k ==> #[trigger] targets@[j] == self.place(named@[j]),
            decreases named.len() - k,
        {
            targets.push(self.scene_place(&order, named[k]));
            k += 1;
        }
        assert(targets@ =~= self.scene().targets);
        let c = &self.camera;
        Ok(
            Scene {
                bodies,
                host,
                default_target,
                targets,
                atmosphere: c.atmosphere,
                default_fov_deg: c.fov_deg,
                observer_lat_deg: c.latitude_deg,
                observer_lon_deg: c.longitude_deg,
                observer_height_m: c.height_m,
                initial_time_days: self.time_days,
            },
        )
    }

    fn scene_place(&self, order: &Vec<usize>, i: usize) -> (r: usize)
        requires
            self.count() <= 256,
            order@ == self.arranged(),
            order@.len() == self.count(),
            i < self.count(),
        ensures
            r == self.place(i),
    {
        proof {
            self.lemma_complete();
            self.lemma_placed(self.count());
            self.lemma_place(i);
        }
        index_of(order, i)
    }
}

/// `before`, `middle` and `after` joined.
fn framed(before: &str, middle: &str, after: &str) -> (r: String)
    ensures
        r@ == before@ + middle@ + after@,
{
    let mut r = String::from_str(before);
    r.append(middle);
    r.append(after);
    r
}

impl System {
    fn list_unplaced(&self) -> (r: String)
        ensures
            r@ == self.unplaced(self.count()),
    {
        let mut order: Vec<usize> = Vec::new();
        let mut steps: usize = 0;
        while steps < self.bodies.len()
            invariant
                steps <= self.count(),
                order@ == self.placed(steps as nat),
            decreases self.bodies.len() - steps,
        {
            if let Some(i) = self.next_body(&order) {
                order.push(i);
            }
            steps += 1;
        }
        let mut r = String::new();
        let mut i: usize = 0;
        let mut empty = true;
        while i < self.bodies.len()
            invariant
                i <= self.count(),
                order@ == self.arranged(),
                r@ == self.unplaced(i as nat),
                empty == (r@.len() == 0),
            decreases self.bodies.len() - i,
        {
            if !contains(&order, i) {
                if !empty {
                    r.append(", ");
                }
                r.append(self.bodies[i].id.as_str());
                empty = r.as_str().unicode_len() == 0;
                assert(r@ =~= self.unplaced((i + 1) as nat));
            }
            i += 1;
        }
        r
    }

    /// An error in words.
    pub fn message(&self, e: ConfigError) -> (r: String)
        requires
            self.names(e),
        ensures
            r@ == self.described(e),
    {
        match e {
            ConfigError::Version => framed(
                "unsupported version ",
                decimal_text(self.version as u64).as_str(),
                "; expected 1",
            ),
            ConfigError::EmptyName => String::from_str("system name cannot be empty"),
            ConfigError::BodyCount => String::from_str("a system needs 2..=256 bodies"),
            ConfigError::Time => String::from_str("time_days must be finite"),
            ConfigError::BodyId(i) => framed(
                "empty or duplicate body id '",
                self.bodies[i].id.as_str(),
                "'",
            ),
            ConfigError::Roots => String::from_str(
                "exactly one root body is required (use an anchor for a binary system)",
            ),
            ConfigError::UnknownParent(i) => {
                let mut r = framed("body '", self.bodies[i].id.as_str(), "': unknown parent '");
                match &self.bodies[i].parent {
                    Some(parent) => r.append(parent.as_str()),
                    None => {},
                }
                r.append("'");
                r
            },
            ConfigError::Cycle => {
                let mut r = String::from_str("cyclic parent references: ");
                r.append(self.list_unplaced().as_str());
                r
            },
            ConfigError::Body(i, fault) => {
                let mut r = framed("body '", self.bodies[i].id.as_str(), "': ");
                r.append(fault.message());
                r
            },
            ConfigError::NoLuminousStar => String::from_str(
                "at least one luminous star is required",
            ),
            ConfigError::CameraBody => framed(
                "camera.body: unknown body '",
                self.camera.body.as_str(),
                "'",
            ),
            ConfigError::HostKind => String::from_str("camera.body must be a planet or moon"),
            ConfigError::LookAt => framed(
                "camera.look_at: unknown body '",
                self.camera.look_at.as_str(),
                "'",
            ),
            ConfigError::Target(i) => {
                let name = match &self.bodies[i].name {
                    Some(name) => name.as_str(),
                    None => self.bodies[i].id.as_str(),
                };
                framed("target '", name, "' must be a visible body other than the camera host")
            },
            ConfigError::TooManyTargets => String::from_str(
                "targets supports at most nine number-key shortcuts",
            ),
            ConfigError::UnknownTarget(k) => framed(
                "unknown body '",
                self.targets[k].as_str(),
                "'",
            ),
            ConfigError::Latitude => String::from_str("camera.latitude_deg must be in [-90, 90]"),
            ConfigError::Longitude => String::from_str(
                "camera.longitude_deg must be in [-180, 180]",
            ),
            ConfigError::Height => String::from_str(
                "camera.height_m must be at least 0.1 metres",
            ),
            ConfigError::FieldOfView => String::from_str("camera.fov_deg must be in [0.001, 90]"),
        }
    }

    /// Below a body that is not placed stands one that can be.
    proof fn lemma_some_ready(self, placed: Seq<usize>, i: usize, height: spec_fn(int) -> nat)
        requires
            self.count() <= usize::MAX,
            i < self.count(),
            !placed.contains(i),
            forall|j: int| 0 <= j < self.count() ==> !#[trigger] self.orphan(j),
            forall|j: int|
                0 <= j < self.count() ==> (#[trigger] self.parent(j) matches Some(p) ==> height(
                    p as int,
                ) < height(j)),
        ensures
            self.candidates(placed).len() > 0,
        decreases height(i as int),
    {
        let ready = |j: int| self.ready(placed, j);
        crate::order::lemma_picked(self.count(), ready);
        assert(!self.orphan(i as int));
        if self.ready(placed, i as int) {
            assert(self.candidates(placed).contains(i));
        } else {
            let p = self.parent(i as int)->0;
            self.lemma_found(self.bodies@[i as int].parent->0@, 0);
            self.lemma_some_ready(placed, p, height);
        }
    }

    proof fn lemma_some_missing(self, placed: Seq<usize>) -> (i: usize)
        requires
            self.count() <= usize::MAX,
            placed.len() < self.count(),
        ensures
            i < self.count(),
            !placed.contains(i),
    {
        let n = self.count();
        if forall|x: usize| x < n ==> #[trigger] placed.contains(x) {
            let all = Set::new(|x: usize| x < n);
            crate::topology::lemma_range(n);
            placed.lemma_cardinality_of_set();
            assert(all.subset_of(placed.to_set()));
            vstd::set_lib::lemma_len_subset(all, placed.to_set());
        }
        choose|x: usize| x < n && !placed.contains(x)
    }

    proof fn lemma_keeps_going(self, steps: nat, height: spec_fn(int) -> nat)
        requires
            steps <= self.count() <= usize::MAX,
            forall|j: int| 0 <= j < self.count() ==> !#[trigger] self.orphan(j),
            forall|j: int|
                0 <= j < self.count() ==> (#[trigger] self.parent(j) matches Some(p) ==> height(
                    p as int,
                ) < height(j)),
        ensures
            self.placed(steps).len() == steps,
        decreases steps,
    {
        if steps > 0 {
            let m = (steps - 1) as nat;
            self.lemma_keeps_going(m, height);
            let i = self.lemma_some_missing(self.placed(m));
            self.lemma_some_ready(self.placed(m), i, height);
        }
    }
}

impl System {
    proof fn lemma_in_order(self, steps: nat)
        requires
            steps <= self.count() <= usize::MAX,
            forall|i: int| 0 <= i < self.count() ==> !#[trigger] self.orphan(i),
            forall|i: int|
                0 <= i < self.count() ==> (#[trigger] self.parent(i) matches Some(p) ==> p < i),
        ensures
            self.placed(steps) == Seq::new(steps, |i: int| i as usize),
        decreases steps,
    {
        if steps > 0 {
            let m = (steps - 1) as nat;
            self.lemma_in_order(m);
            let before = self.placed(m);
            let ready = |i: int| self.ready(before, i);
            assert forall|j: int| 0 <= j < m implies !#[trigger] ready(j) by {
                assert(before[j] == j as usize);
            }
            assert(ready(m as int)) by {
                assert(!self.orphan(m as int));
                if let Some(p) = self.parent(m as int) {
                    assert(before[p as int] == p);
                }
            }
            crate::order::lemma_first_picked(self.count(), ready, m);
        }
        assert(self.placed(steps) =~= Seq::new(steps, |i: int| i as usize));
    }
}

/// Bodies whose parent references lead to ever lower heights, that is without
/// a cycle, can all be arranged, in whatever order the file has them.
pub proof fn law_acyclic_files_are_arranged(s: System, height: spec_fn(int) -> nat)
    requires
        s.list_error() is None,
        forall|j: int|
            0 <= j < s.count() ==> (#[trigger] s.parent(j) matches Some(p) ==> height(p as int)
                < height(j)),
    ensures
        s.arranged().len() == s.count(),
{
    crate::order::lemma_picked(s.count(), |i: int| s.orphan(i));
    assert forall|j: int| 0 <= j < s.count() implies !#[trigger] s.orphan(j) by {
        if s.orphan(j) {
            assert(crate::order::picked(s.count(), |i: int| s.orphan(i)).contains(j as usize));
        }
    }
    s.lemma_keeps_going(s.count(), height);
}

/// A complete arrangement has every parent before its children, so no cycle
/// can be accepted.
pub proof fn law_parents_come_first(s: System, i: usize, p: usize)
    requires
        s.count() <= usize::MAX,
        s.arranged().len() == s.count(),
        i < s.count(),
        s.parent(i as int) == Some(p),
    ensures
        s.place(p) < s.place(i),
{
    let a = s.arranged();
    s.lemma_placed(s.count());
    s.lemma_place(i);
    let k = s.place(i) as int;
    assert(a[k] == i);
    assert(a.take(k).contains(p));
    let q = choose|q: int| 0 <= q < k && a.take(k)[q] == p;
    assert(a[q] == p);
    s.lemma_found(s.bodies@[i as int].parent->0@, 0);
    s.lemma_place(p);
}

/// A file that lists parents first already keeps its order.
pub proof fn law_parents_first_keeps_the_order(s: System)
    requires
        s.list_error() is None,
        forall|i: int|
            0 <= i < s.count() ==> (#[trigger] s.parent(i) matches Some(p) ==> p < i),
    ensures
        s.arranged() == Seq::new(s.count(), |i: int| i as usize),
        forall|i: usize| i < s.count() ==> #[trigger] s.place(i) == i,
{
    s.lemma_listed();
    s.lemma_in_order(s.count());
    s.lemma_placed(s.count());
    assert forall|i: usize| i < s.count() implies #[trigger] s.place(i) == i by {
        s.lemma_place(i);
    }
}

/// The first body of an arrangement is the root, and the only one.
proof fn lemma_root_first(s: System, k: int)
    requires
        s.refusal() is None,
        0 <= k < s.count(),
    ensures
        s.arranged().len() == s.count(),
        s.arranged()[k] < s.count(),
        s.bodies@[s.arranged()[k] as int].parent is None <==> k == 0,
{
    let n = s.count();
    let a = s.arranged();
    s.lemma_progress(n);
    s.lemma_placed(n);
    assert(s.bodies@[a[0] as int].parent is None) by {
        assert(a.take(0).len() == 0);
    }
    let roots = s.roots();
    crate::order::lemma_picked(n, |i: int| s.bodies@[i].parent is None);
    if s.bodies@[a[k] as int].parent is None {
        assert(roots.contains(a[k]));
        assert(roots.contains(a[0]));
        assert(roots[0] == a[k]);
        assert(roots[0] == a[0]);
    }
}

/// Behind the root, every body of the scene follows its parent.
proof fn lemma_behind_its_parent(s: System, k: int)
    requires
        s.refusal() is None,
        0 < k < s.count(),
    ensures
        s.scene().bodies[k].parent matches Some(p) && p < k,
{
    let n = s.count();
    let a = s.arranged();
    s.lemma_progress(n);
    s.lemma_placed(n);
    lemma_root_first(s, k);
    let p = s.parent(a[k] as int)->0;
    assert(a.take(k).contains(p));
    let q = choose|q: int| 0 <= q < k && a.take(k)[q] == p;
    assert(a[q] == p);
    s.lemma_place(p);
}

/// A body of the file that can be pointed at from the host can be in the scene.
proof fn lemma_points(s: System, host: usize, i: usize)
    requires
        s.arranged().len() == s.count() <= usize::MAX,
        host < s.count(),
        i < s.count(),
        s.can_target(host, i),
    ensures
        crate::sim::visible_from(s.scene_bodies(), s.place(host), s.place(i)),
{
    s.lemma_place(host);
    s.lemma_place(i);
    s.lemma_distinct_places(host, i);
}

/// An accepted file makes a scene in which the root comes first, parents
/// precede their children and everything named can be pointed at.
pub proof fn law_accepted_scene_is_well_formed(s: System)
    requires
        s.refusal() is None,
    ensures
        s.scene().well_formed(),
        s.scene().bodies.len() == s.count(),
        1 <= s.scene().targets.len() <= 9,
{
    let n = s.count();
    let bodies = s.scene().bodies;
    lemma_root_first(s, 0);
    s.lemma_found(s.camera.body@, 0);
    s.lemma_found(s.camera.look_at@, 0);
    let host = s.lookup(s.camera.body@)->0;
    let target = s.lookup(s.camera.look_at@)->0;
    s.lemma_place(host);
    lemma_points(s, host, target);
    s.lemma_targets(host, 0);
    assert(bodies[0].parent is None);
    assert forall|k: int| 0 < k < n implies ((#[trigger] bodies[k]).parent matches Some(p) && p
        < k) by {
        lemma_behind_its_parent(s, k);
    }
    assert forall|k: int| 0 <= k < s.scene().targets.len() implies crate::sim::visible_from(
        bodies,
        s.scene().host,
        #[trigger] s.scene().targets[k],
    ) by {
        if s.targets@.len() > 0 {
            lemma_points(s, host, s.lookup(s.targets@[k]@)->0);
        }
    }
}

impl Orbit {
    /// Whether the orbit clears body `p` of the file.
    pub open spec fn clear_of(self, p: usize) -> bool {
        p < self.clears@.len() && self.clears@[p as int]
    }

    /// The same orbit in a file whose bodies are shuffled by `f`.
    pub open spec fn same(self, other: Orbit, f: spec_fn(usize) -> usize, count: nat) -> bool {
        &&& other.semi_major_axis_au == self.semi_major_axis_au
        &&& other.semi_major_axis_km == self.semi_major_axis_km
        &&& other.period_days == self.period_days
        &&& other.eccentricity == self.eccentricity
        &&& other.inclination == self.inclination
        &&& other.ascending_node == self.ascending_node
        &&& other.periapsis == self.periapsis
        &&& other.mean_anomaly == self.mean_anomaly
        &&& other.epoch_days == self.epoch_days
        &&& forall|p: usize| p < count ==> other.clear_of(#[trigger] f(p)) == self.clear_of(p)
    }
}

impl BodyDef {
    /// The same definition in a file whose bodies are shuffled by `f`.
    pub open spec fn same(self, other: BodyDef, f: spec_fn(usize) -> usize, count: nat) -> bool {
        &&& other.id@ == self.id@
        &&& crate::menu::text_view(other.name) == crate::menu::text_view(self.name)
        &&& other.kind == self.kind
        &&& crate::menu::text_view(other.parent) == crate::menu::text_view(self.parent)
        &&& other.radius == self.radius
        &&& other.albedo == self.albedo
        &&& other.luminosity == self.luminosity
        &&& other.emission == self.emission
        &&& other.rotation == self.rotation
        &&& other.rings == self.rings
        &&& match self.orbit {
            Some(o) => other.orbit is Some && o.same(other.orbit->0, f, count),
            None => other.orbit is None,
        }
    }

    /// A definition that moves within its file keeps its faults and its body.
    proof fn lemma_same(
        self,
        other: BodyDef,
        f: spec_fn(usize) -> usize,
        count: nat,
        parent: Option<usize>,
        place: Option<usize>,
    )
        requires
            self.same(other, f, count),
            parent matches Some(p) ==> p < count,
        ensures
            other.fault(
                match parent {
                    Some(p) => Some(f(p)),
                    None => None,
                },
            ) == self.fault(parent),
            other.body(place) == self.body(place),
    {
        if let Some(o) = self.orbit {
            let q = other.orbit->0;
            assert(q.axis() == o.axis());
            assert(q.elements() == o.elements());
            if let Some(p) = parent {
                assert(q.clear_of(f(p)) == o.clear_of(p));
                assert(q.fault(f(p)) == o.fault(p));
            }
        }
    }
}

impl System {
    /// The same file with its bodies shuffled by `f`, whose inverse is `g`.
    pub open spec fn shuffled(
        self,
        other: System,
        f: spec_fn(usize) -> usize,
        g: spec_fn(usize) -> usize,
    ) -> bool {
        &&& self.count() <= usize::MAX
        &&& other.count() == self.count()
        &&& crate::topology::shuffles(f, g, self.count())
        &&& other.version == self.version
        &&& other.name@ == self.name@
        &&& other.time_days == self.time_days
        &&& other.camera.body@ == self.camera.body@
        &&& other.camera.look_at@ == self.camera.look_at@
        &&& other.camera.latitude_deg == self.camera.latitude_deg
        &&& other.camera.longitude_deg == self.camera.longitude_deg
        &&& other.camera.height_m == self.camera.height_m
        &&& other.camera.fov_deg == self.camera.fov_deg
        &&& other.camera.atmosphere == self.camera.atmosphere
        &&& other.targets@.len() == self.targets@.len()
        &&& forall|k: int|
            0 <= k < self.targets@.len() ==> (#[trigger] other.targets@[k])@ == self.targets@[k]@
        &&& forall|i: usize|
            i < self.count() ==> self.bodies@[i as int].same(
                other.bodies@[(#[trigger] f(i)) as int],
                f,
                self.count(),
            )
    }

    /// Every id is found where it stands.
    pub open spec fn distinct(self) -> bool {
        forall|i: int| 0 <= i < self.count() ==> !#[trigger] self.bad_id(i)
    }

    proof fn lemma_shuffled_back(
        self,
        other: System,
        f: spec_fn(usize) -> usize,
        g: spec_fn(usize) -> usize,
    )
        requires
            self.shuffled(other, f, g),
        ensures
            other.shuffled(self, g, f),
    {
        let n = self.count();
        assert forall|k: int| 0 <= k < other.targets@.len() implies (
        #[trigger] self.targets@[k])@ == other.targets@[k]@ by {
            assert(other.targets@[k]@ == self.targets@[k]@);
        }
        assert forall|i: usize| i < n implies other.bodies@[i as int].same(
            self.bodies@[(#[trigger] g(i)) as int],
            g,
            n,
        ) by {
            let j = g(i);
            assert(f(j) == i);
            let was = self.bodies@[j as int];
            let is = other.bodies@[i as int];
            assert(was.same(is, f, n));
            if let Some(o) = is.orbit {
                let q = was.orbit->0;
                assert(q.same(o, f, n));
                assert forall|p: usize| p < n implies q.clear_of(#[trigger] g(p)) == o.clear_of(
                    p,
                ) by {
                    assert(f(g(p)) == p);
                }
            }
        }
    }

    /// Ids are found in the shuffled file where they went.
    proof fn lemma_shuffled_lookup(
        self,
        other: System,
        f: spec_fn(usize) -> usize,
        g: spec_fn(usize) -> usize,
        id: Seq<char>,
    )
        requires
            self.shuffled(other, f, g),
            self.distinct(),
        ensures
            other.lookup(id) == (match self.lookup(id) {
                Some(i) => Some(f(i)),
                None => None,
            }),
            self.lookup(id) matches Some(i) ==> i < self.count(),
    {
        self.lemma_found(id, 0);
        other.lemma_found(id, 0);
        if let Some(j) = other.lookup(id) {
            let i = g(j);
            assert(f(i) == j);
            assert(self.id(i as int) == id);
            assert(!self.bad_id(i as int));
            assert(self.lookup(id) == Some(i));
        } else if let Some(i) = self.lookup(id) {
            assert(f(i) < other.count());
            assert(other.id(f(i) as int) == id);
        }
    }

    proof fn lemma_shuffled_parent(
        self,
        other: System,
        f: spec_fn(usize) -> usize,
        g: spec_fn(usize) -> usize,
        i: usize,
    )
        requires
            self.shuffled(other, f, g),
            self.distinct(),
            i < self.count(),
        ensures
            other.parent(f(i) as int) == (match self.parent(i as int) {
                Some(p) => Some(f(p)),
                None => None,
            }),
            self.parent(i as int) matches Some(p) ==> p < self.count(),
            other.bodies@[f(i) as int].parent is None == self.bodies@[i as int].parent is None,
    {
        assert(self.bodies@[i as int].same(other.bodies@[f(i) as int], f, self.count()));
        if let Some(id) = self.bodies@[i as int].parent {
            self.lemma_shuffled_lookup(other, f, g, id@);
        }
    }

    /// What an accepted list of bodies has.
    proof fn lemma_listed(self)
        requires
            self.list_error() is None,
        ensures
            self.distinct(),
            forall|i: int| 0 <= i < self.count() ==> !#[trigger] self.orphan(i),
    {
        let bad = |i: int| self.bad_id(i);
        let orphan = |i: int| self.orphan(i);
        crate::order::lemma_picked(self.count(), bad);
        crate::order::lemma_picked(self.count(), orphan);
        assert forall|i: int| 0 <= i < self.count() implies !#[trigger] self.bad_id(i) by {
            if self.bad_id(i) {
                assert(crate::order::picked(self.count(), bad).contains(i as usize));
            }
        }
        assert forall|i: int| 0 <= i < self.count() implies !#[trigger] self.orphan(i) by {
            if self.orphan(i) {
                assert(crate::order::picked(self.count(), orphan).contains(i as usize));
            }
        }
    }

    proof fn lemma_shuffled_list(
        self,
        other: System,
        f: spec_fn(usize) -> usize,
        g: spec_fn(usize) -> usize,
    )
        requires
            self.shuffled(other, f, g),
            self.list_error() is None,
        ensures
            other.list_error() is None,
            other.distinct(),
            forall|i: int| 0 <= i < other.count() ==> !#[trigger] other.orphan(i),
    {
        let n = self.count();
        self.lemma_listed();
        assert forall|j: int| 0 <= j < n implies !#[trigger] other.bad_id(j) by {
            let i = g(j as usize);
            assert(f(i) == j);
            assert(self.bodies@[i as int].same(other.bodies@[f(i) as int], f, n));
            assert(!self.bad_id(i as int));
            self.lemma_shuffled_lookup(other, f, g, self.id(i as int));
        }
        assert forall|j: int| 0 <= j < n implies !#[trigger] other.orphan(j) by {
            let i = g(j as usize);
            assert(f(i) == j);
            self.lemma_shuffled_parent(other, f, g, i);
            assert(!self.orphan(i as int));
        }
        let bad = |i: int| other.bad_id(i);
        let orphan = |i: int| other.orphan(i);
        crate::order::lemma_picked(n, bad);
        crate::order::lemma_picked(n, orphan);
        let first_bad = crate::order::picked(n, bad);
        let first_orphan = crate::order::picked(n, orphan);
        if first_bad.len() > 0 {
            assert(bad(first_bad[0] as int));
        }
        if first_orphan.len() > 0 {
            assert(orphan(first_orphan[0] as int));
        }
        let rootless = |i: int| self.bodies@[i].parent is None;
        let other_rootless = |i: int| other.bodies@[i].parent is None;
        crate::order::lemma_picked(n, rootless);
        crate::order::lemma_picked(n, other_rootless);
        let roots = self.roots();
        let others = other.roots();
        let r = roots[0];
        assert(rootless(r as int));
        self.lemma_shuffled_parent(other, f, g, r);
        assert(others.contains(f(r)));
        assert forall|k: int| 0 <= k < others.len() implies #[trigger] others[k] == f(r) by {
            let j = others[k];
            let i = g(j);
            assert(f(i) == j);
            assert(other_rootless(j as int));
            self.lemma_shuffled_parent(other, f, g, i);
            assert(roots.contains(i));
        }
        if others.len() > 1 {
            assert(others[0] == others[1]);
        }
        assert(others.len() == 1);
    }

    /// Nothing stops a file without a cycle whose bodies have no fault.
    proof fn lemma_unstopped(self, steps: nat, height: spec_fn(int) -> nat)
        requires
            steps <= self.count() <= usize::MAX,
            forall|j: int| 0 <= j < self.count() ==> !#[trigger] self.orphan(j),
            forall|j: int|
                0 <= j < self.count() ==> (#[trigger] self.parent(j) matches Some(p) ==> height(
                    p as int,
                ) < height(j)),
            forall|j: int|
                0 <= j < self.count() ==> self.bodies@[j].fault(#[trigger] self.parent(j)) is None,
        ensures
            self.stopped(steps) is None,
        decreases steps,
    {
        if steps > 0 {
            let m = (steps - 1) as nat;
            self.lemma_unstopped(m, height);
            self.lemma_keeps_going(m, height);
            self.lemma_keeps_going(steps, height);
            let before = self.placed(m);
            let c = self.candidates(before);
            crate::order::lemma_picked(self.count(), |i: int| self.ready(before, i));
            assert(c.len() > 0);
            assert(self.bodies@[c[0] as int].fault(self.parent(c[0] as int)) is None);
        }
    }

    proof fn lemma_shuffled_arrangement(
        self,
        other: System,
        f: spec_fn(usize) -> usize,
        g: spec_fn(usize) -> usize,
    )
        requires
            self.shuffled(other, f, g),
            self.list_error() is None,
            self.stopped(self.count()) is None,
        ensures
            other.stopped(other.count()) is None,
            self.arranged().len() == self.count(),
            other.arranged().len() == other.count(),
    {
        let n = self.count();
        self.lemma_listed();
        self.lemma_progress(n);
        self.lemma_complete();
        self.lemma_shuffled_list(other, f, g);
        let height = |j: int| self.place(g(j as usize)) as nat;
        assert forall|j: int| 0 <= j < n implies (#[trigger] other.parent(j) matches Some(p)
            ==> height(p as int) < height(j)) && other.bodies@[j].fault(other.parent(j)) is None by {
            let i = g(j as usize);
            assert(f(i) == j);
            let q = self.parent(i as int);
            self.lemma_shuffled_parent(other, f, g, i);
            self.bodies@[i as int].lemma_same(other.bodies@[j], f, n, q, None);
            assert(self.arranged().contains(i));
            let k = choose|k: int| 0 <= k < self.arranged().len() && self.arranged()[k] == i;
            assert(self.bodies@[self.placed(n)[k] as int].fault(
                self.parent(self.placed(n)[k] as int),
            ) is None);
            if let Some(p) = q {
                law_parents_come_first(self, i, p);
                assert(g(f(p)) == p);
            }
        }
        other.lemma_unstopped(n, height);
        other.lemma_progress(n);
    }

    proof fn lemma_shuffled_targets(
        self,
        other: System,
        f: spec_fn(usize) -> usize,
        g: spec_fn(usize) -> usize,
        host: usize,
        from: nat,
    )
        requires
            self.shuffled(other, f, g),
            self.distinct(),
            host < self.count(),
            self.target_error(host, from) is None,
        ensures
            other.target_error(f(host), from) is None,
        decreases self.targets@.len() - from,
    {
        if from < self.targets@.len() {
            let id = self.targets@[from as int]@;
            assert(other.targets@[from as int]@ == id);
            self.lemma_shuffled_lookup(other, f, g, id);
            let i = self.lookup(id)->0;
            self.lemma_shuffled_target(other, f, g, host, i);
            self.lemma_shuffled_targets(other, f, g, host, from + 1);
        }
    }

    proof fn lemma_shuffled_target(
        self,
        other: System,
        f: spec_fn(usize) -> usize,
        g: spec_fn(usize) -> usize,
        host: usize,
        i: usize,
    )
        requires
            self.shuffled(other, f, g),
            host < self.count(),
            i < self.count(),
        ensures
            other.can_target(f(host), f(i)) == self.can_target(host, i),
            other.bodies@[f(host) as int].kind == self.bodies@[host as int].kind,
    {
        assert(g(f(host)) == host);
        assert(g(f(i)) == i);
        assert(self.bodies@[i as int].same(other.bodies@[f(i) as int], f, self.count()));
        assert(self.bodies@[host as int].same(other.bodies@[f(host) as int], f, self.count()));
    }

    proof fn lemma_shuffled_accepted(
        self,
        other: System,
        f: spec_fn(usize) -> usize,
        g: spec_fn(usize) -> usize,
    )
        requires
            self.shuffled(other, f, g),
            self.refusal() is None,
        ensures
            other.refusal() is None,
    {
        let n = self.count();
        self.lemma_listed();
        self.lemma_shuffled_list(other, f, g);
        self.lemma_shuffled_arrangement(other, f, g);
        let i = choose|i: int| 0 <= i < n && #[trigger] self.luminous(i);
        assert(self.bodies@[i].same(other.bodies@[f(i as usize) as int], f, n));
        assert(other.luminous(f(i as usize) as int));
        self.lemma_shuffled_lookup(other, f, g, self.camera.body@);
        self.lemma_shuffled_lookup(other, f, g, self.camera.look_at@);
        let host = self.lookup(self.camera.body@)->0;
        let target = self.lookup(self.camera.look_at@)->0;
        self.lemma_shuffled_target(other, f, g, host, target);
        self.lemma_shuffled_targets(other, f, g, host, 0);
    }

    /// Where body `k` of this file's scene stands in that of the other.
    pub open spec fn moved_to(
        self,
        other: System,
        f: spec_fn(usize) -> usize,
        k: usize,
    ) -> usize {
        other.place(f(self.arranged()[k as int]))
    }
}

/// `b` shows what `a` shows, its bodies renumbered by `h`.
pub open spec fn same_scene(a: SceneView, b: SceneView, h: spec_fn(usize) -> usize) -> bool {
    &&& b.bodies.len() == a.bodies.len()
    &&& forall|k: usize|
        k < a.bodies.len() ==> {
            &&& #[trigger] h(k) < b.bodies.len()
            &&& b.bodies[h(k) as int] == (BodyView {
                parent: match a.bodies[k as int].parent {
                    Some(p) => Some(h(p)),
                    None => None,
                },
                ..a.bodies[k as int]
            })
        }
    &&& forall|k: usize, m: usize|
        k < a.bodies.len() && m < a.bodies.len() && #[trigger] h(k) == #[trigger] h(m) ==> k == m
    &&& b.targets.len() == a.targets.len()
    &&& forall|k: int| 0 <= k < a.targets.len() ==> b.targets[k] == h(#[trigger] a.targets[k])
    &&& b == (SceneView {
        bodies: b.bodies,
        host: h(a.host),
        default_target: h(a.default_target),
        targets: b.targets,
        ..a
    })
}

/// The order of the bodies in a file does not matter: shuffling them decides
/// nothing about acceptance, and an accepted file shows the same bodies, orbits,
/// host and targets.
pub proof fn law_file_order_does_not_matter(
    a: System,
    b: System,
    f: spec_fn(usize) -> usize,
    g: spec_fn(usize) -> usize,
)
    requires
        a.shuffled(b, f, g),
    ensures
        a.refusal() is None <==> b.refusal() is None,
        a.refusal() is None ==> same_scene(a.scene(), b.scene(), |k: usize| a.moved_to(b, f, k)),
{
    a.lemma_shuffled_back(b, f, g);
    if b.refusal() is None {
        b.lemma_shuffled_accepted(a, g, f);
    }
    if a.refusal() is None {
        a.lemma_shuffled_accepted(b, f, g);
        lemma_shuffled_scene(a, b, f, g);
    }
}

/// A body of the file stands in the shuffled scene where `moved_to` says.
proof fn lemma_moved(
    a: System,
    b: System,
    f: spec_fn(usize) -> usize,
    g: spec_fn(usize) -> usize,
    i: usize,
)
    requires
        a.shuffled(b, f, g),
        a.arranged().len() == a.count(),
        b.arranged().len() == b.count(),
        i < a.count(),
    ensures
        a.moved_to(b, f, a.place(i)) == b.place(f(i)),
        a.place(i) < a.count(),
        b.place(f(i)) < b.count(),
        b.arranged()[b.place(f(i)) as int] == f(i),
{
    a.lemma_place(i);
    assert(f(i) < b.count());
    b.lemma_place(f(i));
}

proof fn lemma_shuffled_scene(
    a: System,
    b: System,
    f: spec_fn(usize) -> usize,
    g: spec_fn(usize) -> usize,
)
    requires
        a.shuffled(b, f, g),
        a.refusal() is None,
        b.refusal() is None,
    ensures
        same_scene(a.scene(), b.scene(), |k: usize| a.moved_to(b, f, k)),
{
    let n = a.count();
    let h = |k: usize| a.moved_to(b, f, k);
    let s = a.scene();
    let t = b.scene();
    a.lemma_listed();
    a.lemma_shuffled_arrangement(b, f, g);
    a.lemma_placed(n);
    assert forall|k: usize| k < n implies {
        &&& #[trigger] h(k) < t.bodies.len()
        &&& t.bodies[h(k) as int] == (BodyView {
            parent: match s.bodies[k as int].parent {
                Some(p) => Some(h(p)),
                None => None,
            },
            ..s.bodies[k as int]
        })
        &&& g(b.arranged()[h(k) as int]) == a.arranged()[k as int]
    } by {
        let i = a.arranged()[k as int];
        assert(i < n);
        assert(g(f(i)) == i);
        a.lemma_place(i);
        lemma_moved(a, b, f, g, i);
        a.lemma_shuffled_parent(b, f, g, i);
        let place: Option<usize> = match b.parent(f(i) as int) {
            Some(p) => Some(b.place(p)),
            None => None,
        };
        a.bodies@[i as int].lemma_same(
            b.bodies@[f(i) as int],
            f,
            n,
            a.parent(i as int),
            place,
        );
        if let Some(p) = a.parent(i as int) {
            lemma_moved(a, b, f, g, p);
        }
        assert(t.bodies[h(k) as int] == b.scene_body(h(k) as int));
        assert(s.bodies[k as int] == a.scene_body(k as int));
    }
    assert forall|k: usize, m: usize| k < n && m < n && #[trigger] h(k) == #[trigger] h(m) implies k
        == m by {
        assert(a.arranged()[k as int] == a.arranged()[m as int]);
    }
    a.lemma_shuffled_lookup(b, f, g, a.camera.body@);
    a.lemma_shuffled_lookup(b, f, g, a.camera.look_at@);
    let host = a.lookup(a.camera.body@)->0;
    let target = a.lookup(a.camera.look_at@)->0;
    lemma_moved(a, b, f, g, host);
    lemma_moved(a, b, f, g, target);
    a.lemma_targets(host, 0);
    assert forall|k: int| 0 <= k < s.targets.len() implies t.targets[k] == h(
        #[trigger] s.targets[k],
    ) by {
        if a.targets@.len() > 0 {
            let id = a.targets@[k]@;
            assert(b.targets@[k]@ == id);
            a.lemma_shuffled_lookup(b, f, g, id);
            lemma_moved(a, b, f, g, a.lookup(id)->0);
        }
    }
}

/// A number above zero.
pub open spec fn above_zero(x: Number) -> bool {
    x@ is Finite && x@->0 > 0
}

/// Three numbers from zero to one.
pub open spec fn paint(c: Color) -> bool {
    let one = crate::number::unit();
    &&& c.red@ is Finite && 0 <= c.red@->0 <= one
    &&& c.green@ is Finite && 0 <= c.green@->0 <= one
    &&& c.blue@ is Finite && 0 <= c.blue@->0 <= one
}

/// What a definition has to meet, rule by rule, in the order in which the rules are
/// applied. `p` is the place of its parent in the file. A rule on what the
/// definition does not have is met.
pub open spec fn body_rules(d: BodyDef, p: Option<usize>) -> Seq<(BodyFault, bool)> {
    let one = crate::number::unit();
    let o = d.orbit->0;
    let turns = d.orbit is Some;
    let axis = if o.semi_major_axis_au is Some {
        o.semi_major_axis_au->0
    } else {
        o.semi_major_axis_km->0.au
    };
    let r = d.rings->0;
    let ringed = d.rings is Some;
    seq![
        (
            BodyFault::Radius,
            if d.kind == BodyKind::Anchor {
                d.radius.km@ is Finite && d.radius.km@->0 == 0
            } else {
                above_zero(d.radius.km)
            },
        ),
        (BodyFault::Albedo, paint(d.albedo)),
        (BodyFault::Emission, paint(d.emission)),
        (BodyFault::Luminosity, d.luminosity@ is Finite && d.luminosity@->0 >= 0),
        (BodyFault::NotAStar, d.kind == BodyKind::Star || d.luminosity@->0 == 0),
        (BodyFault::ParentWithoutOrbit, p is Some <==> d.orbit is Some),
        (
            BodyFault::AxisChoice,
            turns ==> (o.semi_major_axis_au is Some <==> o.semi_major_axis_km is None),
        ),
        (BodyFault::Axis, turns ==> above_zero(axis)),
        (BodyFault::Period, turns ==> above_zero(o.period_days)),
        (
            BodyFault::Eccentricity,
            turns ==> o.eccentricity@ is Finite && 0 <= o.eccentricity@->0 && o.eccentricity@->0
                < one,
        ),
        (
            BodyFault::OrbitAngles,
            turns ==> o.inclination.degrees@ is Finite && o.ascending_node.degrees@ is Finite
                && o.periapsis.degrees@ is Finite && o.mean_anomaly.degrees@ is Finite
                && o.epoch_days@ is Finite,
        ),
        (BodyFault::Intersects, turns ==> p->0 < o.clears@.len() && o.clears@[p->0 as int]),
        (
            BodyFault::Rotation,
            d.rotation matches Rotation::Free { period_days, obliquity, phase } ==> period_days@
                is Finite && period_days@->0 != 0 && obliquity.degrees@ is Finite && phase.degrees@
                is Finite,
        ),
        (BodyFault::TidalLock, d.rotation == Rotation::TidalLock ==> p is Some),
        (BodyFault::RingHost, ringed ==> d.kind == BodyKind::Planet || d.kind == BodyKind::Moon),
        (
            BodyFault::RingRadii,
            ringed ==> r.inner_radius@ is Finite && r.outer_radius@ is Finite && one
                < r.inner_radius@->0 && r.inner_radius@->0 < r.outer_radius@->0,
        ),
        (BodyFault::RingDepth, ringed ==> r.optical_depth@ is Finite && r.optical_depth@->0 >= 0),
        (BodyFault::RingAlbedo, ringed ==> paint(r.albedo)),
    ]
}

/// A body is refused for the first rule that it breaks, and built exactly if it
/// breaks none.
#[verifier::rlimit(50)]
pub proof fn law_body_rules(d: BodyDef, p: Option<usize>, k: int)
    requires
        0 <= k < 18,
    ensures
        ({
            let rules = body_rules(d, p);
            &&& rules.len() == 18
            &&& d.fault(p) is None ==> rules[k].1
            &&& (forall|j: int| 0 <= j < 18 ==> (#[trigger] rules[j]).1) ==> d.fault(p) is None
            &&& !rules[k].1 && (forall|j: int| 0 <= j < k ==> (#[trigger] rules[j]).1) ==> d.fault(p)
                == Some(rules[k].0)
        }),
{
    let rules = body_rules(d, p);
    crate::number::lemma_bounds();
    assert(forall|x: Number| #[trigger] positive(x) == above_zero(x));
    assert(forall|c: Color| #[trigger] c.valid() == paint(c));
    if forall|j: int| 0 <= j < 18 ==> (#[trigger] rules[j]).1 {
        lemma_unroll(rules, 18);
    }
    if forall|j: int| 0 <= j < k ==> (#[trigger] rules[j]).1 {
        lemma_unroll(rules, k);
    }
}

/// The first `k` of eighteen rules, one by one.
proof fn lemma_unroll(rules: Seq<(BodyFault, bool)>, k: int)
    requires
        rules.len() == 18,
        forall|j: int| 0 <= j < k ==> (#[trigger] rules[j]).1,
    ensures
        k > 0 ==> rules[0].1,
        k > 1 ==> rules[1].1,
        k > 2 ==> rules[2].1,
        k > 3 ==> rules[3].1,
        k > 4 ==> rules[4].1,
        k > 5 ==> rules[5].1,
        k > 6 ==> rules[6].1,
        k > 7 ==> rules[7].1,
        k > 8 ==> rules[8].1,
        k > 9 ==> rules[9].1,
        k > 10 ==> rules[10].1,
        k > 11 ==> rules[11].1,
        k > 12 ==> rules[12].1,
        k > 13 ==> rules[13].1,
        k > 14 ==> rules[14].1,
        k > 15 ==> rules[15].1,
        k > 16 ==> rules[16].1,
        k > 17 ==> rules[17].1,
{
}

/// Whether a scene's body is what a definition says, apart from its parent: each
/// number of the orbit in its own element, and the rotation its own or, locked, that
/// of the orbit.
pub open spec fn follows(d: BodyDef, b: BodyView) -> bool {
    let zero = Number { bits: 0 };
    &&& d.name is Some ==> b.name == d.name->0@
    &&& d.name is None ==> b.name == d.id@
    &&& b.kind == d.kind
    &&& b.radius == d.radius.au
    &&& b.albedo == d.albedo
    &&& b.emission == d.emission
    &&& b.luminosity == d.luminosity
    &&& b.rings == d.rings
    &&& d.orbit matches Some(o) ==> {
        &&& o.semi_major_axis_au is Some ==> b.elements.a == o.semi_major_axis_au->0
        &&& o.semi_major_axis_km is Some ==> b.elements.a == o.semi_major_axis_km->0.au
        &&& b.elements.e == o.eccentricity
        &&& b.elements.inc == o.inclination.radians
        &&& b.elements.node == o.ascending_node.radians
        &&& b.elements.peri == o.periapsis.radians
        &&& b.elements.m0 == o.mean_anomaly.radians
        &&& b.elements.epoch == o.epoch_days
        &&& b.period_days == o.period_days
    }
    &&& d.orbit is None ==> {
        &&& b.elements.a == zero && b.elements.e == zero && b.elements.inc == zero
        &&& b.elements.node == zero && b.elements.peri == zero && b.elements.m0 == zero
        &&& b.elements.epoch == zero && b.period_days == zero
    }
    &&& d.rotation matches Rotation::Free { period_days, obliquity, phase } ==> {
        &&& b.spin_period == period_days
        &&& b.obliquity == obliquity.radians
        &&& b.spin_phase == phase.radians
        &&& !b.tidally_locked
    }
    &&& d.rotation == Rotation::TidalLock ==> {
        &&& d.orbit is Some
        &&& b.spin_period == d.orbit->0.period_days
        &&& b.obliquity == d.orbit->0.inclination.radians
        &&& b.spin_phase == d.orbit->0.mean_anomaly.radians
        &&& b.tidally_locked
    }
}

/// Body `i` of an accepted file stands in the scene as the file has it: under its
/// name (or its id), with the orbit's numbers each in its own element, the period,
/// size and colours, and its own rotation or, locked, that of its orbit. It orbits
/// the body whose id it names.
#[verifier::rlimit(50)]
pub proof fn law_bodies_follow_the_file(s: System, i: usize)
    requires
        s.refusal() is None,
        i < s.count(),
    ensures
        ({
            let d = s.bodies@[i as int];
            let k = s.place(i);
            let b = s.scene().bodies[k as int];
            &&& k < s.scene().bodies.len()
            &&& s.scene().bodies.len() == s.bodies@.len()
            &&& follows(d, b)
            &&& d.parent is None ==> b.parent is None && d.orbit is None
            &&& d.parent is Some ==> d.orbit is Some && exists|p: usize|
                p < s.count() && (#[trigger] s.bodies@[p as int]).id@ == d.parent->0@ && b.parent
                    == Some(s.place(p)) && s.place(p) < k
        }),
{
    let n = s.count();
    let d = s.bodies@[i as int];
    s.lemma_progress(n);
    s.lemma_placed(n);
    s.lemma_place(i);
    s.lemma_listed();
    assert(s.scene().bodies[s.place(i) as int] == s.scene_body(s.place(i) as int));
    assert(s.bodies@[s.placed(n)[s.place(i) as int] as int].fault(
        s.parent(s.placed(n)[s.place(i) as int] as int),
    ) is None);
    assert(!s.orphan(i as int));
    if d.parent is Some {
        let p = s.parent(i as int)->0;
        s.lemma_found(d.parent->0@, 0);
        law_parents_come_first(s, i, p);
        assert(s.id(p as int) == d.parent->0@);
        assert(s.bodies@[p as int].id@ == d.parent->0@);
    }
}

/// Every body of an accepted file has a place of its own in the scene, and every
/// place is some body's.
pub proof fn law_places_are_shared_out(s: System, i: usize, j: usize, k: usize)
    requires
        s.refusal() is None,
        i < s.count(),
        j < s.count(),
        k < s.count(),
    ensures
        s.place(i) == s.place(j) ==> i == j,
        exists|m: usize| m < s.count() && #[trigger] s.place(m) == k,
{
    let n = s.count();
    s.lemma_progress(n);
    s.lemma_placed(n);
    if i != j {
        s.lemma_distinct_places(i, j);
    }
    let m = s.arranged()[k as int];
    s.lemma_place(m);
    assert(s.place(m) == k);
}

/// The scene looks as the camera says: from the body that it names, at the body that
/// it names, from that place and height, through that field of view and air, at the
/// file's time; the number keys lead to the file's targets in their order, or to what
/// the camera looks at where it lists none.
pub proof fn law_the_view_follows_the_camera(s: System, k: int)
    requires
        s.refusal() is None,
    ensures
        ({
            let v = s.scene();
            let c = s.camera;
            &&& exists|i: usize|
                i < s.count() && (#[trigger] s.bodies@[i as int]).id@ == c.body@ && v.host
                    == s.place(i)
            &&& exists|i: usize|
                i < s.count() && (#[trigger] s.bodies@[i as int]).id@ == c.look_at@
                    && v.default_target == s.place(i)
            &&& s.targets@.len() == 0 ==> v.targets.len() == 1 && v.targets[0] == v.default_target
            &&& s.targets@.len() > 0 ==> v.targets.len() == s.targets@.len()
            &&& 0 <= k < s.targets@.len() ==> exists|i: usize|
                i < s.count() && (#[trigger] s.bodies@[i as int]).id@ == s.targets@[k]@
                    && v.targets[k] == s.place(i)
            &&& v.atmosphere == c.atmosphere
            &&& v.default_fov_deg == c.fov_deg
            &&& v.observer_lat_deg == c.latitude_deg
            &&& v.observer_lon_deg == c.longitude_deg
            &&& v.observer_height_m == c.height_m
            &&& v.initial_time_days == s.time_days
        }),
{
    s.lemma_found(s.camera.body@, 0);
    s.lemma_found(s.camera.look_at@, 0);
    let host = s.lookup(s.camera.body@)->0;
    let target = s.lookup(s.camera.look_at@)->0;
    assert(s.id(host as int) == s.bodies@[host as int].id@);
    assert(s.id(target as int) == s.bodies@[target as int].id@);
    s.lemma_targets(host, 0);
    if 0 <= k < s.targets@.len() {
        s.lemma_found(s.targets@[k]@, 0);
        let i = s.lookup(s.targets@[k]@)->0;
        assert(s.id(i as int) == s.bodies@[i as int].id@);
    }
}

/// Whether no id is blank or repeated.
pub open spec fn ids_differ(s: System) -> bool {
    let n = s.bodies@.len() as int;
    &&& forall|i: int| 0 <= i < n ==> !crate::text::blank((#[trigger] s.bodies@[i]).id@)
    &&& forall|i: int, j: int|
        0 <= i < j < n ==> (#[trigger] s.bodies@[i]).id@ != (#[trigger] s.bodies@[j]).id@
}

/// Whether exactly one body has no parent.
pub open spec fn one_root(s: System) -> bool {
    exists|r: int|
        0 <= r < s.bodies@.len() && (#[trigger] s.bodies@[r]).parent is None && forall|i: int|
            0 <= i < s.bodies@.len() && (#[trigger] s.bodies@[i]).parent is None ==> i == r
}

/// Whether every parent that is named is a body of the file.
pub open spec fn parents_known(s: System) -> bool {
    forall|i: int| 0 <= i < s.bodies@.len() ==> #[trigger] parent_known(s, i)
}

/// Whether the list of bodies is in order.
pub open spec fn listed_well(s: System) -> bool {
    ids_differ(s) && one_root(s) && parents_known(s)
}

/// Whether the id is that of some body.
pub open spec fn known(s: System, id: Seq<char>) -> bool {
    exists|i: int| 0 <= i < s.bodies@.len() && (#[trigger] s.bodies@[i]).id@ == id
}

/// Whether body `i` names no parent, or one that the file holds.
pub open spec fn parent_known(s: System, i: int) -> bool {
    s.bodies@[i].parent matches Some(id) ==> known(s, id@)
}

/// An id that is not repeated leads to its body.
proof fn lemma_lookup(s: System, i: usize)
    requires
        i < s.count() <= usize::MAX,
        forall|a: int, b: int|
            0 <= a < b < s.count() ==> (#[trigger] s.bodies@[a]).id@ != (#[trigger] s.bodies@[b]).id@,
    ensures
        s.lookup(s.bodies@[i as int].id@) == Some(i),
{
    let id = s.bodies@[i as int].id@;
    s.lemma_found(id, 0);
    assert(s.id(i as int) == id);
    if let Some(j) = s.lookup(id) {
        assert(s.id(j as int) == s.bodies@[j as int].id@);
        if j < i {
            assert(s.bodies@[j as int].id@ != s.bodies@[i as int].id@);
        } else if i < j {
            assert(s.bodies@[i as int].id@ != s.bodies@[j as int].id@);
        }
    }
}

proof fn lemma_single_root(s: System)
    requires
        s.count() <= usize::MAX,
        one_root(s),
    ensures
        s.roots().len() == 1,
{
    let n = s.count();
    let rootless = |i: int| s.bodies@[i].parent is None;
    crate::order::lemma_picked(n, rootless);
    let roots = s.roots();
    let r = choose|r: int|
        0 <= r < n && (#[trigger] s.bodies@[r]).parent is None && forall|i: int|
            0 <= i < n && (#[trigger] s.bodies@[i]).parent is None ==> i == r;
    assert(roots.contains(r as usize));
    if roots.len() > 1 {
        assert(rootless(roots[0] as int));
        assert(rootless(roots[1] as int));
        assert(s.bodies@[roots[0] as int].parent is None);
        assert(s.bodies@[roots[1] as int].parent is None);
        assert(roots[0] < roots[1]);
    }
}

/// A list in order has no bad id, no orphan and one root.
proof fn lemma_well_listed(s: System)
    requires
        s.count() <= usize::MAX,
        listed_well(s),
    ensures
        forall|i: int| 0 <= i < s.count() ==> !#[trigger] s.bad_id(i),
        forall|i: int| 0 <= i < s.count() ==> !#[trigger] s.orphan(i),
        s.roots().len() == 1,
{
    let n = s.count();
    assert forall|i: int| 0 <= i < n implies !#[trigger] s.bad_id(i) by {
        lemma_lookup(s, i as usize);
        assert(!crate::text::blank(s.bodies@[i].id@));
    }
    assert forall|i: int| 0 <= i < n implies !#[trigger] s.orphan(i) by {
        assert(parent_known(s, i));
        if s.bodies@[i].parent is Some {
            let j = choose|j: int|
                0 <= j < n && (#[trigger] s.bodies@[j]).id@ == s.bodies@[i].parent->0@;
            lemma_lookup(s, j as usize);
        }
    }
    lemma_single_root(s);
}

/// Ids that lead to their own bodies are distinct and not blank.
proof fn lemma_ids_differ(s: System, i: int, j: int)
    requires
        s.count() <= usize::MAX,
        0 <= i < j < s.count(),
        !s.bad_id(j),
    ensures
        s.bodies@[i].id@ != s.bodies@[j].id@,
{
    s.lemma_found(s.bodies@[j].id@, 0);
    assert(s.id(i) == s.bodies@[i].id@);
    assert(s.id(j) == s.bodies@[j].id@);
}

proof fn lemma_one_root(s: System)
    requires
        s.count() <= usize::MAX,
        s.roots().len() == 1,
    ensures
        one_root(s),
{
    let n = s.count();
    let rootless = |i: int| s.bodies@[i].parent is None;
    crate::order::lemma_picked(n, rootless);
    let roots = s.roots();
    let r = roots[0] as int;
    assert(rootless(r));
    assert forall|i: int| 0 <= i < n && (#[trigger] s.bodies@[i]).parent is None implies i == r by {
        assert(roots.contains(i as usize));
    }
    assert(s.bodies@[r].parent is None);
}

proof fn lemma_parents_known(s: System)
    requires
        s.count() <= usize::MAX,
        forall|i: int| 0 <= i < s.count() ==> !#[trigger] s.orphan(i),
    ensures
        parents_known(s),
{
    assert forall|i: int| 0 <= i < s.count() implies #[trigger] parent_known(s, i) by {
        assert(!s.orphan(i));
        if s.bodies@[i].parent is Some {
            lemma_known(s, s.bodies@[i].parent->0@);
        }
    }
}

proof fn lemma_all_ids_differ(s: System)
    requires
        s.count() <= usize::MAX,
        forall|i: int| 0 <= i < s.count() ==> !#[trigger] s.bad_id(i),
    ensures
        ids_differ(s),
{
    let n = s.count();
    assert forall|i: int| 0 <= i < n implies !crate::text::blank((#[trigger] s.bodies@[i]).id@) by {
        assert(!s.bad_id(i));
    }
    assert forall|i: int, j: int| 0 <= i < j < n implies (#[trigger] s.bodies@[i]).id@ != (
    #[trigger] s.bodies@[j]).id@ by {
        lemma_ids_differ(s, i, j);
    }
}

/// Without a bad id and an orphan, and with one root, a list is in order.
proof fn lemma_listed_well(s: System)
    requires
        s.count() <= usize::MAX,
        forall|i: int| 0 <= i < s.count() ==> !#[trigger] s.bad_id(i),
        forall|i: int| 0 <= i < s.count() ==> !#[trigger] s.orphan(i),
        s.roots().len() == 1,
    ensures
        listed_well(s),
{
    lemma_one_root(s);
    lemma_parents_known(s);
    lemma_all_ids_differ(s);
}

/// A file is not refused for its list exactly if it is of version 1, has a name, 2 to
/// 256 bodies, a finite time if any, and a list in order.
#[verifier::rlimit(50)]
pub proof fn law_lists(s: System)
    ensures
        s.list_error() is None <==> {
            &&& s.version == 1
            &&& !crate::text::blank(s.name@)
            &&& 2 <= s.bodies@.len() <= 256
            &&& s.time_days matches Some(t) ==> t@ is Finite
            &&& listed_well(s)
        },
        s.version != 1 ==> s.refusal() == Some(ConfigError::Version),
        s.version == 1 && crate::text::blank(s.name@) ==> s.refusal() == Some(
            ConfigError::EmptyName,
        ),
        s.version == 1 && !crate::text::blank(s.name@) && !(2 <= s.bodies@.len() <= 256)
            ==> s.refusal() == Some(ConfigError::BodyCount),
        s.version == 1 && !crate::text::blank(s.name@) && 2 <= s.bodies@.len() <= 256 && s.time_days
            is Some && s.time_days->0@ !is Finite ==> s.refusal() == Some(ConfigError::Time),
{
    let n = s.count();
    if s.list_error() is None {
        s.lemma_listed();
        lemma_listed_well(s);
    }
    if n <= 256 && listed_well(s) {
        lemma_well_listed(s);
        let bad = |i: int| s.bad_id(i);
        let orphan = |i: int| s.orphan(i);
        crate::order::lemma_picked(n, bad);
        crate::order::lemma_picked(n, orphan);
        let b = crate::order::picked(n, bad);
        let o = crate::order::picked(n, orphan);
        if b.len() > 0 {
            assert(bad(b[0] as int));
        }
        if o.len() > 0 {
            assert(orphan(o[0] as int));
        }
    }
}

/// A refusal for an id points at the first body whose id is blank or was used before.
pub proof fn law_bad_ids(s: System, i: usize, j: int)
    requires
        s.refusal() == Some(ConfigError::BodyId(i)),
    ensures
        s.version == 1 && !crate::text::blank(s.name@) && 2 <= s.bodies@.len() <= 256,
        i < s.bodies@.len(),
        crate::text::blank(s.bodies@[i as int].id@) || exists|a: int|
            0 <= a < i && (#[trigger] s.bodies@[a]).id@ == s.bodies@[i as int].id@,
        0 <= j < i ==> !crate::text::blank(s.bodies@[j].id@),
        forall|a: int| 0 <= a < j < i ==> (#[trigger] s.bodies@[a]).id@ != s.bodies@[j].id@,
{
    let n = s.count();
    lemma_listing_errors(s);
    let bad = |i: int| s.bad_id(i);
    crate::order::lemma_picked(n, bad);
    let b = crate::order::picked(n, bad);
    assert(bad(i as int));
    s.lemma_found(s.id(i as int), 0);
    assert(s.id(i as int) == s.bodies@[i as int].id@);
    if let Some(a) = s.lookup(s.id(i as int)) {
        assert(s.id(a as int) == s.bodies@[a as int].id@);
    }
    if 0 <= j < i {
        assert(!s.bad_id(j)) by {
            if s.bad_id(j) {
                assert(b.contains(j as usize));
                let k = choose|k: int| 0 <= k < b.len() && b[k] == j as usize;
                if k > 0 {
                    assert(b[0] < b[k]);
                }
            }
        }
        s.lemma_found(s.id(j), 0);
        assert forall|a: int| 0 <= a < j < i implies (#[trigger] s.bodies@[a]).id@
            != s.bodies@[j].id@ by {
            assert(s.id(a) == s.bodies@[a].id@);
        }
    }
}

/// A refusal for a parent points at the first body that names one which the file does
/// not hold.
pub proof fn law_unknown_parents(s: System, i: usize, j: int)
    requires
        s.refusal() == Some(ConfigError::UnknownParent(i)),
    ensures
        s.version == 1 && !crate::text::blank(s.name@) && 2 <= s.bodies@.len() <= 256,
        i < s.bodies@.len(),
        s.bodies@[i as int].parent is Some,
        !known(s, s.bodies@[i as int].parent->0@),
        0 <= j < i ==> parent_known(s, j),
{
    let n = s.count();
    lemma_listing_errors(s);
    let orphan = |i: int| s.orphan(i);
    crate::order::lemma_picked(n, orphan);
    let o = crate::order::picked(n, orphan);
    assert(orphan(i as int));
    lemma_known(s, s.bodies@[i as int].parent->0@);
    if 0 <= j < i {
        assert(!s.orphan(j)) by {
            if s.orphan(j) {
                assert(o.contains(j as usize));
                let k = choose|k: int| 0 <= k < o.len() && o[k] == j as usize;
                if k > 0 {
                    assert(o[0] < o[k]);
                }
            }
        }
        if s.bodies@[j].parent is Some {
            lemma_known(s, s.bodies@[j].parent->0@);
        }
    }
}

/// A refusal for the roots means that not exactly one body is without a parent.
pub proof fn law_root_count(s: System)
    requires
        s.refusal() == Some(ConfigError::Roots),
    ensures
        s.version == 1 && !crate::text::blank(s.name@) && 2 <= s.bodies@.len() <= 256,
        !one_root(s),
{
    lemma_listing_errors(s);
    if one_root(s) {
        lemma_single_root(s);
    }
}

/// A refusal for an id, the roots or a parent comes from the list.
proof fn lemma_listing_errors(s: System)
    ensures
        s.refusal() matches Some(e) ==> e is BodyId || e is Roots || e is UnknownParent
            ==> s.list_error() == Some(e),
{
    lemma_not_listed(s, s.count());
    lemma_not_viewed(s);
}

/// Placing and building stop for a cycle or a body's fault and nothing else.
proof fn lemma_not_listed(s: System, steps: nat)
    ensures
        s.stopped(steps) matches Some(e) ==> e == ConfigError::Cycle || e is Body,
    decreases steps,
{
    if steps > 0 {
        lemma_not_listed(s, (steps - 1) as nat);
    }
}

proof fn lemma_stops_truly(s: System, steps: nat)
    requires
        s.count() <= usize::MAX,
    ensures
        s.stopped(steps) matches Some(ConfigError::Body(i, f)) ==> i < s.count()
            && s.bodies@[i as int].fault(s.parent(i as int)) == Some(f),
    decreases steps,
{
    if steps > 0 {
        let m = (steps - 1) as nat;
        lemma_stops_truly(s, m);
        crate::order::lemma_picked(s.count(), |i: int| s.ready(s.placed(m), i));
    }
}

/// Without a cycle, placing stops for a body's fault or not at all.
proof fn lemma_no_false_cycle(s: System, steps: nat, height: spec_fn(int) -> nat)
    requires
        steps <= s.count() <= usize::MAX,
        forall|j: int| 0 <= j < s.count() ==> !#[trigger] s.orphan(j),
        forall|j: int|
            0 <= j < s.count() ==> (#[trigger] s.parent(j) matches Some(p) ==> height(p as int)
                < height(j)),
    ensures
        s.stopped(steps) != Some(ConfigError::Cycle),
    decreases steps,
{
    if steps > 0 {
        let m = (steps - 1) as nat;
        lemma_no_false_cycle(s, m, height);
        s.lemma_keeps_going(m, height);
        let i = s.lemma_some_missing(s.placed(m));
        s.lemma_some_ready(s.placed(m), i, height);
    }
}

/// A file whose list is in order is refused for a cycle only if there is one, and for
/// a body only for a fault that this body has.
pub proof fn law_body_errors(s: System, height: spec_fn(int) -> nat)
    requires
        s.list_error() is None,
    ensures
        s.refusal() matches Some(ConfigError::Body(i, f)) ==> i < s.count()
            && s.bodies@[i as int].fault(s.parent(i as int)) == Some(f),
        (forall|j: int|
            0 <= j < s.count() ==> (#[trigger] s.parent(j) matches Some(p) ==> height(p as int)
                < height(j))) ==> s.refusal() != Some(ConfigError::Cycle),
        (forall|j: int|
            0 <= j < s.count() ==> (#[trigger] s.parent(j) matches Some(p) ==> height(p as int)
                < height(j))) && (forall|j: int|
            0 <= j < s.count() ==> s.bodies@[j].fault(#[trigger] s.parent(j)) is None)
            ==> s.stopped(s.count()) is None,
        s.stopped(s.count()) is None ==> forall|j: int|
            0 <= j < s.count() ==> s.bodies@[j].fault(#[trigger] s.parent(j)) is None,
{
    let n = s.count();
    s.lemma_listed();
    lemma_stops_truly(s, n);
    lemma_not_viewed(s);
    if forall|j: int|
        0 <= j < n ==> (#[trigger] s.parent(j) matches Some(p) ==> height(p as int) < height(j)) {
        lemma_no_false_cycle(s, n, height);
        if forall|j: int| 0 <= j < n ==> s.bodies@[j].fault(#[trigger] s.parent(j)) is None {
            s.lemma_unstopped(n, height);
        }
    }
    if s.stopped(n) is None {
        s.lemma_progress(n);
        s.lemma_complete();
        assert forall|j: int| 0 <= j < n implies s.bodies@[j].fault(#[trigger] s.parent(j)) is None by {
            assert(s.arranged().contains(j as usize));
            let k = choose|k: int| 0 <= k < s.arranged().len() && s.arranged()[k] == j as usize;
            assert(s.bodies@[s.placed(n)[k] as int].fault(s.parent(s.placed(n)[k] as int)) is None);
        }
    }
}

/// Errors of the view are not those of the list, of bodies or of light.
proof fn lemma_not_viewed(s: System)
    ensures
        s.view_error() matches Some(e) ==> !(e is Body) && e != ConfigError::Cycle && e
            != ConfigError::NoLuminousStar && !(e is BodyId) && !(e is UnknownParent) && e
            != ConfigError::Roots,
{
    if s.lookup(s.camera.body@) is Some {
        lemma_target_errors(s, s.lookup(s.camera.body@)->0, 0);
    }
}

proof fn lemma_target_errors(s: System, host: usize, from: nat)
    ensures
        s.target_error(host, from) matches Some(e) ==> e is UnknownTarget || e is Target,
    decreases s.targets@.len() - from,
{
    if from < s.targets@.len() {
        lemma_target_errors(s, host, from + 1);
    }
}

/// Whether some star gives light: luminosity, and a colour that is not black.
pub open spec fn lit(s: System) -> bool {
    exists|i: int|
        0 <= i < s.bodies@.len() && {
            let b = #[trigger] s.bodies@[i];
            &&& b.kind == BodyKind::Star
            &&& crate::number::Real::Finite(0).lt(b.luminosity@)
            &&& crate::number::Real::Finite(0).lt(b.emission.red@) || crate::number::Real::Finite(
                0,
            ).lt(b.emission.green@) || crate::number::Real::Finite(0).lt(b.emission.blue@)
        }
}

/// Whether the id is that of a body that can be pointed at from the camera's.
pub open spec fn in_sight(s: System, id: Seq<char>) -> bool {
    exists|i: int|
        0 <= i < s.bodies@.len() && (#[trigger] s.bodies@[i]).id@ == id && id != s.camera.body@
            && s.bodies@[i].kind != BodyKind::Anchor
}

/// A file whose bodies are in order is accepted exactly if a star gives light, the
/// camera stands on a planet or moon of the file and looks at something in sight, at
/// most nine targets are named and all are in sight, and latitude, longitude, height
/// and field of view lie in their ranges.
#[verifier::rlimit(50)]
pub proof fn law_views(s: System, low: int, narrow: int)
    requires
        s.list_error() is None,
        s.stopped(s.count()) is None,
        (Number { bits: 0x3FB9_9999_9999_999A })@ == crate::number::Real::Finite(low),
        (Number { bits: 0x3F50_624D_D2F1_A9FC })@ == crate::number::Real::Finite(narrow),
    ensures
        s.refusal() is None <==> {
            let c = s.camera;
            let one = crate::number::unit();
            &&& lit(s)
            &&& exists|i: int|
                0 <= i < s.bodies@.len() && (#[trigger] s.bodies@[i]).id@ == c.body@ && (
                s.bodies@[i].kind == BodyKind::Planet || s.bodies@[i].kind == BodyKind::Moon)
            &&& in_sight(s, c.look_at@)
            &&& s.targets@.len() <= 9
            &&& forall|k: int| 0 <= k < s.targets@.len() ==> in_sight(s, (#[trigger] s.targets@[k])@)
            &&& c.latitude_deg@ is Finite && -90 * one <= c.latitude_deg@->0 <= 90 * one
            &&& c.longitude_deg@ is Finite && -180 * one <= c.longitude_deg@->0 <= 180 * one
            &&& c.height_m@ is Finite && c.height_m@->0 >= low
            &&& c.fov_deg@ is Finite && narrow <= c.fov_deg@->0 <= 90 * one
        },
        s.refusal() == Some(ConfigError::NoLuminousStar) <==> !lit(s),
        lit(s) ==> (s.refusal() == Some(ConfigError::CameraBody) <==> !known(s, s.camera.body@)),
        s.refusal() == Some(ConfigError::Latitude) ==> !(s.camera.latitude_deg@ is Finite && -90
            * crate::number::unit() <= s.camera.latitude_deg@->0 <= 90 * crate::number::unit()),
        s.refusal() == Some(ConfigError::Longitude) ==> !(s.camera.longitude_deg@ is Finite && -180
            * crate::number::unit() <= s.camera.longitude_deg@->0 <= 180 * crate::number::unit()),
        s.refusal() == Some(ConfigError::Height) ==> !(s.camera.height_m@ is Finite
            && s.camera.height_m@->0 >= low),
        s.refusal() == Some(ConfigError::FieldOfView) ==> !(s.camera.fov_deg@ is Finite && narrow
            <= s.camera.fov_deg@->0 <= 90 * crate::number::unit()),
        s.refusal() == Some(ConfigError::TooManyTargets) ==> s.targets@.len() > 9,
        s.refusal() == Some(ConfigError::LookAt) ==> !known(s, s.camera.look_at@),
        s.refusal() matches Some(ConfigError::UnknownTarget(k)) ==> k < s.targets@.len() && !known(
            s,
            s.targets@[k as int]@,
        ),
        s.refusal() matches Some(ConfigError::Target(i)) ==> i < s.count() && (
        s.bodies@[i as int].id@ == s.camera.body@ || s.bodies@[i as int].kind == BodyKind::Anchor),
        s.refusal() == Some(ConfigError::HostKind) ==> known(s, s.camera.body@),
{
    let n = s.count();
    let c = s.camera;
    crate::number::lemma_bounds();
    s.lemma_listed();
    law_lists(s);
    lemma_not_viewed(s);
    assert(lit(s) <==> exists|i: int| 0 <= i < n && #[trigger] s.luminous(i)) by {
        if lit(s) {
            let i = choose|i: int|
                0 <= i < s.bodies@.len() && {
                    let b = #[trigger] s.bodies@[i];
                    &&& b.kind == BodyKind::Star
                    &&& crate::number::Real::Finite(0).lt(b.luminosity@)
                    &&& crate::number::Real::Finite(0).lt(b.emission.red@)
                        || crate::number::Real::Finite(0).lt(b.emission.green@)
                        || crate::number::Real::Finite(0).lt(b.emission.blue@)
                };
            assert(s.luminous(i));
        }
        if exists|i: int| 0 <= i < n && #[trigger] s.luminous(i) {
            let i = choose|i: int| 0 <= i < n && #[trigger] s.luminous(i);
            assert(s.bodies@[i].kind == BodyKind::Star);
        }
    }
    lemma_known(s, c.body@);
    lemma_known(s, c.look_at@);
    if let Some(host) = s.lookup(c.body@) {
        lemma_sight(s, c.look_at@, host);
        if s.targets@.len() <= 9 {
            lemma_all_sights(s, host, 0);
        }
    }
}

/// An id is known exactly if it is found.
proof fn lemma_known(s: System, id: Seq<char>)
    requires
        s.count() <= usize::MAX,
    ensures
        known(s, id) <==> s.lookup(id) is Some,
        s.lookup(id) matches Some(i) ==> i < s.count() && s.bodies@[i as int].id@ == id,
        (forall|a: int, b: int|
            0 <= a < b < s.count() ==> (#[trigger] s.bodies@[a]).id@
                != (#[trigger] s.bodies@[b]).id@) ==> forall|i: int|
            0 <= i < s.count() && (#[trigger] s.bodies@[i]).id@ == id ==> s.lookup(id) == Some(
                i as usize,
            ),
{
    s.lemma_found(id, 0);
    if let Some(i) = s.lookup(id) {
        assert(s.id(i as int) == s.bodies@[i as int].id@);
    }
    if known(s, id) {
        let i = choose|i: int| 0 <= i < s.bodies@.len() && (#[trigger] s.bodies@[i]).id@ == id;
        assert(s.id(i) == id);
    }
    if forall|a: int, b: int|
        0 <= a < b < s.count() ==> (#[trigger] s.bodies@[a]).id@ != (#[trigger] s.bodies@[b]).id@ {
        assert forall|i: int| 0 <= i < s.count() && (#[trigger] s.bodies@[i]).id@ == id implies s.lookup(
        id) == Some(i as usize) by {
            lemma_lookup(s, i as usize);
        }
    }
}

/// What is found and can be pointed at is in sight.
proof fn lemma_sight(s: System, id: Seq<char>, host: usize)
    requires
        s.list_error() is None,
        s.lookup(s.camera.body@) == Some(host),
    ensures
        in_sight(s, id) <==> (s.lookup(id) matches Some(i) && s.can_target(host, i)),
        s.lookup(id) matches Some(i) ==> (i == host <==> id == s.camera.body@),
{
    law_lists(s);
    lemma_known(s, id);
    lemma_known(s, s.camera.body@);
    if in_sight(s, id) {
        let i = choose|i: int|
            0 <= i < s.bodies@.len() && (#[trigger] s.bodies@[i]).id@ == id && id != s.camera.body@
                && s.bodies@[i].kind != BodyKind::Anchor;
        assert(s.lookup(id) == Some(i as usize));
    }
    if let Some(i) = s.lookup(id) {
        assert(s.bodies@[i as int].id@ == id);
    }
}

proof fn lemma_all_sights(s: System, host: usize, from: nat)
    requires
        s.list_error() is None,
        s.targets@.len() <= 9,
        s.lookup(s.camera.body@) == Some(host),
    ensures
        s.target_error(host, from) is None <==> forall|k: int|
            from <= k < s.targets@.len() ==> in_sight(s, (#[trigger] s.targets@[k])@),
        s.target_error(host, from) matches Some(ConfigError::UnknownTarget(k)) ==> k
            < s.targets@.len() && !known(s, s.targets@[k as int]@),
        s.target_error(host, from) matches Some(ConfigError::Target(i)) ==> i < s.count() && (
        s.bodies@[i as int].id@ == s.camera.body@ || s.bodies@[i as int].kind == BodyKind::Anchor),
        s.target_error(host, from) matches Some(e) ==> e is UnknownTarget || e is Target,
    decreases s.targets@.len() - from,
{
    if from < s.targets@.len() {
        lemma_all_sights(s, host, from + 1);
        lemma_sight(s, s.targets@[from as int]@, host);
        lemma_known(s, s.targets@[from as int]@);
        lemma_known(s, s.camera.body@);
    }
}

/// Heights start at a tenth of a metre and fields of view at a thousandth of a
/// degree.
pub proof fn law_least_values()
    ensures
        crate::number::about(Number { bits: TENTH }, 1, 10),
        crate::number::about(Number { bits: THOUSANDTH }, 1, 1000),
{
    crate::number::law_named_fractions();
}

/// A refusal that concerns something by name says that name: the version, the id or
/// the parent as the file has them, the camera's or the target's reference, and the
/// fault of a body in its own words behind its id.
pub proof fn law_refusals_name_names(s: System, i: usize, f: BodyFault)
    ensures
        ({
            let id = s.bodies@[i as int].id@;
            &&& s.described(ConfigError::Version) == "unsupported version "@
                + crate::text::decimal(s.version as nat) + "; expected 1"@
            &&& s.described(ConfigError::BodyId(i)) == "empty or duplicate body id '"@ + id + "'"@
            &&& s.described(ConfigError::Body(i, f)) == "body '"@ + id + "': "@ + f.described()
            &&& s.bodies@[i as int].parent matches Some(p) ==> s.described(
                ConfigError::UnknownParent(i),
            ) == "body '"@ + id + "': unknown parent '"@ + p@ + "'"@
            &&& s.described(ConfigError::CameraBody) == "camera.body: unknown body '"@
                + s.camera.body@ + "'"@
            &&& s.described(ConfigError::LookAt) == "camera.look_at: unknown body '"@
                + s.camera.look_at@ + "'"@
            &&& s.described(ConfigError::UnknownTarget(i)) == "unknown body '"@
                + s.targets@[i as int]@ + "'"@
            &&& s.bodies@[i as int].name matches Some(name) ==> s.described(ConfigError::Target(i))
                == "target '"@ + name@ + "' must be a visible body other than the camera host"@
            &&& s.bodies@[i as int].name is None ==> s.described(ConfigError::Target(i))
                == "target '"@ + id + "' must be a visible body other than the camera host"@
        }),
{
}

/// A fault says which rule was broken.
pub proof fn law_faults_in_words()
    ensures
        BodyFault::Radius.described() == "radius_km must be positive (zero for anchors)"@,
        BodyFault::Albedo.described() == "albedo must contain three values in [0, 1]"@,
        BodyFault::Emission.described() == "emission must contain three values in [0, 1]"@,
        BodyFault::Luminosity.described() == "luminosity must be finite and nonnegative"@,
        BodyFault::NotAStar.described() == "only stars may have luminosity"@,
        BodyFault::ParentWithoutOrbit.described() == "parent and orbit must be provided together"@,
        BodyFault::AxisChoice.described() == "orbit requires exactly one of semi_major_axis_au or semi_major_axis_km"@,
        BodyFault::Axis.described() == "semi-major axis must be positive and finite"@,
        BodyFault::Period.described() == "orbital period_days must be positive and finite"@,
        BodyFault::Eccentricity.described() == "eccentricity must be in [0, 1)"@,
        BodyFault::OrbitAngles.described() == "orbit angles and epoch must be finite"@,
        BodyFault::Intersects.described() == "orbit intersects the parent at periapsis"@,
        BodyFault::Rotation.described() == "rotation period must be nonzero; rotation values must be finite"@,
        BodyFault::TidalLock.described() == "tidal_lock requires an orbit and parent"@,
        BodyFault::RingHost.described() == "rings require a planet or moon"@,
        BodyFault::RingRadii.described() == "ring radii must satisfy 1 < inner_radius < outer_radius"@,
        BodyFault::RingDepth.described() == "ring optical_depth must be finite and nonnegative"@,
        BodyFault::RingAlbedo.described() == "ring albedo must contain three values in [0, 1]"@,
{
}

/// A refusal that concerns the file as a whole, or a number of the camera, names the
/// rule; one for a cycle lists the bodies that no order reaches.
pub proof fn law_refusals_in_words(s: System)
    ensures
        s.described(ConfigError::EmptyName) == "system name cannot be empty"@,
        s.described(ConfigError::BodyCount) == "a system needs 2..=256 bodies"@,
        s.described(ConfigError::Time) == "time_days must be finite"@,
        s.described(ConfigError::Roots) == "exactly one root body is required (use an anchor for a binary system)"@,
        s.described(ConfigError::NoLuminousStar) == "at least one luminous star is required"@,
        s.described(ConfigError::HostKind) == "camera.body must be a planet or moon"@,
        s.described(ConfigError::TooManyTargets) == "targets supports at most nine number-key shortcuts"@,
        s.described(ConfigError::Latitude) == "camera.latitude_deg must be in [-90, 90]"@,
        s.described(ConfigError::Longitude) == "camera.longitude_deg must be in [-180, 180]"@,
        s.described(ConfigError::Height) == "camera.height_m must be at least 0.1 metres"@,
        s.described(ConfigError::FieldOfView) == "camera.fov_deg must be in [0.001, 90]"@,
        s.described(ConfigError::Cycle) == "cyclic parent references: "@ + s.unplaced(s.count()),
{
}

/// The list of what no order reaches leaves out what one does, and holds the id of
/// every body that is left, in file order and with commas between them.
pub proof fn law_what_no_order_reaches(s: System, n: nat)
    requires
        n < s.count() <= usize::MAX,
    ensures
        s.unplaced(0).len() == 0,
        s.arranged().contains(n as usize) ==> s.unplaced(n + 1) == s.unplaced(n),
        !s.arranged().contains(n as usize) && s.unplaced(n).len() == 0 ==> s.unplaced(n + 1)
            == s.bodies@[n as int].id@,
        !s.arranged().contains(n as usize) && s.unplaced(n).len() > 0 ==> s.unplaced(n + 1)
            == s.unplaced(n) + ", "@ + s.bodies@[n as int].id@,
{
}

/// In a file that lists parents first, the body that is refused is the first with a
/// fault.
pub proof fn law_the_first_fault_counts(s: System, i: usize, f: BodyFault, j: int)
    requires
        s.list_error() is None,
        forall|k: int| 0 <= k < s.count() ==> (#[trigger] s.parent(k) matches Some(p) ==> p < k),
        s.refusal() == Some(ConfigError::Body(i, f)),
        0 <= j < i,
    ensures
        s.bodies@[j].fault(s.parent(j)) is None,
{
    s.lemma_listed();
    lemma_not_viewed(s);
    lemma_first_fault(s, s.count(), i, f, j);
}

proof fn lemma_first_fault(s: System, steps: nat, i: usize, f: BodyFault, j: int)
    requires
        steps <= s.count() <= usize::MAX,
        forall|k: int| 0 <= k < s.count() ==> !#[trigger] s.orphan(k),
        forall|k: int| 0 <= k < s.count() ==> (#[trigger] s.parent(k) matches Some(p) ==> p < k),
        s.stopped(steps) == Some(ConfigError::Body(i, f)),
        0 <= j < i,
    ensures
        s.bodies@[j].fault(s.parent(j)) is None,
    decreases steps,
{
    let m = (steps - 1) as nat;
    if s.stopped(m) is Some {
        lemma_first_fault(s, m, i, f, j);
    } else {
        s.lemma_progress(m);
        s.lemma_in_order(m);
        s.lemma_in_order(steps);
        let before = s.placed(m);
        let c = s.candidates(before);
        assert(s.placed(steps)[m as int] == c[0]);
        assert(s.placed(steps)[m as int] == m as usize);
        assert(i == m);
        assert(before[j] == j as usize);
    }
}

/// The list's rules in their order: ids first, then the one root, then the parents.
pub proof fn law_list_order(s: System)
    requires
        s.version == 1,
        !crate::text::blank(s.name@),
        2 <= s.bodies@.len() <= 256,
        s.time_days is Some ==> s.time_days->0@ is Finite,
    ensures
        !ids_differ(s) <==> s.refusal() is Some && s.refusal()->0 is BodyId,
        ids_differ(s) && !one_root(s) <==> s.refusal() == Some(ConfigError::Roots),
        ids_differ(s) && one_root(s) && !parents_known(s) <==> s.refusal() is Some
            && s.refusal()->0 is UnknownParent,
{
    let n = s.count();
    let bad = |i: int| s.bad_id(i);
    let orphan = |i: int| s.orphan(i);
    crate::order::lemma_picked(n, bad);
    crate::order::lemma_picked(n, orphan);
    let b = crate::order::picked(n, bad);
    let o = crate::order::picked(n, orphan);
    lemma_listing_errors(s);
    if b.len() == 0 {
        assert forall|i: int| 0 <= i < n implies !#[trigger] s.bad_id(i) by {
            if s.bad_id(i) {
                assert(b.contains(i as usize));
            }
        }
        lemma_all_ids_differ(s);
    }
    if ids_differ(s) {
        lemma_no_bad_id(s);
        if b.len() > 0 {
            assert(bad(b[0] as int));
        }
    }
    if s.roots().len() == 1 {
        lemma_one_root(s);
    }
    if one_root(s) {
        lemma_single_root(s);
    }
    if o.len() == 0 {
        assert forall|i: int| 0 <= i < n implies !#[trigger] s.orphan(i) by {
            if s.orphan(i) {
                assert(o.contains(i as usize));
            }
        }
        lemma_parents_known(s);
    }
    if parents_known(s) {
        lemma_no_orphan(s);
        if o.len() > 0 {
            assert(orphan(o[0] as int));
        }
    }
}

proof fn lemma_no_bad_id(s: System)
    requires
        s.count() <= usize::MAX,
        ids_differ(s),
    ensures
        forall|i: int| 0 <= i < s.count() ==> !#[trigger] s.bad_id(i),
{
    assert forall|i: int| 0 <= i < s.count() implies !#[trigger] s.bad_id(i) by {
        lemma_lookup(s, i as usize);
        assert(!crate::text::blank(s.bodies@[i].id@));
    }
}

proof fn lemma_no_orphan(s: System)
    requires
        s.count() <= usize::MAX,
        parents_known(s),
    ensures
        forall|i: int| 0 <= i < s.count() ==> !#[trigger] s.orphan(i),
{
    assert forall|i: int| 0 <= i < s.count() implies !#[trigger] s.orphan(i) by {
        assert(parent_known(s, i));
        if s.bodies@[i].parent is Some {
            lemma_known(s, s.bodies@[i].parent->0@);
        }
    }
}

/// A faulty body is refused before anything is said of light or of the camera.
pub proof fn law_faults_come_before_views(s: System, height: spec_fn(int) -> nat, j: int)
    requires
        s.list_error() is None,
        forall|k: int|
            0 <= k < s.count() ==> (#[trigger] s.parent(k) matches Some(p) ==> height(p as int)
                < height(k)),
        0 <= j < s.count(),
        s.bodies@[j].fault(s.parent(j)) is Some,
    ensures
        s.refusal() is Some && s.refusal()->0 is Body,
{
    law_body_errors(s, height);
    lemma_not_listed(s, s.count());
    if s.stopped(s.count()) is None {
        assert(s.bodies@[j].fault(s.parent(j)) is None);
    }
}

/// The camera's rules in their order: its body is known, and a planet or moon; what it
/// looks at is known, and in sight; there are no more than nine targets, all in sight;
/// then latitude, longitude, height and field of view.
#[verifier::rlimit(50)]
pub proof fn law_view_order(s: System, low: int, narrow: int)
    requires
        s.list_error() is None,
        s.stopped(s.count()) is None,
        lit(s),
        (Number { bits: 0x3FB9_9999_9999_999A })@ == crate::number::Real::Finite(low),
        (Number { bits: 0x3F50_624D_D2F1_A9FC })@ == crate::number::Real::Finite(narrow),
    ensures
        ({
            let c = s.camera;
            let one = crate::number::unit();
            let stands = known(s, c.body@);
            let ground = stands && grounded(s);
            let looks = ground && known(s, c.look_at@);
            let sees = looks && in_sight(s, c.look_at@);
            let few = sees && s.targets@.len() <= 9;
            let aims = few && forall|k: int|
                0 <= k < s.targets@.len() ==> in_sight(s, (#[trigger] s.targets@[k])@);
            let lat = c.latitude_deg@ is Finite && -90 * one <= c.latitude_deg@->0 <= 90 * one;
            let lon = c.longitude_deg@ is Finite && -180 * one <= c.longitude_deg@->0 <= 180 * one;
            let high = c.height_m@ is Finite && c.height_m@->0 >= low;
            let wide = c.fov_deg@ is Finite && narrow <= c.fov_deg@->0 <= 90 * one;
            &&& !stands <==> s.refusal() == Some(ConfigError::CameraBody)
            &&& stands && !ground <==> s.refusal() == Some(ConfigError::HostKind)
            &&& ground && !looks <==> s.refusal() == Some(ConfigError::LookAt)
            &&& looks && !sees ==> s.refusal() is Some && s.refusal()->0 is Target
            &&& sees && !few <==> s.refusal() == Some(ConfigError::TooManyTargets)
            &&& few && !aims ==> s.refusal() is Some && (s.refusal()->0 is Target || s.refusal()->0
                is UnknownTarget)
            &&& aims && !lat <==> s.refusal() == Some(ConfigError::Latitude)
            &&& aims && lat && !lon <==> s.refusal() == Some(ConfigError::Longitude)
            &&& aims && lat && lon && !high <==> s.refusal() == Some(ConfigError::Height)
            &&& aims && lat && lon && high && !wide <==> s.refusal() == Some(
                ConfigError::FieldOfView,
            )
        }),
{
    let c = s.camera;
    crate::number::lemma_bounds();
    law_lists(s);
    law_views(s, low, narrow);
    lemma_known(s, c.body@);
    lemma_known(s, c.look_at@);
    lemma_grounded(s);
    if let Some(host) = s.lookup(c.body@) {
        lemma_sight(s, c.look_at@, host);
        if s.targets@.len() <= 9 {
            lemma_all_sights(s, host, 0);
        }
    }
}

/// Whether the camera's body is a planet or a moon.
pub open spec fn grounded(s: System) -> bool {
    exists|i: int|
        0 <= i < s.bodies@.len() && (#[trigger] s.bodies@[i]).id@ == s.camera.body@ && (
        s.bodies@[i].kind == BodyKind::Planet || s.bodies@[i].kind == BodyKind::Moon)
}

proof fn lemma_grounded(s: System)
    requires
        s.list_error() is None,
    ensures
        s.lookup(s.camera.body@) matches Some(host) ==> (grounded(s) <==> s.bodies@[host as int].kind
            == BodyKind::Planet || s.bodies@[host as int].kind == BodyKind::Moon),
{
    law_lists(s);
    lemma_known(s, s.camera.body@);
    if let Some(host) = s.lookup(s.camera.body@) {
        assert(s.bodies@[host as int].id@ == s.camera.body@);
        if grounded(s) {
            let i = choose|i: int|
                0 <= i < s.bodies@.len() && (#[trigger] s.bodies@[i]).id@ == s.camera.body@ && (
                s.bodies@[i].kind == BodyKind::Planet || s.bodies@[i].kind == BodyKind::Moon);
            assert(s.lookup(s.camera.body@) == Some(i as usize));
        }
    }
}

} // verus!
