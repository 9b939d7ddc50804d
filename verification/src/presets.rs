//! Star systems that are built in, as whole numbers in small units.
use crate::number::Number;
use crate::sim::{Body, BodyKind, BodyView, Scene, SceneView};
use vstd::prelude::*;

verus! {

#[derive(Clone, Copy, Debug, PartialEq, Eq, Structural)]
pub enum Length {
    Metres(u64),
    /// Thousand-millionths of an astronomical unit.
    NanoAu(u64),
}

#[derive(Clone, Copy, Debug, PartialEq, Eq, Structural)]
pub enum Turn {
    MilliRadians(u32),
    /// Half a turn.
    Half,
}

/// An orbit: eccentricity in millionths, inclination in thousandths of a
/// degree, period in millionths of a day.
#[derive(Clone, Copy, Debug, PartialEq, Eq, Structural)]
pub struct Path {
    pub axis: Length,
    pub eccentricity: u32,
    pub inclination: u32,
    pub node: Turn,
    pub periapsis: Turn,
    pub anomaly: Turn,
    pub period: u64,
}

/// A colour in thousandths.
#[derive(Clone, Copy, Debug, PartialEq, Eq, Structural)]
pub struct Shade {
    pub red: u32,
    pub green: u32,
    pub blue: u32,
}

/// Size and light; luminosity in thousandths.
#[derive(Clone, Copy, Debug, PartialEq, Eq, Structural)]
pub struct Look {
    pub radius: Length,
    pub albedo: Shade,
    pub emission: Shade,
    pub luminosity: u32,
}

/// Rotation: tilt in thousandths of a degree, period in millionths of a day.
#[derive(Clone, Copy, Debug, PartialEq, Eq, Structural)]
pub struct Spin {
    pub tilt: u32,
    pub period: u64,
    pub phase: Turn,
}

#[derive(Clone, Copy, Debug)]
pub struct Draft {
    pub name: &'static str,
    pub parent: Option<usize>,
    pub kind: BodyKind,
    pub path: Path,
    pub look: Look,
    pub spin: Spin,
}

/// A system; angles and the field of view in thousandths of a degree.
#[derive(Debug)]
pub struct DraftScene {
    pub bodies: Vec<Draft>,
    pub host: usize,
    pub default_target: usize,
    pub targets: Vec<usize>,
    pub fov: u32,
    pub latitude: u32,
    pub longitude: u32,
}

/// Whether body `i` can be pointed at.
pub open spec fn pointable(bodies: Seq<Draft>, host: usize, i: usize) -> bool {
    i < bodies.len() && i != host && bodies[i as int].kind != BodyKind::Anchor
}

impl DraftScene {
    /// The root comes first, every other body behind its parent, and what is
    /// named can be pointed at from a planet or moon.
    pub open spec fn well_formed(self) -> bool {
        let bodies = self.bodies@;
        &&& 0 < bodies.len()
        &&& bodies[0].parent is None
        &&& forall|i: int|
            0 < i < bodies.len() ==> ((#[trigger] bodies[i]).parent matches Some(p) && p < i)
        &&& self.host < bodies.len()
        &&& bodies[self.host as int].kind == BodyKind::Planet || bodies[self.host as int].kind
            == BodyKind::Moon
        &&& pointable(bodies, self.host, self.default_target)
        &&& forall|k: int|
            0 <= k < self.targets@.len() ==> pointable(
                bodies,
                self.host,
                #[trigger] self.targets@[k],
            )
    }
}

/// The bodies of the kind whose parent is `parent`.
pub open spec fn family(bodies: Seq<Draft>, kind: BodyKind, parent: usize) -> Seq<usize> {
    crate::order::picked(
        bodies.len(),
        |i: int| bodies[i].kind == kind && bodies[i].parent == Some(parent),
    )
}

/// Body `i` of the small system: one Sun, two planets, one moon each. Terra and
/// Mars have three times their real diameter, and Phobos's orbit is scaled with
/// Mars.
pub open spec fn default_draft(i: int) -> Draft {
    seq![
        Draft {
            name: "Sun",
            parent: None,
            kind: BodyKind::Star,
            path: Path {
                axis: Length::NanoAu(0),
                eccentricity: 0,
                inclination: 0,
                node: Turn::MilliRadians(0),
                periapsis: Turn::MilliRadians(0),
                anomaly: Turn::MilliRadians(0),
                period: 0,
            },
            look: Look {
                radius: Length::Metres(696340000),
                albedo: Shade { red: 0, green: 0, blue: 0 },
                emission: Shade { red: 1000, green: 950, blue: 880 },
                luminosity: 1000,
            },
            spin: Spin { tilt: 0, period: 25380000, phase: Turn::MilliRadians(0) },
        },
        Draft {
            name: "Terra",
            parent: Some(0usize),
            kind: BodyKind::Planet,
            path: Path {
                axis: Length::NanoAu(1000000000),
                eccentricity: 16700,
                inclination: 0,
                node: Turn::MilliRadians(0),
                periapsis: Turn::MilliRadians(1800),
                anomaly: Turn::MilliRadians(600),
                period: 365256000,
            },
            look: Look {
                radius: Length::Metres(19113000),
                albedo: Shade { red: 280, green: 360, blue: 550 },
                emission: Shade { red: 0, green: 0, blue: 0 },
                luminosity: 0,
            },
            spin: Spin { tilt: 23440, period: 997270, phase: Turn::Half },
        },
        Draft {
            name: "Luna",
            parent: Some(1usize),
            kind: BodyKind::Moon,
            path: Path {
                axis: Length::Metres(384400000),
                eccentricity: 54900,
                inclination: 5145,
                node: Turn::MilliRadians(200),
                periapsis: Turn::MilliRadians(4200),
                anomaly: Turn::MilliRadians(2100),
                period: 27321661,
            },
            look: Look {
                radius: Length::Metres(1737400),
                albedo: Shade { red: 520, green: 510, blue: 480 },
                emission: Shade { red: 0, green: 0, blue: 0 },
                luminosity: 0,
            },
            spin: Spin { tilt: 6680, period: 27321661, phase: Turn::MilliRadians(0) },
        },
        Draft {
            name: "Mars",
            parent: Some(0usize),
            kind: BodyKind::Planet,
            path: Path {
                axis: Length::NanoAu(1523679000),
                eccentricity: 93400,
                inclination: 1850,
                node: Turn::MilliRadians(700),
                periapsis: Turn::MilliRadians(2900),
                anomaly: Turn::MilliRadians(3400),
                period: 686980000,
            },
            look: Look {
                radius: Length::Metres(10168500),
                albedo: Shade { red: 550, green: 300, blue: 180 },
                emission: Shade { red: 0, green: 0, blue: 0 },
                luminosity: 0,
            },
            spin: Spin { tilt: 25190, period: 1025957, phase: Turn::MilliRadians(400) },
        },
        Draft {
            name: "Phobos",
            parent: Some(3usize),
            kind: BodyKind::Moon,
            path: Path {
                axis: Length::Metres(28128000),
                eccentricity: 15100,
                inclination: 1075,
                node: Turn::MilliRadians(0),
                periapsis: Turn::MilliRadians(1000),
                anomaly: Turn::MilliRadians(0),
                period: 318910,
            },
            look: Look {
                radius: Length::Metres(11300),
                albedo: Shade { red: 300, green: 280, blue: 260 },
                emission: Shade { red: 0, green: 0, blue: 0 },
                luminosity: 0,
            },
            spin: Spin { tilt: 0, period: 318910, phase: Turn::MilliRadians(0) },
        },
    ][i]
}

fn default_sun() -> (r: Draft)
    ensures
        r == default_draft(0),
{
    Draft {
        name: "Sun",
        parent: None,
        kind: BodyKind::Star,
        path: Path {
            axis: Length::NanoAu(0),
            eccentricity: 0,
            inclination: 0,
            node: Turn::MilliRadians(0),
            periapsis: Turn::MilliRadians(0),
            anomaly: Turn::MilliRadians(0),
            period: 0,
        },
        look: Look {
            radius: Length::Metres(696340000),
            albedo: Shade { red: 0, green: 0, blue: 0 },
            emission: Shade { red: 1000, green: 950, blue: 880 },
            luminosity: 1000,
        },
        spin: Spin { tilt: 0, period: 25380000, phase: Turn::MilliRadians(0) },
    }
}

fn default_terra() -> (r: Draft)
    ensures
        r == default_draft(1),
{
    Draft {
        name: "Terra",
        parent: Some(0usize),
        kind: BodyKind::Planet,
        path: Path {
            axis: Length::NanoAu(1000000000),
            eccentricity: 16700,
            inclination: 0,
            node: Turn::MilliRadians(0),
            periapsis: Turn::MilliRadians(1800),
            anomaly: Turn::MilliRadians(600),
            period: 365256000,
        },
        look: Look {
            radius: Length::Metres(19113000),
            albedo: Shade { red: 280, green: 360, blue: 550 },
            emission: Shade { red: 0, green: 0, blue: 0 },
            luminosity: 0,
        },
        spin: Spin { tilt: 23440, period: 997270, phase: Turn::Half },
    }
}

fn default_luna() -> (r: Draft)
    ensures
        r == default_draft(2),
{
    Draft {
        name: "Luna",
        parent: Some(1usize),
        kind: BodyKind::Moon,
        path: Path {
            axis: Length::Metres(384400000),
            eccentricity: 54900,
            inclination: 5145,
            node: Turn::MilliRadians(200),
            periapsis: Turn::MilliRadians(4200),
            anomaly: Turn::MilliRadians(2100),
            period: 27321661,
        },
        look: Look {
            radius: Length::Metres(1737400),
            albedo: Shade { red: 520, green: 510, blue: 480 },
            emission: Shade { red: 0, green: 0, blue: 0 },
            luminosity: 0,
        },
        spin: Spin { tilt: 6680, period: 27321661, phase: Turn::MilliRadians(0) },
    }
}

fn default_mars() -> (r: Draft)
    ensures
        r == default_draft(3),
{
    Draft {
        name: "Mars",
        parent: Some(0usize),
        kind: BodyKind::Planet,
        path: Path {
            axis: Length::NanoAu(1523679000),
            eccentricity: 93400,
            inclination: 1850,
            node: Turn::MilliRadians(700),
            periapsis: Turn::MilliRadians(2900),
            anomaly: Turn::MilliRadians(3400),
            period: 686980000,
        },
        look: Look {
            radius: Length::Metres(10168500),
            albedo: Shade { red: 550, green: 300, blue: 180 },
            emission: Shade { red: 0, green: 0, blue: 0 },
            luminosity: 0,
        },
        spin: Spin { tilt: 25190, period: 1025957, phase: Turn::MilliRadians(400) },
    }
}

fn default_phobos() -> (r: Draft)
    ensures
        r == default_draft(4),
{
    Draft {
        name: "Phobos",
        parent: Some(3usize),
        kind: BodyKind::Moon,
        path: Path {
            axis: Length::Metres(28128000),
            eccentricity: 15100,
            inclination: 1075,
            node: Turn::MilliRadians(0),
            periapsis: Turn::MilliRadians(1000),
            anomaly: Turn::MilliRadians(0),
            period: 318910,
        },
        look: Look {
            radius: Length::Metres(11300),
            albedo: Shade { red: 300, green: 280, blue: 260 },
            emission: Shade { red: 0, green: 0, blue: 0 },
            luminosity: 0,
        },
        spin: Spin { tilt: 0, period: 318910, phase: Turn::MilliRadians(0) },
    }
}

/// A small, hand-tuned system: one Sun, two planets, one moon each. The
/// telescope stands on `Terra`.
pub fn default_scene() -> (r: DraftScene)
    ensures
        r.bodies@ == Seq::new(5, |i: int| default_draft(i)),
        r.host == 1,
        r.default_target == 2,
        r.targets@ == seq![2usize, 0, 3, 4],
        r.bodies@[r.host as int].name == "Terra",
        r.bodies@[r.default_target as int].name == "Luna",
        r.targets@[0] == r.default_target,
        r.fov == 1_100,
        r.latitude == 35_000,
        r.longitude == 0,
        r.well_formed(),
{
    let bodies = vec![
        default_sun(),
        default_terra(),
        default_luna(),
        default_mars(),
        default_phobos(),
    ];
    assert(bodies@ =~= Seq::new(5, |i: int| default_draft(i)));
    let targets: Vec<usize> = vec![2, 0, 3, 4];
    DraftScene {
        bodies,
        host: 1,
        default_target: 2,
        targets,
        fov: 1_100,
        latitude: 35_000,
        longitude: 0,
    }
}

/// Body `i` of the binary system. The stars' radii are inflated for a thicker
/// disc while their luminosity is unchanged, and the spin axis of a moon runs
/// along its orbit's normal, so that its planet stays fixed in its sky.
pub open spec fn binary_draft(i: int) -> Draft {
    seq![
        Draft {
            name: "Barycentre",
            parent: None,
            kind: BodyKind::Anchor,
            path: Path {
                axis: Length::NanoAu(0),
                eccentricity: 0,
                inclination: 0,
                node: Turn::MilliRadians(0),
                periapsis: Turn::MilliRadians(0),
                anomaly: Turn::MilliRadians(0),
                period: 0,
            },
            look: Look {
                radius: Length::Metres(0),
                albedo: Shade { red: 0, green: 0, blue: 0 },
                emission: Shade { red: 0, green: 0, blue: 0 },
                luminosity: 0,
            },
            spin: Spin { tilt: 0, period: 1000000, phase: Turn::MilliRadians(0) },
        },
        Draft {
            name: "Aur",
            parent: Some(0usize),
            kind: BodyKind::Star,
            path: Path {
                axis: Length::NanoAu(300000000),
                eccentricity: 0,
                inclination: 0,
                node: Turn::MilliRadians(0),
                periapsis: Turn::MilliRadians(0),
                anomaly: Turn::MilliRadians(0),
                period: 120000000,
            },
            look: Look {
                radius: Length::NanoAu(30000000),
                albedo: Shade { red: 0, green: 0, blue: 0 },
                emission: Shade { red: 1000, green: 960, blue: 860 },
                luminosity: 2000,
            },
            spin: Spin { tilt: 0, period: 22000000, phase: Turn::MilliRadians(0) },
        },
        Draft {
            name: "Igni",
            parent: Some(0usize),
            kind: BodyKind::Star,
            path: Path {
                axis: Length::NanoAu(500000000),
                eccentricity: 0,
                inclination: 0,
                node: Turn::MilliRadians(0),
                periapsis: Turn::MilliRadians(0),
                anomaly: Turn::Half,
                period: 120000000,
            },
            look: Look {
                radius: Length::NanoAu(18000000),
                albedo: Shade { red: 0, green: 0, blue: 0 },
                emission: Shade { red: 1000, green: 420, blue: 200 },
                luminosity: 700,
            },
            spin: Spin { tilt: 0, period: 30000000, phase: Turn::MilliRadians(0) },
        },
        Draft {
            name: "Nerid",
            parent: Some(0usize),
            kind: BodyKind::Planet,
            path: Path {
                axis: Length::NanoAu(2600000000),
                eccentricity: 30000,
                inclination: 1500,
                node: Turn::MilliRadians(400),
                periapsis: Turn::MilliRadians(1100),
                anomaly: Turn::MilliRadians(2000),
                period: 1530000000,
            },
            look: Look {
                radius: Length::Metres(5734000),
                albedo: Shade { red: 450, green: 550, blue: 650 },
                emission: Shade { red: 0, green: 0, blue: 0 },
                luminosity: 0,
            },
            spin: Spin { tilt: 18000, period: 850000, phase: Turn::MilliRadians(0) },
        },
        Draft {
            name: "Pip",
            parent: Some(3usize),
            kind: BodyKind::Moon,
            path: Path {
                axis: Length::NanoAu(220000),
                eccentricity: 10000,
                inclination: 2000,
                node: Turn::MilliRadians(0),
                periapsis: Turn::MilliRadians(500),
                anomaly: Turn::MilliRadians(1000),
                period: 2500000,
            },
            look: Look {
                radius: Length::Metres(1200000),
                albedo: Shade { red: 600, green: 600, blue: 620 },
                emission: Shade { red: 0, green: 0, blue: 0 },
                luminosity: 0,
            },
            spin: Spin { tilt: 90000, period: 2500000, phase: Turn::MilliRadians(0) },
        },
        Draft {
            name: "Calyx",
            parent: Some(0usize),
            kind: BodyKind::Planet,
            path: Path {
                axis: Length::NanoAu(4200000000),
                eccentricity: 20000,
                inclination: 1000,
                node: Turn::MilliRadians(2000),
                periapsis: Turn::MilliRadians(3000),
                anomaly: Turn::MilliRadians(4500),
                period: 3000000000,
            },
            look: Look {
                radius: Length::Metres(9560000),
                albedo: Shade { red: 720, green: 600, blue: 420 },
                emission: Shade { red: 0, green: 0, blue: 0 },
                luminosity: 0,
            },
            spin: Spin { tilt: 22000, period: 600000, phase: Turn::MilliRadians(0) },
        },
        Draft {
            name: "Halo",
            parent: Some(5usize),
            kind: BodyKind::Moon,
            path: Path {
                axis: Length::NanoAu(160000),
                eccentricity: 2000,
                inclination: 500,
                node: Turn::MilliRadians(0),
                periapsis: Turn::MilliRadians(0),
                anomaly: Turn::MilliRadians(0),
                period: 3500000,
            },
            look: Look {
                radius: Length::Metres(1500000),
                albedo: Shade { red: 550, green: 570, blue: 600 },
                emission: Shade { red: 0, green: 0, blue: 0 },
                luminosity: 0,
            },
            spin: Spin { tilt: 90000, period: 3500000, phase: Turn::MilliRadians(0) },
        },
        Draft {
            name: "Umbra",
            parent: Some(5usize),
            kind: BodyKind::Moon,
            path: Path {
                axis: Length::NanoAu(320000),
                eccentricity: 10000,
                inclination: 1500,
                node: Turn::MilliRadians(1000),
                periapsis: Turn::MilliRadians(2000),
                anomaly: Turn::MilliRadians(3000),
                period: 8000000,
            },
            look: Look {
                radius: Length::Metres(1000000),
                albedo: Shade { red: 350, green: 330, blue: 320 },
                emission: Shade { red: 0, green: 0, blue: 0 },
                luminosity: 0,
            },
            spin: Spin { tilt: 90000, period: 8000000, phase: Turn::MilliRadians(0) },
        },
        Draft {
            name: "Vantus",
            parent: Some(0usize),
            kind: BodyKind::Planet,
            path: Path {
                axis: Length::NanoAu(6800000000),
                eccentricity: 50000,
                inclination: 2500,
                node: Turn::MilliRadians(1500),
                periapsis: Turn::MilliRadians(800),
                anomaly: Turn::MilliRadians(1200),
                period: 6200000000,
            },
            look: Look {
                radius: Length::Metres(14016000),
                albedo: Shade { red: 350, green: 420, blue: 550 },
                emission: Shade { red: 0, green: 0, blue: 0 },
                luminosity: 0,
            },
            spin: Spin { tilt: 12000, period: 400000, phase: Turn::MilliRadians(0) },
        },
        Draft {
            name: "Iri",
            parent: Some(8usize),
            kind: BodyKind::Moon,
            path: Path {
                axis: Length::NanoAu(180000),
                eccentricity: 5000,
                inclination: 1000,
                node: Turn::MilliRadians(0),
                periapsis: Turn::MilliRadians(1000),
                anomaly: Turn::MilliRadians(500),
                period: 5000000,
            },
            look: Look {
                radius: Length::Metres(800000),
                albedo: Shade { red: 500, green: 500, blue: 550 },
                emission: Shade { red: 0, green: 0, blue: 0 },
                luminosity: 0,
            },
            spin: Spin { tilt: 90000, period: 5000000, phase: Turn::MilliRadians(0) },
        },
        Draft {
            name: "Kesh",
            parent: Some(8usize),
            kind: BodyKind::Moon,
            path: Path {
                axis: Length::NanoAu(300000),
                eccentricity: 10000,
                inclination: 2000,
                node: Turn::MilliRadians(500),
                periapsis: Turn::MilliRadians(2000),
                anomaly: Turn::MilliRadians(2500),
                period: 11000000,
            },
            look: Look {
                radius: Length::Metres(600000),
                albedo: Shade { red: 450, green: 400, blue: 350 },
                emission: Shade { red: 0, green: 0, blue: 0 },
                luminosity: 0,
            },
            spin: Spin { tilt: 90000, period: 11000000, phase: Turn::MilliRadians(0) },
        },
        Draft {
            name: "Coll",
            parent: Some(8usize),
            kind: BodyKind::Moon,
            path: Path {
                axis: Length::NanoAu(450000),
                eccentricity: 20000,
                inclination: 3000,
                node: Turn::MilliRadians(200),
                periapsis: Turn::MilliRadians(4000),
                anomaly: Turn::MilliRadians(5000),
                period: 18000000,
            },
            look: Look {
                radius: Length::Metres(500000),
                albedo: Shade { red: 300, green: 320, blue: 380 },
                emission: Shade { red: 0, green: 0, blue: 0 },
                luminosity: 0,
            },
            spin: Spin { tilt: 90000, period: 18000000, phase: Turn::MilliRadians(0) },
        },
    ][i]
}

fn binary_barycentre() -> (r: Draft)
    ensures
        r == binary_draft(0),
{
    Draft {
        name: "Barycentre",
        parent: None,
        kind: BodyKind::Anchor,
        path: Path {
            axis: Length::NanoAu(0),
            eccentricity: 0,
            inclination: 0,
            node: Turn::MilliRadians(0),
            periapsis: Turn::MilliRadians(0),
            anomaly: Turn::MilliRadians(0),
            period: 0,
        },
        look: Look {
            radius: Length::Metres(0),
            albedo: Shade { red: 0, green: 0, blue: 0 },
            emission: Shade { red: 0, green: 0, blue: 0 },
            luminosity: 0,
        },
        spin: Spin { tilt: 0, period: 1000000, phase: Turn::MilliRadians(0) },
    }
}

fn binary_aur() -> (r: Draft)
    ensures
        r == binary_draft(1),
{
    Draft {
        name: "Aur",
        parent: Some(0usize),
        kind: BodyKind::Star,
        path: Path {
            axis: Length::NanoAu(300000000),
            eccentricity: 0,
            inclination: 0,
            node: Turn::MilliRadians(0),
            periapsis: Turn::MilliRadians(0),
            anomaly: Turn::MilliRadians(0),
            period: 120000000,
        },
        look: Look {
            radius: Length::NanoAu(30000000),
            albedo: Shade { red: 0, green: 0, blue: 0 },
            emission: Shade { red: 1000, green: 960, blue: 860 },
            luminosity: 2000,
        },
        spin: Spin { tilt: 0, period: 22000000, phase: Turn::MilliRadians(0) },
    }
}

fn binary_igni() -> (r: Draft)
    ensures
        r == binary_draft(2),
{
    Draft {
        name: "Igni",
        parent: Some(0usize),
        kind: BodyKind::Star,
        path: Path {
            axis: Length::NanoAu(500000000),
            eccentricity: 0,
            inclination: 0,
            node: Turn::MilliRadians(0),
            periapsis: Turn::MilliRadians(0),
            anomaly: Turn::Half,
            period: 120000000,
        },
        look: Look {
            radius: Length::NanoAu(18000000),
            albedo: Shade { red: 0, green: 0, blue: 0 },
            emission: Shade { red: 1000, green: 420, blue: 200 },
            luminosity: 700,
        },
        spin: Spin { tilt: 0, period: 30000000, phase: Turn::MilliRadians(0) },
    }
}

fn binary_nerid() -> (r: Draft)
    ensures
        r == binary_draft(3),
{
    Draft {
        name: "Nerid",
        parent: Some(0usize),
        kind: BodyKind::Planet,
        path: Path {
            axis: Length::NanoAu(2600000000),
            eccentricity: 30000,
            inclination: 1500,
            node: Turn::MilliRadians(400),
            periapsis: Turn::MilliRadians(1100),
            anomaly: Turn::MilliRadians(2000),
            period: 1530000000,
        },
        look: Look {
            radius: Length::Metres(5734000),
            albedo: Shade { red: 450, green: 550, blue: 650 },
            emission: Shade { red: 0, green: 0, blue: 0 },
            luminosity: 0,
        },
        spin: Spin { tilt: 18000, period: 850000, phase: Turn::MilliRadians(0) },
    }
}

fn binary_pip() -> (r: Draft)
    ensures
        r == binary_draft(4),
{
    Draft {
        name: "Pip",
        parent: Some(3usize),
        kind: BodyKind::Moon,
        path: Path {
            axis: Length::NanoAu(220000),
            eccentricity: 10000,
            inclination: 2000,
            node: Turn::MilliRadians(0),
            periapsis: Turn::MilliRadians(500),
            anomaly: Turn::MilliRadians(1000),
            period: 2500000,
        },
        look: Look {
            radius: Length::Metres(1200000),
            albedo: Shade { red: 600, green: 600, blue: 620 },
            emission: Shade { red: 0, green: 0, blue: 0 },
            luminosity: 0,
        },
        spin: Spin { tilt: 90000, period: 2500000, phase: Turn::MilliRadians(0) },
    }
}

fn binary_calyx() -> (r: Draft)
    ensures
        r == binary_draft(5),
{
    Draft {
        name: "Calyx",
        parent: Some(0usize),
        kind: BodyKind::Planet,
        path: Path {
            axis: Length::NanoAu(4200000000),
            eccentricity: 20000,
            inclination: 1000,
            node: Turn::MilliRadians(2000),
            periapsis: Turn::MilliRadians(3000),
            anomaly: Turn::MilliRadians(4500),
            period: 3000000000,
        },
        look: Look {
            radius: Length::Metres(9560000),
            albedo: Shade { red: 720, green: 600, blue: 420 },
            emission: Shade { red: 0, green: 0, blue: 0 },
            luminosity: 0,
        },
        spin: Spin { tilt: 22000, period: 600000, phase: Turn::MilliRadians(0) },
    }
}

fn binary_halo() -> (r: Draft)
    ensures
        r == binary_draft(6),
{
    Draft {
        name: "Halo",
        parent: Some(5usize),
        kind: BodyKind::Moon,
        path: Path {
            axis: Length::NanoAu(160000),
            eccentricity: 2000,
            inclination: 500,
            node: Turn::MilliRadians(0),
            periapsis: Turn::MilliRadians(0),
            anomaly: Turn::MilliRadians(0),
            period: 3500000,
        },
        look: Look {
            radius: Length::Metres(1500000),
            albedo: Shade { red: 550, green: 570, blue: 600 },
            emission: Shade { red: 0, green: 0, blue: 0 },
            luminosity: 0,
        },
        spin: Spin { tilt: 90000, period: 3500000, phase: Turn::MilliRadians(0) },
    }
}

fn binary_umbra() -> (r: Draft)
    ensures
        r == binary_draft(7),
{
    Draft {
        name: "Umbra",
        parent: Some(5usize),
        kind: BodyKind::Moon,
        path: Path {
            axis: Length::NanoAu(320000),
            eccentricity: 10000,
            inclination: 1500,
            node: Turn::MilliRadians(1000),
            periapsis: Turn::MilliRadians(2000),
            anomaly: Turn::MilliRadians(3000),
            period: 8000000,
        },
        look: Look {
            radius: Length::Metres(1000000),
            albedo: Shade { red: 350, green: 330, blue: 320 },
            emission: Shade { red: 0, green: 0, blue: 0 },
            luminosity: 0,
        },
        spin: Spin { tilt: 90000, period: 8000000, phase: Turn::MilliRadians(0) },
    }
}

fn binary_vantus() -> (r: Draft)
    ensures
        r == binary_draft(8),
{
    Draft {
        name: "Vantus",
        parent: Some(0usize),
        kind: BodyKind::Planet,
        path: Path {
            axis: Length::NanoAu(6800000000),
            eccentricity: 50000,
            inclination: 2500,
            node: Turn::MilliRadians(1500),
            periapsis: Turn::MilliRadians(800),
            anomaly: Turn::MilliRadians(1200),
            period: 6200000000,
        },
        look: Look {
            radius: Length::Metres(14016000),
            albedo: Shade { red: 350, green: 420, blue: 550 },
            emission: Shade { red: 0, green: 0, blue: 0 },
            luminosity: 0,
        },
        spin: Spin { tilt: 12000, period: 400000, phase: Turn::MilliRadians(0) },
    }
}

fn binary_iri() -> (r: Draft)
    ensures
        r == binary_draft(9),
{
    Draft {
        name: "Iri",
        parent: Some(8usize),
        kind: BodyKind::Moon,
        path: Path {
            axis: Length::NanoAu(180000),
            eccentricity: 5000,
            inclination: 1000,
            node: Turn::MilliRadians(0),
            periapsis: Turn::MilliRadians(1000),
            anomaly: Turn::MilliRadians(500),
            period: 5000000,
        },
        look: Look {
            radius: Length::Metres(800000),
            albedo: Shade { red: 500, green: 500, blue: 550 },
            emission: Shade { red: 0, green: 0, blue: 0 },
            luminosity: 0,
        },
        spin: Spin { tilt: 90000, period: 5000000, phase: Turn::MilliRadians(0) },
    }
}

fn binary_kesh() -> (r: Draft)
    ensures
        r == binary_draft(10),
{
    Draft {
        name: "Kesh",
        parent: Some(8usize),
        kind: BodyKind::Moon,
        path: Path {
            axis: Length::NanoAu(300000),
            eccentricity: 10000,
            inclination: 2000,
            node: Turn::MilliRadians(500),
            periapsis: Turn::MilliRadians(2000),
            anomaly: Turn::MilliRadians(2500),
            period: 11000000,
        },
        look: Look {
            radius: Length::Metres(600000),
            albedo: Shade { red: 450, green: 400, blue: 350 },
            emission: Shade { red: 0, green: 0, blue: 0 },
            luminosity: 0,
        },
        spin: Spin { tilt: 90000, period: 11000000, phase: Turn::MilliRadians(0) },
    }
}

fn binary_coll() -> (r: Draft)
    ensures
        r == binary_draft(11),
{
    Draft {
        name: "Coll",
        parent: Some(8usize),
        kind: BodyKind::Moon,
        path: Path {
            axis: Length::NanoAu(450000),
            eccentricity: 20000,
            inclination: 3000,
            node: Turn::MilliRadians(200),
            periapsis: Turn::MilliRadians(4000),
            anomaly: Turn::MilliRadians(5000),
            period: 18000000,
        },
        look: Look {
            radius: Length::Metres(500000),
            albedo: Shade { red: 300, green: 320, blue: 380 },
            emission: Shade { red: 0, green: 0, blue: 0 },
            luminosity: 0,
        },
        spin: Spin { tilt: 90000, period: 18000000, phase: Turn::MilliRadians(0) },
    }
}

/// A fictitious binary system.
///
/// Two stars orbit their common barycentre: `Aur`, a large yellow star, and
/// `Igni`, a smaller, redder one. Three planets circle the pair, with one, two
/// and three moons. The observatory stands on `Halo`, the inner moon of the
/// two-mooned planet `Calyx`, so the giant planet hangs permanently overhead.
pub fn binary_scene() -> (r: DraftScene)
    ensures
        r.bodies@ == Seq::new(12, |i: int| binary_draft(i)),
        r.host == 6,
        r.default_target == 5,
        r.targets@ == seq![5usize, 1, 2, 7, 3, 8, 4, 9],
        r.bodies@[r.host as int].name == "Halo",
        r.bodies@[r.default_target as int].name == "Calyx",
        r.targets@[0] == r.default_target,
        r.fov == 80_000,
        r.latitude == 35_000,
        r.longitude == 180_000,
        r.well_formed(),
{
    let bodies = vec![
        binary_barycentre(),
        binary_aur(),
        binary_igni(),
        binary_nerid(),
        binary_pip(),
        binary_calyx(),
        binary_halo(),
        binary_umbra(),
        binary_vantus(),
        binary_iri(),
        binary_kesh(),
        binary_coll(),
    ];
    assert(bodies@ =~= Seq::new(12, |i: int| binary_draft(i)));
    let targets: Vec<usize> = vec![5, 1, 2, 7, 3, 8, 4, 9];
    DraftScene {
        bodies,
        host: 6,
        default_target: 5,
        targets,
        fov: 80_000,
        latitude: 35_000,
        longitude: 180_000,
    }
}

/// The binary system from the planet: the observatory stands on `Calyx` and
/// looks at `Halo`, which also takes the number key that would aim into the
/// host.
pub fn calyx_scene() -> (r: DraftScene)
    ensures
        r.bodies@ == Seq::new(12, |i: int| binary_draft(i)),
        r.host == 5,
        r.default_target == 6,
        r.targets@ == seq![6usize, 1, 2, 7, 3, 8, 4, 9],
        r.bodies@[r.host as int].name == "Calyx",
        r.bodies@[r.default_target as int].name == "Halo",
        r.targets@[0] == r.default_target,
        r.fov == 80_000,
        r.latitude == 35_000,
        r.longitude == 180_000,
        r.well_formed(),
        !r.targets@.contains(r.host),
{
    let mut r = binary_scene();
    r.host = 5;
    r.default_target = 6;
    r.targets.set(0, 6);
    assert(r.targets@ =~= seq![6usize, 1, 2, 7, 3, 8, 4, 9]);
    r
}

/// The binary system is what its description says: two stars and three planets
/// around the barycentre, whose planets have one, two and three moons, and an
/// observatory on a moon of the planet that it looks at.
pub proof fn law_binary_system()
    ensures
        ({
            let b = Seq::new(12, |i: int| binary_draft(i));
            &&& family(b, BodyKind::Star, 0) == seq![1usize, 2]
            &&& family(b, BodyKind::Planet, 0) == seq![3usize, 5, 8]
            &&& family(b, BodyKind::Moon, 3) == seq![4usize]
            &&& family(b, BodyKind::Moon, 5) == seq![6usize, 7]
            &&& family(b, BodyKind::Moon, 8) == seq![9usize, 10, 11]
        }),
{
    reveal_with_fuel(crate::order::picked, 13);
    let b = Seq::new(12, |i: int| binary_draft(i));
    assert(family(b, BodyKind::Star, 0) =~= seq![1usize, 2]);
    assert(family(b, BodyKind::Planet, 0) =~= seq![3usize, 5, 8]);
    assert(family(b, BodyKind::Moon, 3) =~= seq![4usize]);
    assert(family(b, BodyKind::Moon, 5) =~= seq![6usize, 7]);
    assert(family(b, BodyKind::Moon, 8) =~= seq![9usize, 10, 11]);
}

/// Saturn's place in the solar system, and that of the number key which would
/// aim into the host.
pub const SATURN: usize = 8;

pub const SATURN_KEY: usize = 6;

/// The solar system seen from Saturn, where `moon` circles inside the rings.
pub open spec fn from_saturn(scene: SceneView, moon: BodyView) -> SceneView {
    let place = scene.bodies.len() as usize;
    SceneView {
        bodies: scene.bodies.push(moon),
        host: SATURN,
        default_target: place,
        targets: scene.targets.update(SATURN_KEY as int, place),
        atmosphere: None,
        default_fov_deg: Number { bits: 0x4054_0000_0000_0000 },
        observer_lat_deg: Number { bits: 0x4034_0000_0000_0000 },
        observer_lon_deg: Number { bits: 0 },
        ..scene
    }
}

/// Whether a scene has Saturn as a planet and a number key for it, and no other
/// key aims at it.
pub open spec fn has_saturn(scene: SceneView) -> bool {
    &&& scene.bodies.len() > SATURN
    &&& scene.bodies[SATURN as int].kind == BodyKind::Planet
    &&& scene.targets.len() > SATURN_KEY
    &&& forall|k: int|
        0 <= k < scene.targets.len() && k != SATURN_KEY ==> #[trigger] scene.targets[k] != SATURN
}

/// Whether the observatory on Saturn can be built in a scene.
pub fn saturn_ready(scene: &Scene) -> (r: bool)
    ensures
        r == has_saturn(scene@),
{
    if scene.bodies.len() <= SATURN || scene.targets.len() <= SATURN_KEY {
        return false;
    }
    if scene.bodies[SATURN].kind != BodyKind::Planet {
        assert(scene@.bodies[SATURN as int].kind != BodyKind::Planet);
        return false;
    }
    let mut k: usize = 0;
    while k < scene.targets.len()
        invariant
            k <= scene.targets@.len(),
            forall|j: int|
                0 <= j < k && j != SATURN_KEY ==> #[trigger] scene.targets@[j] != SATURN,
        decreases scene.targets.len() - k,
    {
        if k != SATURN_KEY && scene.targets[k] == SATURN {
            assert(scene@.targets[k as int] == SATURN);
            return false;
        }
        k += 1;
    }
    true
}

/// Observatory at 20 degrees north on Saturn's modeled spherical surface. Its
/// atmosphere is not modeled by the Earth-like scattering shell, and the seventh
/// number key looks toward the inner rings instead of aiming into the host.
pub fn saturn_observatory(scene: Scene, moon: Body) -> (r: Scene)
    requires
        scene@.bodies.len() > SATURN,
        scene@.targets.len() > SATURN_KEY,
    ensures
        r@ == from_saturn(scene@, moon@),
        scene@.well_formed() && has_saturn(scene@) && moon@.parent == Some(SATURN) && moon@.kind
            == BodyKind::Moon ==> r@.well_formed(),
{
    let ghost before = scene@;
    let mut scene = scene;
    let place: usize = scene.bodies.len();
    scene.bodies.push(moon);
    assert(crate::sim::body_views(scene.bodies@) =~= before.bodies.push(moon@));
    scene.host = SATURN;
    scene.atmosphere = None;
    scene.default_target = place;
    scene.targets.set(SATURN_KEY, place);
    scene.default_fov_deg = Number { bits: 0x4054_0000_0000_0000 };
    scene.observer_lat_deg = Number { bits: 0x4034_0000_0000_0000 };
    scene.observer_lon_deg = Number { bits: 0 };
    let n: usize = scene.bodies.len();
    assert(n == before.bodies.len() + 1);
    scene
}

/// The small system, property by property from the Sun outwards: semi-major axes,
/// eccentricities, inclinations, nodes, periapses, anomalies and periods of the
/// orbits, then sizes, colours and light, rotations, and who is what around whom.
pub proof fn law_small_system(i: int)
    requires
        0 <= i < 5,
    ensures
        ({
            let d = default_draft(i);
            &&& d.path.axis == seq![
                Length::NanoAu(0), Length::NanoAu(1000000000), Length::Metres(384400000),
                Length::NanoAu(1523679000), Length::Metres(28128000),
            ][i]
            &&& d.path.eccentricity == seq![
                0u32, 16700, 54900, 93400, 15100,
            ][i]
            &&& d.path.inclination == seq![
                0u32, 0, 5145, 1850, 1075,
            ][i]
            &&& d.path.node == seq![
                Turn::MilliRadians(0), Turn::MilliRadians(0), Turn::MilliRadians(200),
                Turn::MilliRadians(700), Turn::MilliRadians(0),
            ][i]
            &&& d.path.periapsis == seq![
                Turn::MilliRadians(0), Turn::MilliRadians(1800), Turn::MilliRadians(4200),
                Turn::MilliRadians(2900), Turn::MilliRadians(1000),
            ][i]
            &&& d.path.anomaly == seq![
                Turn::MilliRadians(0), Turn::MilliRadians(600), Turn::MilliRadians(2100),
                Turn::MilliRadians(3400), Turn::MilliRadians(0),
            ][i]
            &&& d.path.period == seq![
                0u64, 365256000, 27321661, 686980000, 318910,
            ][i]
            &&& d.look.radius == seq![
                Length::Metres(696340000), Length::Metres(19113000), Length::Metres(1737400),
                Length::Metres(10168500), Length::Metres(11300),
            ][i]
            &&& (d.look.albedo.red, d.look.albedo.green, d.look.albedo.blue) == seq![
                (0u32, 0u32, 0u32), (280u32, 360u32, 550u32), (520u32, 510u32, 480u32),
                (550u32, 300u32, 180u32), (300u32, 280u32, 260u32),
            ][i]
            &&& (d.look.emission.red, d.look.emission.green, d.look.emission.blue) == seq![
                (1000u32, 950u32, 880u32), (0u32, 0u32, 0u32), (0u32, 0u32, 0u32),
                (0u32, 0u32, 0u32), (0u32, 0u32, 0u32),
            ][i]
            &&& d.look.luminosity == seq![
                1000u32, 0, 0, 0, 0,
            ][i]
            &&& d.spin.tilt == seq![
                0u32, 23440, 6680, 25190, 0,
            ][i]
            &&& d.spin.period == seq![
                25380000u64, 997270, 27321661, 1025957, 318910,
            ][i]
            &&& d.spin.phase == seq![
                Turn::MilliRadians(0), Turn::Half, Turn::MilliRadians(0),
                Turn::MilliRadians(400), Turn::MilliRadians(0),
            ][i]
            &&& d.parent == seq![
                None::<usize>, Some(0usize), Some(1usize), Some(0usize), Some(3usize),
            ][i]
            &&& d.kind == seq![
                BodyKind::Star, BodyKind::Planet, BodyKind::Moon, BodyKind::Planet,
                BodyKind::Moon,
            ][i]
            &&& d.name == seq![
                "Sun", "Terra", "Luna", "Mars", "Phobos",
            ][i]
        }),
{
}

/// The binary system, property by property in the order of its bodies: semi-major
/// axes, eccentricities, inclinations, nodes, periapses, anomalies and periods of the
/// orbits, then sizes, colours and light, rotations, and who is what around whom.
pub proof fn law_double_system(i: int)
    requires
        0 <= i < 12,
    ensures
        ({
            let d = binary_draft(i);
            &&& d.path.axis == seq![
                Length::NanoAu(0), Length::NanoAu(300000000), Length::NanoAu(500000000),
                Length::NanoAu(2600000000), Length::NanoAu(220000), Length::NanoAu(4200000000),
                Length::NanoAu(160000), Length::NanoAu(320000), Length::NanoAu(6800000000),
                Length::NanoAu(180000), Length::NanoAu(300000), Length::NanoAu(450000),
            ][i]
            &&& d.path.eccentricity == seq![
                0u32, 0, 0, 30000, 10000, 20000, 2000, 10000, 50000, 5000, 10000, 20000,
            ][i]
            &&& d.path.inclination == seq![
                0u32, 0, 0, 1500, 2000, 1000, 500, 1500, 2500, 1000, 2000, 3000,
            ][i]
            &&& d.path.node == seq![
                Turn::MilliRadians(0), Turn::MilliRadians(0), Turn::MilliRadians(0),
                Turn::MilliRadians(400), Turn::MilliRadians(0), Turn::MilliRadians(2000),
                Turn::MilliRadians(0), Turn::MilliRadians(1000), Turn::MilliRadians(1500),
                Turn::MilliRadians(0), Turn::MilliRadians(500), Turn::MilliRadians(200),
            ][i]
            &&& d.path.periapsis == seq![
                Turn::MilliRadians(0), Turn::MilliRadians(0), Turn::MilliRadians(0),
                Turn::MilliRadians(1100), Turn::MilliRadians(500), Turn::MilliRadians(3000),
                Turn::MilliRadians(0), Turn::MilliRadians(2000), Turn::MilliRadians(800),
                Turn::MilliRadians(1000), Turn::MilliRadians(2000), Turn::MilliRadians(4000),
            ][i]
            &&& d.path.anomaly == seq![
                Turn::MilliRadians(0), Turn::MilliRadians(0), Turn::Half,
                Turn::MilliRadians(2000), Turn::MilliRadians(1000), Turn::MilliRadians(4500),
                Turn::MilliRadians(0), Turn::MilliRadians(3000), Turn::MilliRadians(1200),
                Turn::MilliRadians(500), Turn::MilliRadians(2500), Turn::MilliRadians(5000),
            ][i]
            &&& d.path.period == seq![
                0u64, 120000000, 120000000, 1530000000, 2500000, 3000000000, 3500000, 8000000,
                6200000000, 5000000, 11000000, 18000000,
            ][i]
            &&& d.look.radius == seq![
                Length::Metres(0), Length::NanoAu(30000000), Length::NanoAu(18000000),
                Length::Metres(5734000), Length::Metres(1200000), Length::Metres(9560000),
                Length::Metres(1500000), Length::Metres(1000000), Length::Metres(14016000),
                Length::Metres(800000), Length::Metres(600000), Length::Metres(500000),
            ][i]
            &&& (d.look.albedo.red, d.look.albedo.green, d.look.albedo.blue) == seq![
                (0u32, 0u32, 0u32), (0u32, 0u32, 0u32), (0u32, 0u32, 0u32),
                (450u32, 550u32, 650u32), (600u32, 600u32, 620u32), (720u32, 600u32, 420u32),
                (550u32, 570u32, 600u32), (350u32, 330u32, 320u32), (350u32, 420u32, 550u32),
                (500u32, 500u32, 550u32), (450u32, 400u32, 350u32), (300u32, 320u32, 380u32),
            ][i]
            &&& (d.look.emission.red, d.look.emission.green, d.look.emission.blue) == seq![
                (0u32, 0u32, 0u32), (1000u32, 960u32, 860u32), (1000u32, 420u32, 200u32),
                (0u32, 0u32, 0u32), (0u32, 0u32, 0u32), (0u32, 0u32, 0u32), (0u32, 0u32, 0u32),
                (0u32, 0u32, 0u32), (0u32, 0u32, 0u32), (0u32, 0u32, 0u32), (0u32, 0u32, 0u32),
                (0u32, 0u32, 0u32),
            ][i]
            &&& d.look.luminosity == seq![
                0u32, 2000, 700, 0, 0, 0, 0, 0, 0, 0, 0, 0,
            ][i]
            &&& d.spin.tilt == seq![
                0u32, 0, 0, 18000, 90000, 22000, 90000, 90000, 12000, 90000, 90000, 90000,
            ][i]
            &&& d.spin.period == seq![
                1000000u64, 22000000, 30000000, 850000, 2500000, 600000, 3500000, 8000000,
                400000, 5000000, 11000000, 18000000,
            ][i]
            &&& d.spin.phase == seq![
                Turn::MilliRadians(0), Turn::MilliRadians(0), Turn::MilliRadians(0),
                Turn::MilliRadians(0), Turn::MilliRadians(0), Turn::MilliRadians(0),
                Turn::MilliRadians(0), Turn::MilliRadians(0), Turn::MilliRadians(0),
                Turn::MilliRadians(0), Turn::MilliRadians(0), Turn::MilliRadians(0),
            ][i]
            &&& d.parent == seq![
                None::<usize>, Some(0usize), Some(0usize), Some(0usize), Some(3usize),
                Some(0usize), Some(5usize), Some(5usize), Some(0usize), Some(8usize),
                Some(8usize), Some(8usize),
            ][i]
            &&& d.kind == seq![
                BodyKind::Anchor, BodyKind::Star, BodyKind::Star, BodyKind::Planet,
                BodyKind::Moon, BodyKind::Planet, BodyKind::Moon, BodyKind::Moon,
                BodyKind::Planet, BodyKind::Moon, BodyKind::Moon, BodyKind::Moon,
            ][i]
            &&& d.name == seq![
                "Barycentre", "Aur", "Igni", "Nerid", "Pip", "Calyx", "Halo", "Umbra", "Vantus",
                "Iri", "Kesh", "Coll",
            ][i]
        }),
{
}

/// How the binary system hangs together: both stars go round the barycentre in one
/// period, on opposite sides, the brighter one closer in; a moon turns once an orbit
/// with its axis upright; and of bodies around one parent the farther is the slower,
/// the stars as a pair apart.
pub proof fn law_double_system_in_step(i: int, j: int)
    requires
        0 <= i < 12,
        0 <= j < 12,
    ensures
        ({
            let a = binary_draft(i);
            let b = binary_draft(j);
            &&& a.kind == BodyKind::Moon ==> a.spin.period == a.path.period && a.spin.tilt == 90_000
            &&& a.kind == BodyKind::Star && b.kind == BodyKind::Star && i != j ==> a.path.period
                == b.path.period && a.path.anomaly != b.path.anomaly && (a.look.luminosity
                > b.look.luminosity <==> farther(b.path.axis, a.path.axis))
            &&& a.kind == b.kind && a.kind != BodyKind::Star && a.parent == b.parent && farther(
                a.path.axis,
                b.path.axis,
            ) ==> a.path.period > b.path.period
            &&& a.look.luminosity > 0 <==> a.kind == BodyKind::Star
            &&& a.kind == BodyKind::Anchor <==> a.look.radius == Length::Metres(0)
        }),
{
}

/// Whether the first of two lengths in one unit is the greater.
pub open spec fn farther(a: Length, b: Length) -> bool {
    match (a, b) {
        (Length::NanoAu(x), Length::NanoAu(y)) => x > y,
        (Length::Metres(x), Length::Metres(y)) => x > y,
        _ => false,
    }
}

/// Seen from Saturn: the telescope stands on the ninth body at 20 degrees north, looks
/// at the added moon through 80 degrees without air, and the seventh number key leads
/// to that moon. Every other body, key and number stays as it was.
pub proof fn law_from_saturn(scene: SceneView, moon: BodyView, i: int, k: int)
    requires
        scene.bodies.len() < usize::MAX,
        0 <= i < scene.bodies.len(),
        scene.targets.len() > 6,
        0 <= k < scene.targets.len(),
    ensures
        ({
            let r = from_saturn(scene, moon);
            let one = crate::number::unit();
            &&& r.bodies.len() == scene.bodies.len() + 1
            &&& r.bodies[i] == scene.bodies[i]
            &&& r.bodies.last() == moon
            &&& r.host == 8
            &&& r.default_target == scene.bodies.len()
            &&& r.targets.len() == scene.targets.len()
            &&& r.targets[k] == (if k == 6 {
                scene.bodies.len()
            } else {
                scene.targets[k] as nat
            })
            &&& r.atmosphere is None
            &&& r.default_fov_deg@ == crate::number::Real::Finite(80 * one)
            &&& r.observer_lat_deg@ == crate::number::Real::Finite(20 * one)
            &&& r.observer_lon_deg@ == crate::number::Real::Finite(0)
            &&& r.observer_height_m == scene.observer_height_m
            &&& r.initial_time_days == scene.initial_time_days
        }),
{
    crate::number::lemma_bounds();
    vstd::arithmetic::power2::lemma2_to64();
    vstd::arithmetic::power2::lemma2_to64_rest();
    let u = crate::number::unit();
    let wide = Number { bits: 0x4054_0000_0000_0000 };
    let north = Number { bits: 0x4034_0000_0000_0000 };
    crate::number::lemma_value(wide, 46, 0x4000_0000_0000);
    crate::number::lemma_value(north, 48, 0x1_0000_0000_0000);
    let v = wide@->0;
    let w = north@->0;
    assert(v == 80 * u) by (nonlinear_arith)
        requires
            v * 0x4000_0000_0000 == 0x14_0000_0000_0000 * u,
    ;
    assert(w == 20 * u) by (nonlinear_arith)
        requires
            w * 0x1_0000_0000_0000 == 0x14_0000_0000_0000 * u,
    ;
}

/// Saturn is there exactly if the ninth body is a planet and the seventh number key,
/// and no other, can be turned away from it.
pub proof fn law_has_saturn(scene: SceneView)
    ensures
        has_saturn(scene) <==> {
            &&& scene.bodies.len() >= 9
            &&& scene.bodies[8].kind == BodyKind::Planet
            &&& scene.targets.len() >= 7
            &&& forall|k: int|
                0 <= k < scene.targets.len() && #[trigger] scene.targets[k] == 8 ==> k == 6
        },
{
}

} // verus!
