//! What can be seen: which body a pointer hits, which bodies are labelled, and
//! when a view is worth showing.
use crate::input::Cursor;
use crate::number::{Number, Real, ONE, ZERO};
use crate::sim::{BodyKind, Scene, SceneView};
use vstd::prelude::*;

verus! {

/// The doubles nearest to the thresholds' decimal values.
pub const ABOVE_HORIZON: u64 = 0x3FC3_3333_3333_3333;

pub const WELL_PLACED: u64 = 0x3FC9_9999_9999_999A;

pub const NIGHT: u64 = 0xBFB9_9999_9999_999A;

pub const LIT_PHASE: u64 = 0x3FD3_3333_3333_3333;

pub const STAR_UP: u64 = 0x3FA9_9999_9999_999A;

pub const NEAREST: u64 = 0x3E11_2E0B_E826_D695;

pub const MINUS_ONE: u64 = 0xBFF0_0000_0000_0000;

/// Steps of each search: a star is looked for over about a day, other bodies
/// over about 400 days.
pub const STAR_STEPS: u32 = 144;

pub const BODY_STEPS: u32 = 57_600;

pub const START_STEPS: u32 = 40_000;

pub const ECLIPSE_STEPS: u32 = 365_249;

pub const TRANSIT_STEPS: u32 = 39_999;

/// A surface on the pointer's line of sight.
#[derive(Clone, Copy, Debug, PartialEq, Eq, Structural)]
pub struct Hit {
    pub body: usize,
    pub distance: Number,
}

impl Hit {
    /// Behind the observer nothing is hit.
    pub open spec fn ahead(self) -> bool {
        (Number { bits: ZERO })@.lt(self.distance@)
    }
}

/// Whether hit `k` is the one in front: no hit ahead is nearer, and none before
/// it in the list is as near.
pub open spec fn in_front(hits: Seq<Hit>, k: int) -> bool {
    &&& 0 <= k < hits.len()
    &&& hits[k].ahead()
    &&& forall|j: int|
        0 <= j < hits.len() && (#[trigger] hits[j]).ahead() ==> !hits[j].distance@.lt(
            hits[k].distance@,
        )
    &&& forall|j: int|
        0 <= j < k && (#[trigger] hits[j]).ahead() ==> hits[k].distance@.lt(hits[j].distance@)
}

/// The nearest body on the line of sight, so overlapping bodies resolve to
/// whichever is actually in front.
pub fn pick_body(hits: &Vec<Hit>) -> (r: Option<usize>)
    ensures
        match r {
            Some(body) => exists|k: int| #[trigger] in_front(hits@, k) && hits@[k].body == body,
            None => forall|k: int| 0 <= k < hits@.len() ==> !(#[trigger] hits@[k]).ahead(),
        },
{
    let mut best: Option<usize> = None;
    let mut i: usize = 0;
    while i < hits.len()
        invariant
            i <= hits@.len(),
            match best {
                Some(k) => k < i && in_front(hits@.take(i as int), k as int),
                None => forall|k: int| 0 <= k < i ==> !(#[trigger] hits@[k]).ahead(),
            },
        decreases hits.len() - i,
    {
        let d = hits[i].distance;
        let ghost before = hits@.take(i as int);
        let ghost now = hits@.take(i + 1);
        let nearer = match best {
            Some(k) => d.less(hits[k].distance),
            None => true,
        };
        let ghost old_best = best;
        if (Number { bits: ZERO }).less(d) && nearer {
            best = Some(i);
        }
        proof {
            match best {
                Some(k) => {
                    assert forall|j: int| 0 <= j < now.len() && (#[trigger] now[j]).ahead() implies !now[j].distance@.lt(
                        now[k as int].distance@,
                    ) by {
                        if j < i {
                            assert(now[j] == before[j]);
                            if let Some(b) = old_best {
                                assert(!before[j].distance@.lt(before[b as int].distance@));
                            } else {
                                assert(!hits@[j].ahead());
                            }
                        }
                    }
                    assert forall|j: int| 0 <= j < k && (#[trigger] now[j]).ahead() implies now[k as int].distance@.lt(
                    now[j].distance@) by {
                        assert(now[j] == before[j]);
                        if let Some(b) = old_best {
                            assert(before[j].ahead());
                            assert(!before[j].distance@.lt(before[b as int].distance@));
                        } else {
                            assert(!hits@[j].ahead());
                        }
                    }
                    assert(in_front(now, k as int));
                },
                None => {},
            }
        }
        i += 1;
    }
    assert(hits@.take(i as int) =~= hits@);
    match best {
        Some(k) => {
            assert(in_front(hits@, k as int));
            Some(hits[k].body)
        },
        None => None,
    }
}

/// Whether the place lies on a window of that size.
pub open spec fn inside(at: Cursor, width: Number, height: Number) -> bool {
    let zero = (Number { bits: ZERO })@;
    zero.le(at.x@) && at.x@.lt(width@) && zero.le(at.y@) && at.y@.lt(height@)
}

/// Whether the pointer is on a window of that size.
pub fn on_window(at: Cursor, width: Number, height: Number) -> (r: bool)
    ensures
        r == inside(at, width, height),
{
    let zero = Number { bits: ZERO };
    zero.at_most(at.x) && at.x.less(width) && zero.at_most(at.y) && at.y.less(height)
}

/// A body relative to the telescope.
#[derive(Clone, Copy, Debug, PartialEq, Eq, Structural)]
pub struct Placement {
    pub distance: Number,
    /// Height above the local horizon's plane.
    pub height: Number,
    /// Position along the line of sight, negative in front.
    pub depth: Number,
    /// Place on the screen, from -1 to 1 both ways.
    pub across: Number,
    pub up: Number,
}

impl Placement {
    /// In front, above the horizon and on the screen.
    pub open spec fn on_view(self) -> bool {
        let one = (Number { bits: ONE })@;
        let minus_one = (Number { bits: MINUS_ONE })@;
        let zero = (Number { bits: ZERO })@;
        &&& !self.distance@.lt((Number { bits: NEAREST })@)
        &&& !self.height@.lt(zero)
        &&& !zero.le(self.depth@)
        &&& minus_one.le(self.across@) && self.across@.le(one)
        &&& minus_one.le(self.up@) && self.up@.le(one)
    }

    fn is_on_view(self) -> (r: bool)
        ensures
            r == self.on_view(),
    {
        let one = Number { bits: ONE };
        let minus_one = Number { bits: MINUS_ONE };
        let zero = Number { bits: ZERO };
        !self.distance.less(Number { bits: NEAREST }) && !self.height.less(zero) && !zero.at_most(
            self.depth,
        ) && minus_one.at_most(self.across) && self.across.at_most(one) && minus_one.at_most(
            self.up,
        ) && self.up.at_most(one)
    }
}

/// Whether body `i` gets a name on the screen.
pub open spec fn labelled(scene: SceneView, placements: Seq<Placement>, i: int) -> bool {
    &&& i != scene.host
    &&& scene.bodies[i].kind != BodyKind::Anchor
    &&& placements[i].on_view()
}

/// The bodies that get a name on the screen.
pub fn labels(scene: &Scene, placements: &Vec<Placement>) -> (r: Vec<usize>)
    requires
        placements@.len() == scene@.bodies.len(),
    ensures
        r@ == crate::order::picked(
            scene@.bodies.len(),
            |i: int| labelled(scene@, placements@, i),
        ),
{
    let ghost p = |i: int| labelled(scene@, placements@, i);
    let mut r: Vec<usize> = Vec::new();
    let mut i: usize = 0;
    while i < scene.bodies.len()
        invariant
            placements@.len() == scene@.bodies.len(),
            i <= scene@.bodies.len(),
            p == (|i: int| labelled(scene@, placements@, i)),
            r@ == crate::order::picked(i as nat, p),
        decreases scene.bodies.len() - i,
    {
        if i != scene.host && scene.bodies[i].kind != BodyKind::Anchor
            && placements[i].is_on_view() {
            r.push(i);
        }
        i += 1;
    }
    r
}

/// The sky at one step of a search for a good moment.
#[derive(Clone, Copy, Debug, PartialEq, Eq, Structural)]
pub struct Sighting {
    /// The target's altitude.
    pub altitude: Number,
    pub sun_altitude: Number,
    /// Cosine of the phase angle.
    pub illumination: Number,
}

impl Sighting {
    pub open spec fn high(self) -> bool {
        (Number { bits: ABOVE_HORIZON })@.lt(self.altitude@)
    }

    /// High, and for anything but a star at night and in a well-lit phase.
    pub open spec fn good(self, is_star: bool) -> bool {
        self.high() && (is_star || (self.sun_altitude@.lt((Number { bits: NIGHT })@) && (Number {
            bits: LIT_PHASE,
        })@.lt(self.illumination@)))
    }

    fn is_high(self) -> (r: bool)
        ensures
            r == self.high(),
    {
        (Number { bits: ABOVE_HORIZON }).less(self.altitude)
    }

    fn is_good(self, is_star: bool) -> (r: bool)
        ensures
            r == self.good(is_star),
    {
        self.is_high() && (is_star || (self.sun_altitude.less(Number { bits: NIGHT }) && (Number {
            bits: LIT_PHASE,
        }).less(self.illumination)))
    }
}

/// A search for a good moment to look at a body.
#[derive(Clone, Copy, Debug)]
pub struct AimSearch {
    pub is_star: bool,
    /// How many moments have been looked at.
    pub step: u32,
    /// The first at which the body was high at all.
    pub fallback: Option<u32>,
    /// The first that was good.
    pub chosen: Option<u32>,
}

impl AimSearch {
    pub open spec fn begun(is_star: bool) -> AimSearch {
        AimSearch { is_star, step: 0, fallback: None, chosen: None }
    }

    pub open spec fn limit(self) -> u32 {
        if self.is_star {
            STAR_STEPS
        } else {
            BODY_STEPS
        }
    }

    pub open spec fn over(self) -> bool {
        self.chosen is Some || self.step >= self.limit()
    }

    pub open spec fn seen(self, s: Sighting) -> AimSearch {
        if self.over() {
            self
        } else {
            AimSearch {
                step: (self.step + 1) as u32,
                fallback: if self.fallback is None && s.high() {
                    Some(self.step)
                } else {
                    self.fallback
                },
                chosen: if s.good(self.is_star) {
                    Some(self.step)
                } else {
                    None
                },
                ..self
            }
        }
    }

    /// The search after a run of sightings.
    pub open spec fn run(is_star: bool, sightings: Seq<Sighting>) -> AimSearch
        decreases sightings.len(),
    {
        if sightings.len() == 0 {
            AimSearch::begun(is_star)
        } else {
            AimSearch::run(is_star, sightings.drop_last()).seen(sightings.last())
        }
    }

    /// The moment to show: a good one, else one at which the body is up.
    pub open spec fn moment(self) -> Option<u32> {
        if self.chosen is Some {
            self.chosen
        } else {
            self.fallback
        }
    }

    pub fn new(is_star: bool) -> (r: AimSearch)
        ensures
            r == AimSearch::begun(is_star),
    {
        AimSearch { is_star, step: 0, fallback: None, chosen: None }
    }

    pub fn is_over(&self) -> (r: bool)
        ensures
            r == self.over(),
    {
        let limit: u32 = if self.is_star {
            STAR_STEPS
        } else {
            BODY_STEPS
        };
        self.chosen.is_some() || self.step >= limit
    }

    /// Looks at the next moment.
    pub fn look(&mut self, s: Sighting)
        ensures
            *final(self) == old(self).seen(s),
    {
        if self.is_over() {
            return;
        }
        if self.fallback.is_none() && s.is_high() {
            self.fallback = Some(self.step);
        }
        if s.is_good(self.is_star) {
            self.chosen = Some(self.step);
        }
        self.step += 1;
    }

    pub fn result(&self) -> (r: Option<u32>)
        ensures
            r == self.moment(),
    {
        if self.chosen.is_some() {
            self.chosen
        } else {
            self.fallback
        }
    }
}

/// A search shows the first good moment within its limit; where there is none,
/// the first at which the body is up.
pub proof fn law_first_good_moment_wins(is_star: bool, sightings: Seq<Sighting>, k: u32)
    requires
        k < sightings.len(),
        k < AimSearch::begun(is_star).limit(),
        forall|j: int| 0 <= j < k ==> !(#[trigger] sightings[j]).good(is_star),
    ensures
        sightings[k as int].good(is_star) ==> AimSearch::run(is_star, sightings).moment() == Some(
            k,
        ),
        sightings[k as int].high() && (forall|j: int|
            0 <= j < k ==> !(#[trigger] sightings[j]).high()) && (forall|j: int|
            0 <= j < sightings.len() ==> !(#[trigger] sightings[j]).good(is_star))
            ==> AimSearch::run(is_star, sightings).moment() == Some(k),
{
    if sightings[k as int].good(is_star) {
        lemma_chosen(is_star, sightings, k);
    }
    if sightings[k as int].high() && (forall|j: int|
        0 <= j < k ==> !(#[trigger] sightings[j]).high()) && (forall|j: int|
        0 <= j < sightings.len() ==> !(#[trigger] sightings[j]).good(is_star)) {
        lemma_fallback(is_star, sightings, k);
    }
}

proof fn lemma_undecided(is_star: bool, sightings: Seq<Sighting>)
    requires
        sightings.len() <= AimSearch::begun(is_star).limit(),
        forall|j: int| 0 <= j < sightings.len() ==> !(#[trigger] sightings[j]).good(is_star),
    ensures
        AimSearch::run(is_star, sightings).is_star == is_star,
        AimSearch::run(is_star, sightings).chosen is None,
        AimSearch::run(is_star, sightings).step == sightings.len(),
        (forall|j: int| 0 <= j < sightings.len() ==> !(#[trigger] sightings[j]).high())
            ==> AimSearch::run(is_star, sightings).fallback is None,
    decreases sightings.len(),
{
    if sightings.len() > 0 {
        let rest = sightings.drop_last();
        assert forall|j: int| 0 <= j < rest.len() implies !(#[trigger] rest[j]).good(is_star) by {
            assert(rest[j] == sightings[j]);
        }
        lemma_undecided(is_star, rest);
        assert(!sightings[sightings.len() - 1].good(is_star));
        if forall|j: int| 0 <= j < sightings.len() ==> !(#[trigger] sightings[j]).high() {
            assert forall|j: int| 0 <= j < rest.len() implies !(#[trigger] rest[j]).high() by {
                assert(rest[j] == sightings[j]);
            }
            assert(!sightings[sightings.len() - 1].high());
        }
    }
}

proof fn lemma_chosen(is_star: bool, sightings: Seq<Sighting>, k: u32)
    requires
        k < sightings.len(),
        k < AimSearch::begun(is_star).limit(),
        forall|j: int| 0 <= j < k ==> !(#[trigger] sightings[j]).good(is_star),
        sightings[k as int].good(is_star),
    ensures
        AimSearch::run(is_star, sightings).chosen == Some(k),
    decreases sightings.len(),
{
    let rest = sightings.drop_last();
    assert forall|j: int| 0 <= j < k implies !(#[trigger] rest[j]).good(is_star) by {
        assert(rest[j] == sightings[j]);
    }
    if k < rest.len() {
        lemma_chosen(is_star, rest, k);
    } else {
        lemma_undecided(is_star, rest);
        assert(sightings.last() == sightings[k as int]);
    }
}

proof fn lemma_fallback(is_star: bool, sightings: Seq<Sighting>, k: u32)
    requires
        k < sightings.len(),
        k < AimSearch::begun(is_star).limit(),
        sightings[k as int].high(),
        forall|j: int| 0 <= j < k ==> !(#[trigger] sightings[j]).high(),
        forall|j: int| 0 <= j < sightings.len() ==> !(#[trigger] sightings[j]).good(is_star),
    ensures
        AimSearch::run(is_star, sightings).chosen is None,
        AimSearch::run(is_star, sightings).fallback == Some(k),
        AimSearch::run(is_star, sightings).is_star == is_star,
    decreases sightings.len(),
{
    let rest = sightings.drop_last();
    assert forall|j: int| 0 <= j < rest.len() implies !(#[trigger] rest[j]).good(is_star) by {
        assert(rest[j] == sightings[j]);
    }
    assert(!sightings[sightings.len() - 1].good(is_star));
    assert forall|j: int| 0 <= j < k implies !(#[trigger] rest[j]).high() by {
        assert(rest[j] == sightings[j]);
    }
    if k < rest.len() {
        assert(rest[k as int] == sightings[k as int]);
        lemma_fallback(is_star, rest, k);
    } else {
        lemma_undecided(is_star, rest);
        assert(sightings.last() == sightings[k as int]);
    }
}

/// A search for the first moment at which something is to be seen.
#[derive(Clone, Copy, Debug, PartialEq, Eq, Structural)]
pub struct Search {
    /// How many moments are looked at, at most.
    pub limit: u32,
    /// How many have been.
    pub step: u32,
    /// The first that matched.
    pub found: Option<u32>,
}

impl Search {
    pub open spec fn begun(limit: u32) -> Search {
        Search { limit, step: 0, found: None }
    }

    pub open spec fn over(self) -> bool {
        self.found is Some || self.step >= self.limit
    }

    pub open spec fn seen(self, hit: bool) -> Search {
        if self.over() {
            self
        } else {
            Search {
                step: (self.step + 1) as u32,
                found: if hit {
                    Some(self.step)
                } else {
                    None
                },
                ..self
            }
        }
    }

    /// The search after a run of moments.
    pub open spec fn run(limit: u32, hits: Seq<bool>) -> Search
        decreases hits.len(),
    {
        if hits.len() == 0 {
            Search::begun(limit)
        } else {
            Search::run(limit, hits.drop_last()).seen(hits.last())
        }
    }

    /// For a moment that suits the first view.
    pub fn good_start() -> (r: Search)
        ensures
            r == Search::begun(START_STEPS),
    {
        Search { limit: START_STEPS, step: 0, found: None }
    }

    /// For the next eclipse of a star: up to ten model years, since a true-size
    /// planet does not see one every year.
    pub fn eclipse() -> (r: Search)
        ensures
            r == Search::begun(ECLIPSE_STEPS),
    {
        Search { limit: ECLIPSE_STEPS, step: 0, found: None }
    }

    /// For the next transit of a moon.
    pub fn transit() -> (r: Search)
        ensures
            r == Search::begun(TRANSIT_STEPS),
    {
        Search { limit: TRANSIT_STEPS, step: 0, found: None }
    }

    pub fn is_over(&self) -> (r: bool)
        ensures
            r == self.over(),
    {
        self.found.is_some() || self.step >= self.limit
    }

    /// Looks at the next moment.
    pub fn look(&mut self, hit: bool)
        ensures
            *final(self) == old(self).seen(hit),
    {
        if self.is_over() {
            return;
        }
        if hit {
            self.found = Some(self.step);
        }
        self.step += 1;
    }
}

/// A search finds the first matching moment within its limit; it ends without
/// one only where none of them matches.
pub proof fn law_first_match_wins(limit: u32, hits: Seq<bool>)
    ensures
        ({
            let s = Search::run(limit, hits);
            match s.found {
                Some(k) => {
                    &&& k < limit
                    &&& k < hits.len()
                    &&& hits[k as int]
                    &&& forall|j: int| 0 <= j < k ==> !#[trigger] hits[j]
                    &&& s.over()
                },
                None => {
                    &&& forall|j: int| 0 <= j < hits.len() && j < limit ==> !#[trigger] hits[j]
                    &&& s.over() <==> hits.len() >= limit
                },
            }
        }),
        Search::run(limit, hits).limit == limit,
        Search::run(limit, hits).found is None ==> Search::run(limit, hits).step == (if hits.len()
            < limit {
            hits.len() as int
        } else {
            limit as int
        }),
    decreases hits.len(),
{
    if hits.len() > 0 {
        let rest = hits.drop_last();
        law_first_match_wins(limit, rest);
        assert(forall|j: int| 0 <= j < rest.len() ==> rest[j] == #[trigger] hits[j]);
        let s = Search::run(limit, hits);
        if let Some(k) = s.found {
            assert forall|j: int| 0 <= j < k implies !#[trigger] hits[j] by {
                assert(rest[j] == hits[j]);
            }
        } else {
            assert forall|j: int| 0 <= j < hits.len() && j < limit implies !#[trigger] hits[j] by {
                if j < rest.len() {
                    assert(rest[j] == hits[j]);
                }
            }
        }
    }
}

/// The target well placed and, unless it is a star, every star below the horizon.
pub open spec fn starts_well(is_star: bool, altitude: Number, heights: Seq<Number>) -> bool {
    &&& (Number { bits: WELL_PLACED })@.lt(altitude@)
    &&& is_star || forall|i: int|
        0 <= i < heights.len() ==> (#[trigger] heights[i])@.lt((Number { bits: NIGHT })@)
}

/// Whether a moment suits the first view.
pub fn good_start(is_star: bool, altitude: Number, star_heights: &Vec<Number>) -> (r: bool)
    ensures
        r == starts_well(is_star, altitude, star_heights@),
{
    if !(Number { bits: WELL_PLACED }).less(altitude) {
        return false;
    }
    if is_star {
        return true;
    }
    let mut i: usize = 0;
    while i < star_heights.len()
        invariant
            i <= star_heights@.len(),
            !is_star,
            (Number { bits: WELL_PLACED })@.lt(altitude@),
            forall|j: int|
                0 <= j < i ==> (#[trigger] star_heights@[j])@.lt((Number { bits: NIGHT })@),
        decreases star_heights.len() - i,
    {
        if !star_heights[i].less(Number { bits: NIGHT }) {
            assert(!star_heights@[i as int]@.lt((Number { bits: NIGHT })@));
            return false;
        }
        i += 1;
    }
    true
}

/// A star and a body that might stand before it.
#[derive(Clone, Copy, Debug, PartialEq, Eq, Structural)]
pub struct Conjunction {
    pub star_height: Number,
    pub star_distance: Number,
    pub body_distance: Number,
    /// Angular radius of the body, and the least that makes an eclipse.
    pub body_size: Number,
    pub least_size: Number,
    /// Angle between the two, and the sum of their angular radii.
    pub separation: Number,
    pub reach: Number,
}

impl Conjunction {
    /// The star is up, and a body of some size stands in front of it and
    /// touches its disc.
    pub open spec fn eclipse(self) -> bool {
        &&& !self.star_height@.lt((Number { bits: STAR_UP })@)
        &&& !self.star_distance@.le(self.body_distance@)
        &&& !self.body_size@.lt(self.least_size@)
        &&& self.separation@.lt(self.reach@)
    }

    pub fn is_eclipse(&self) -> (r: bool)
        ensures
            r == self.eclipse(),
    {
        !self.star_height.less(Number { bits: STAR_UP }) && !self.star_distance.at_most(
            self.body_distance,
        ) && !self.body_size.less(self.least_size) && self.separation.less(self.reach)
    }
}

/// A planet and a moon of it that might cross it.
#[derive(Clone, Copy, Debug, PartialEq, Eq, Structural)]
pub struct Crossing {
    pub planet_height: Number,
    pub sun_altitude: Number,
    pub planet_distance: Number,
    pub moon_distance: Number,
    /// Angle between the two, and how close they have to be.
    pub separation: Number,
    pub reach: Number,
}

impl Crossing {
    /// The planet is up at night, and the moon stands in front of its disc.
    pub open spec fn transit(self) -> bool {
        &&& !self.planet_height@.lt((Number { bits: WELL_PLACED })@)
        &&& !(Number { bits: NIGHT })@.lt(self.sun_altitude@)
        &&& !self.planet_distance@.le(self.moon_distance@)
        &&& self.separation@.lt(self.reach@)
    }

    pub fn is_transit(&self) -> (r: bool)
        ensures
            r == self.transit(),
    {
        !self.planet_height.less(Number { bits: WELL_PLACED }) && !(Number { bits: NIGHT }).less(
            self.sun_altitude,
        ) && !self.planet_distance.at_most(self.moon_distance) && self.separation.less(self.reach)
    }
}

/// The first pair that makes an eclipse.
pub fn first_eclipse(pairs: &Vec<Conjunction>) -> (r: Option<usize>)
    ensures
        match r {
            Some(k) => k < pairs@.len() && pairs@[k as int].eclipse() && (forall|j: int|
                0 <= j < k ==> !(#[trigger] pairs@[j]).eclipse()),
            None => forall|j: int| 0 <= j < pairs@.len() ==> !(#[trigger] pairs@[j]).eclipse(),
        },
{
    let mut k: usize = 0;
    while k < pairs.len()
        invariant
            k <= pairs@.len(),
            forall|j: int| 0 <= j < k ==> !(#[trigger] pairs@[j]).eclipse(),
        decreases pairs.len() - k,
    {
        if pairs[k].is_eclipse() {
            return Some(k);
        }
        k += 1;
    }
    None
}

/// The first pair that makes a transit.
pub fn first_transit(pairs: &Vec<Crossing>) -> (r: Option<usize>)
    ensures
        match r {
            Some(k) => k < pairs@.len() && pairs@[k as int].transit() && (forall|j: int|
                0 <= j < k ==> !(#[trigger] pairs@[j]).transit()),
            None => forall|j: int| 0 <= j < pairs@.len() ==> !(#[trigger] pairs@[j]).transit(),
        },
{
    let mut k: usize = 0;
    while k < pairs.len()
        invariant
            k <= pairs@.len(),
            forall|j: int| 0 <= j < k ==> !(#[trigger] pairs@[j]).transit(),
        decreases pairs.len() - k,
    {
        if pairs[k].is_transit() {
            return Some(k);
        }
        k += 1;
    }
    None
}

/// The thresholds are what they are called: a star counts as up from a twentieth of
/// the way to the zenith, a body as high above 0.15 and as well placed above 0.2,
/// night as the star lower than a tenth below the horizon, a phase as lit above 0.3,
/// and anything nearer than a thousand-millionth as here.
pub proof fn law_thresholds()
    ensures
        crate::number::about(Number { bits: STAR_UP }, 1, 20),
        crate::number::about(Number { bits: ABOVE_HORIZON }, 3, 20),
        crate::number::about(Number { bits: WELL_PLACED }, 1, 5),
        crate::number::about(Number { bits: NIGHT }, -1, 10),
        crate::number::about(Number { bits: LIT_PHASE }, 3, 10),
        crate::number::about(Number { bits: NEAREST }, 1, 1_000_000_000),
        (Number { bits: MINUS_ONE })@ == Real::Finite(-crate::number::unit()),
{
    crate::number::law_named_fractions();
    crate::number::law_patterns(Number { bits: ONE });
}

/// A search for a star looks over one day in steps of ten minutes, one for another
/// body over 400 days; a first view is looked for over 400 days in steps of a
/// hundredth, an eclipse over ten years of 365.25 days in steps of a hundredth, and
/// a transit over 400 days likewise, the first step of both being the one after now.
pub proof fn law_search_lengths()
    ensures
        AimSearch::begun(true).limit() * 10 == 24 * 60,
        AimSearch::begun(false).limit() * 10 == 400 * 24 * 60,
        START_STEPS == 400 * 100,
        4 * (ECLIPSE_STEPS + 1) == 10 * 1461 * 100,
        TRANSIT_STEPS + 1 == 400 * 100,
{
}

/// An eclipse is to be seen exactly when the star stands no lower than 0.05, the
/// body is nearer than the star and no smaller than it has to be, and the two are
/// closer than their discs reach. Nothing else matters; so a body that comes still
/// nearer, a star that climbs, a larger body or a smaller angle keeps it one.
pub proof fn law_eclipse(
    c: Conjunction,
    height: int,
    star: int,
    body: int,
    size: int,
    least: int,
    angle: int,
    reach: int,
    up: int,
)
    requires
        (Number { bits: 0x3FA9_9999_9999_999A })@ == Real::Finite(up),
        c.star_height@ == Real::Finite(height),
        c.star_distance@ == Real::Finite(star),
        c.body_distance@ == Real::Finite(body),
        c.body_size@ == Real::Finite(size),
        c.least_size@ == Real::Finite(least),
        c.separation@ == Real::Finite(angle),
        c.reach@ == Real::Finite(reach),
    ensures
        c.eclipse() <==> height >= up && body < star && size >= least && angle < reach,
        forall|d: Number|
            c.eclipse() && d@.le(c.body_distance@) ==> (#[trigger] (Conjunction {
                body_distance: d,
                ..c
            }).eclipse()),
        forall|h: Number|
            c.eclipse() && c.star_height@.le(h@) ==> (#[trigger] (Conjunction {
                star_height: h,
                ..c
            }).eclipse()),
        forall|s: Number|
            c.eclipse() && c.body_size@.le(s@) ==> (#[trigger] (Conjunction {
                body_size: s,
                ..c
            }).eclipse()),
        forall|a: Number|
            c.eclipse() && a@.le(c.separation@) ==> (#[trigger] (Conjunction {
                separation: a,
                ..c
            }).eclipse()),
{
}

/// A transit is to be seen exactly when the planet stands no lower than 0.2, the
/// star no higher than a tenth below the horizon, the moon is nearer than the planet
/// and the two are close enough. Nothing else matters.
pub proof fn law_transit(
    c: Crossing,
    height: int,
    sun: int,
    planet: int,
    moon: int,
    angle: int,
    reach: int,
    up: int,
    dark: int,
)
    requires
        (Number { bits: 0x3FC9_9999_9999_999A })@ == Real::Finite(up),
        (Number { bits: 0xBFB9_9999_9999_999A })@ == Real::Finite(dark),
        c.planet_height@ == Real::Finite(height),
        c.sun_altitude@ == Real::Finite(sun),
        c.planet_distance@ == Real::Finite(planet),
        c.moon_distance@ == Real::Finite(moon),
        c.separation@ == Real::Finite(angle),
        c.reach@ == Real::Finite(reach),
    ensures
        c.transit() <==> height >= up && sun <= dark && moon < planet && angle < reach,
        forall|d: Number|
            c.transit() && d@.le(c.moon_distance@) ==> (#[trigger] (Crossing {
                moon_distance: d,
                ..c
            }).transit()),
{
}

/// A body is worth looking at above 0.15; unless it is a star, only at night and
/// with more than 0.3 of it lit. A star never waits for the night.
pub proof fn law_good_sighting(
    s: Sighting,
    altitude: int,
    sun: int,
    lit: int,
    up: int,
    dark: int,
    phase: int,
)
    requires
        (Number { bits: 0x3FC3_3333_3333_3333 })@ == Real::Finite(up),
        (Number { bits: 0xBFB9_9999_9999_999A })@ == Real::Finite(dark),
        (Number { bits: 0x3FD3_3333_3333_3333 })@ == Real::Finite(phase),
        s.altitude@ == Real::Finite(altitude),
        s.sun_altitude@ == Real::Finite(sun),
        s.illumination@ == Real::Finite(lit),
    ensures
        s.high() <==> altitude > up,
        s.good(true) <==> altitude > up,
        s.good(false) <==> altitude > up && sun < dark && lit > phase,
{
}

/// A first view suits above 0.2, and for anything but a star with every star a tenth
/// below the horizon or lower.
pub proof fn law_good_start(
    is_star: bool,
    altitude: Number,
    heights: Seq<Number>,
    a: int,
    up: int,
    dark: int,
    i: int,
)
    requires
        (Number { bits: 0x3FC9_9999_9999_999A })@ == Real::Finite(up),
        (Number { bits: 0xBFB9_9999_9999_999A })@ == Real::Finite(dark),
        altitude@ == Real::Finite(a),
    ensures
        starts_well(true, altitude, heights) <==> a > up,
        starts_well(is_star, altitude, heights) ==> a > up,
        starts_well(false, altitude, heights) && 0 <= i < heights.len() && heights[i]@ is Finite
            ==> heights[i]@->0 < dark,
        0 <= i < heights.len() && heights[i]@ is Finite && heights[i]@->0 >= dark ==> !starts_well(
            false,
            altitude,
            heights,
        ),
        a > up && (forall|j: int|
            0 <= j < heights.len() ==> (#[trigger] heights[j])@ is Finite && heights[j]@->0 < dark)
            ==> starts_well(is_star, altitude, heights),
{
}

/// A body is on the view when it is not the telescope's own place, not below the
/// horizon, in front, and no further than one from the middle either way.
pub proof fn law_on_view(
    p: Placement,
    distance: int,
    height: int,
    depth: int,
    across: int,
    up: int,
    here: int,
)
    requires
        (Number { bits: 0x3E11_2E0B_E826_D695 })@ == Real::Finite(here),
        p.distance@ == Real::Finite(distance),
        p.height@ == Real::Finite(height),
        p.depth@ == Real::Finite(depth),
        p.across@ == Real::Finite(across),
        p.up@ == Real::Finite(up),
    ensures
        p.on_view() <==> {
            &&& distance >= here
            &&& height >= 0
            &&& depth < 0
            &&& -crate::number::unit() <= across <= crate::number::unit()
            &&& -crate::number::unit() <= up <= crate::number::unit()
        },
{
    crate::number::lemma_bounds();
    law_thresholds();
}

/// Names stand at every body on the view but the host and the invisible anchors,
/// each once and in body order.
pub proof fn law_labels(scene: SceneView, placements: Seq<Placement>)
    requires
        scene.bodies.len() <= usize::MAX,
    ensures
        ({
            let names = crate::order::picked(
                scene.bodies.len(),
                |i: int| labelled(scene, placements, i),
            );
            &&& forall|i: usize| #[trigger]
                names.contains(i) <==> i < scene.bodies.len() && i != scene.host
                    && scene.bodies[i as int].kind != BodyKind::Anchor
                    && placements[i as int].on_view()
            &&& forall|a: int, b: int| 0 <= a < b < names.len() ==> names[a] < names[b]
        }),
{
    crate::order::lemma_picked(scene.bodies.len(), |i: int| labelled(scene, placements, i));
}

/// The pointer is on the window from its upper left corner up to, but not with, its
/// lower and right edges.
pub proof fn law_on_window(at: Cursor, width: Number, height: Number, x: int, y: int, w: int, h: int)
    requires
        at.x@ == Real::Finite(x),
        at.y@ == Real::Finite(y),
        width@ == Real::Finite(w),
        height@ == Real::Finite(h),
    ensures
        inside(at, width, height) <==> 0 <= x < w && 0 <= y < h,
{
    crate::number::lemma_bounds();
}

/// The hit in front is the nearest ahead of the observer, the first of several at
/// one distance, so there is at most one.
pub proof fn law_nearest_hit(hits: Seq<Hit>, k: int, j: int, near: int, far: int)
    requires
        in_front(hits, k),
        0 <= j < hits.len(),
        hits[k].distance@ == Real::Finite(near),
        hits[j].distance@ == Real::Finite(far),
    ensures
        near > 0,
        far > 0 ==> near <= far,
        far > 0 && j < k ==> near < far,
        in_front(hits, j) ==> j == k,
        hits[j].ahead() <==> far > 0,
{
    crate::number::lemma_bounds();
}

/// What an aim search shows lies within its limit and was seen with the body up; it
/// goes on exactly until a good moment or its end.
pub proof fn law_aim_searches_end(is_star: bool, sightings: Seq<Sighting>)
    ensures
        ({
            let a = AimSearch::run(is_star, sightings);
            let limit = if is_star {
                144int
            } else {
                57_600
            };
            &&& a.is_star == is_star
            &&& a.moment() matches Some(k) ==> k < limit && k < sightings.len()
                && sightings[k as int].high()
            &&& a.chosen matches Some(k) ==> k < sightings.len() && sightings[k as int].good(is_star)
                && a.over()
            &&& a.chosen is None ==> (a.over() <==> sightings.len() >= limit)
            &&& a.chosen is None ==> a.step == (if sightings.len() < limit {
                sightings.len() as int
            } else {
                limit
            })
            &&& a.fallback matches Some(k) ==> k < limit && k < sightings.len()
                && sightings[k as int].high()
        }),
    decreases sightings.len(),
{
    if sightings.len() > 0 {
        let rest = sightings.drop_last();
        law_aim_searches_end(is_star, rest);
        let n = rest.len() as int;
        assert(sightings[n] == sightings.last());
        assert forall|k: int| 0 <= k < n implies #[trigger] rest[k] == sightings[k] by {}
    }
}

/// A fresh search has seen nothing; an eclipse is looked for in so many steps, a
/// transit and a first view in theirs.
pub proof fn law_fresh_searches(limit: u32, is_star: bool)
    ensures
        Search::begun(limit).limit == limit,
        Search::begun(limit).step == 0,
        Search::begun(limit).found is None,
        AimSearch::begun(is_star).step == 0,
        AimSearch::begun(is_star).fallback is None,
        AimSearch::begun(is_star).chosen is None,
        AimSearch::begun(is_star).is_star == is_star,
        ECLIPSE_STEPS == 365_249,
        TRANSIT_STEPS == 39_999,
        START_STEPS == 40_000,
{
}

} // verus!
