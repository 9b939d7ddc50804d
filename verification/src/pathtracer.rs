//! Progressive accumulation: when samples stay valid, and what each frame adds.
use crate::number::{Number, ZERO};
use crate::text::{parse_unsigned, same_ignoring_case, trim};
use vstd::prelude::*;

verus! {

/// How many bodies a scene can trace.
pub const BODY_CAPACITY: usize = 256;

/// Avoids counter wrap and loss of integer resolution in single-precision
/// weights.
pub const MAX_SAMPLES: u32 = 16_777_216;

/// Single-precision defaults, widened.
pub const DEFAULT_KEY: u64 = 0x3FD0_0000_0000_0000;

pub const DEFAULT_PERCENTILE: u64 = 0x3FEC_CCCC_C000_0000;

pub const UNIT: u64 = 0x3FF0_0000_0000_0000;

pub const LEAST_PERCENTILE: u64 = 0x3F84_7AE1_4000_0000;

pub const MOST_PERCENTILE: u64 = 0x3FEF_F7CE_E000_0000;

#[derive(Clone, Copy, Debug, PartialEq, Eq, Structural)]
pub struct Options {
    pub samples_per_frame: u32,
    pub max_bounces: u32,
    /// Manual exposure, used when automatic metering is disabled.
    pub exposure: Number,
    pub auto_exposure: bool,
    /// User exposure compensation, in stops, applied to either mode.
    pub ev_bias: Number,
    /// Luminance the metered percentile is mapped to.
    pub auto_key: Number,
    /// Which centre-weighted luminance percentile to meter (0..1).
    pub auto_percentile: Number,
}

/// What the environment sets. A number is absent where it does not parse.
#[derive(Debug)]
pub struct Variables {
    pub spp: Option<String>,
    pub bounces: Option<String>,
    pub exposure: Option<Number>,
    pub auto_exposure: Option<String>,
    pub ev_bias: Option<Number>,
    pub auto_key: Option<Number>,
    pub auto_percentile: Option<Number>,
}

/// A whole number from 1 to 64; anything else is cut to that range, and what is
/// no number counts as absent.
pub open spec fn chosen_count(text: Option<String>, default: u32) -> u32 {
    let value = match text {
        Some(s) => match crate::text::unsigned(s@, u32::MAX as nat) {
            Some(n) => n,
            None => default as nat,
        },
        None => default as nat,
    };
    if value < 1 {
        1
    } else if value > 64 {
        64
    } else {
        value as u32
    }
}

pub open spec fn chosen_positive(value: Option<Number>, default: u64) -> Number {
    match value {
        Some(v) => if v@ is Finite && (Number { bits: ZERO })@.lt(v@) {
            v
        } else {
            Number { bits: default }
        },
        None => Number { bits: default },
    }
}

/// Whether the text switches something off.
pub open spec fn says_off(text: Seq<char>) -> bool {
    let word = crate::text::lowered(crate::text::trimmed(text));
    word == crate::text::lowered("0"@) || word == crate::text::lowered("false"@) || word
        == crate::text::lowered("off"@)
}

pub open spec fn clamped(v: Number, low: u64, high: u64) -> Number {
    if v@.lt((Number { bits: low })@) {
        Number { bits: low }
    } else if (Number { bits: high })@.lt(v@) {
        Number { bits: high }
    } else {
        v
    }
}

fn count(text: &Option<String>, default: u32) -> (r: u32)
    ensures
        r == chosen_count(*text, default),
{
    let value: u64 = match text {
        Some(s) => match parse_unsigned(s.as_str(), u32::MAX as u64) {
            Some(n) => n,
            None => default as u64,
        },
        None => default as u64,
    };
    if value < 1 {
        1
    } else if value > 64 {
        64
    } else {
        value as u32
    }
}

fn positive(value: Option<Number>, default: u64) -> (r: Number)
    ensures
        r == chosen_positive(value, default),
{
    match value {
        Some(v) => if v.is_finite() && (Number { bits: ZERO }).less(v) {
            v
        } else {
            Number { bits: default }
        },
        None => Number { bits: default },
    }
}

impl Options {
    pub open spec fn standard() -> Options {
        Options {
            samples_per_frame: 1,
            max_bounces: 8,
            exposure: Number { bits: UNIT },
            auto_exposure: false,
            ev_bias: Number { bits: ZERO },
            auto_key: Number { bits: DEFAULT_KEY },
            auto_percentile: Number { bits: DEFAULT_PERCENTILE },
        }
    }

    /// The application meters automatically unless explicitly disabled.
    pub open spec fn chosen(v: Variables) -> Options {
        Options {
            samples_per_frame: chosen_count(v.spp, 1),
            max_bounces: chosen_count(v.bounces, 8),
            exposure: chosen_positive(v.exposure, UNIT),
            auto_exposure: v.auto_exposure matches Some(s) ==> !says_off(s@),
            ev_bias: match v.ev_bias {
                Some(b) => if b@ is Finite {
                    b
                } else {
                    Number { bits: ZERO }
                },
                None => Number { bits: ZERO },
            },
            auto_key: chosen_positive(v.auto_key, DEFAULT_KEY),
            auto_percentile: clamped(
                chosen_positive(v.auto_percentile, DEFAULT_PERCENTILE),
                LEAST_PERCENTILE,
                MOST_PERCENTILE,
            ),
        }
    }

    pub fn from_env(v: &Variables) -> (r: Options)
        ensures
            r == Options::chosen(*v),
            1 <= r.samples_per_frame <= 64,
            1 <= r.max_bounces <= 64,
    {
        let auto_exposure = match &v.auto_exposure {
            Some(s) => {
                let word = trim(s.as_str());
                let word = word.as_str();
                !(same_ignoring_case(word, "0") || same_ignoring_case(word, "false")
                    || same_ignoring_case(word, "off"))
            },
            None => true,
        };
        let ev_bias: Number = match v.ev_bias {
            Some(b) => if b.is_finite() {
                b
            } else {
                Number { bits: ZERO }
            },
            None => Number { bits: ZERO },
        };
        let percentile = positive(v.auto_percentile, DEFAULT_PERCENTILE);
        let low = Number { bits: LEAST_PERCENTILE };
        let high = Number { bits: MOST_PERCENTILE };
        Options {
            samples_per_frame: count(&v.spp, 1),
            max_bounces: count(&v.bounces, 8),
            exposure: positive(v.exposure, UNIT),
            auto_exposure,
            ev_bias,
            auto_key: positive(v.auto_key, DEFAULT_KEY),
            auto_percentile: if percentile.less(low) {
                low
            } else if high.less(percentile) {
                high
            } else {
                percentile
            },
        }
    }
}

impl Default for Options {
    fn default() -> (r: Self)
        ensures
            r == Options::standard(),
    {
        Options {
            samples_per_frame: 1,
            max_bounces: 8,
            exposure: Number { bits: UNIT },
            auto_exposure: false,
            ev_bias: Number { bits: ZERO },
            auto_key: Number { bits: DEFAULT_KEY },
            auto_percentile: Number { bits: DEFAULT_PERCENTILE },
        }
    }
}

/// What a traced picture depends on. Exposure and overlay are display-only and
/// deliberately no part of it.
#[derive(Debug)]
pub struct Picture {
    /// The camera, as it is handed to the tracer.
    pub globals: Vec<u8>,
    /// The bodies, as they are handed to the tracer.
    pub bodies: Vec<u8>,
    /// Even changes smaller than the tracer's position precision count.
    pub scene_time: Number,
    pub max_bounces: u32,
}

impl Picture {
    pub open spec fn same(self, other: Picture) -> bool {
        &&& self.globals@ == other.globals@
        &&& self.bodies@ == other.bodies@
        &&& self.scene_time == other.scene_time
        &&& self.max_bounces == other.max_bounces
    }

    fn equals(&self, other: &Picture) -> (r: bool)
        ensures
            r == self.same(*other),
    {
        same_bytes(&self.globals, &other.globals) && same_bytes(&self.bodies, &other.bodies)
            && self.scene_time == other.scene_time && self.max_bounces == other.max_bounces
    }
}

fn same_bytes(a: &Vec<u8>, b: &Vec<u8>) -> (r: bool)
    ensures
        r == (a@ == b@),
{
    if a.len() != b.len() {
        return false;
    }
    let mut i: usize = 0;
    while i < a.len()
        invariant
            a@.len() == b@.len(),
            i <= a@.len(),
            forall|j: int| 0 <= j < i ==> a@[j] == b@[j],
        decreases a.len() - i,
    {
        if a[i] != b[i] {
            assert(a@[i as int] != b@[i as int]);
            return false;
        }
        i += 1;
    }
    assert(a@ =~= b@);
    true
}

/// UI changes deliberately do not invalidate the accumulation.
#[derive(Debug)]
pub struct History {
    pub picture: Option<Picture>,
    pub samples: u32,
}

impl History {
    pub open spec fn well_formed(self) -> bool {
        self.samples <= MAX_SAMPLES
    }

    /// Whether the samples so far belong to `picture`.
    pub open spec fn holds(self, picture: Picture) -> bool {
        self.picture matches Some(p) && p.same(picture)
    }

    pub fn update(&mut self, picture: Picture)
        requires
            old(self).well_formed(),
        ensures
            final(self).well_formed(),
            final(self).holds(picture),
            final(self).samples == (if old(self).holds(picture) {
                old(self).samples
            } else {
                0
            }),
    {
        let kept = match &self.picture {
            Some(p) => p.equals(&picture),
            None => false,
        };
        if !kept {
            self.picture = Some(picture);
            self.samples = 0;
        }
    }
}

impl Default for History {
    fn default() -> (r: Self)
        ensures
            r.picture is None,
            r.samples == 0,
    {
        History { picture: None, samples: 0 }
    }
}

/// What one frame hands to the graphics processor.
#[derive(Clone, Copy, Debug, PartialEq, Eq, Structural)]
pub struct Pass {
    /// Bodies, samples so far, samples to add, surface vertices.
    pub bodies: u32,
    pub samples: u32,
    pub count: u32,
    pub max_bounces: u32,
    /// Whether only what follows the eased exposure value is written, so that
    /// it survives.
    pub keep_exposure: bool,
    pub trace: bool,
    pub write_bodies: bool,
    /// Meter the picture, even after accumulation reaches its limit.
    pub meter: bool,
    /// Groups of eight by eight pixels.
    pub groups_x: u32,
    pub groups_y: u32,
}

pub open spec fn groups(pixels: u32) -> int {
    (pixels + 7) / 8
}

/// The accumulation and the exposure's state, as far as the processor's side
/// does not hold them.
#[derive(Debug)]
pub struct Tracer {
    pub history: History,
    pub options: Options,
    pub width: u32,
    pub height: u32,
    /// Whether the eased exposure value should be preserved between frames.
    pub exposure_was_enabled: bool,
}

impl Tracer {
    pub fn new(width: u32, height: u32, options: Options) -> (r: Tracer)
        ensures
            r.history.well_formed(),
            r.history.samples == 0,
            r.history.picture is None,
            r.options == options,
            r.width == width,
            r.height == height,
            !r.exposure_was_enabled,
    {
        Tracer {
            history: History::default(),
            options,
            width,
            height,
            exposure_was_enabled: false,
        }
    }

    /// A new size starts the accumulation anew.
    pub fn resize(&mut self, width: u32, height: u32)
        ensures
            final(self).history.samples == 0,
            final(self).history.picture is None,
            final(self).width == width,
            final(self).height == height,
            final(self).options == old(self).options,
            final(self).exposure_was_enabled == old(self).exposure_was_enabled,
            forall|p: Picture| #[trigger] final(self).begins(p) == 0,
    {
        self.width = width;
        self.height = height;
        self.history = History::default();
    }

    /// Switch between automatic metering and the manual exposure, and set the
    /// exposure-compensation bias in stops. Display-only: never invalidates.
    pub fn set_exposure_controls(&mut self, auto: bool, bias: Number)
        ensures
            final(self).options == (Options {
                auto_exposure: auto,
                ev_bias: bias,
                ..old(self).options
            }),
            final(self).history == old(self).history,
            final(self).width == old(self).width,
            final(self).height == old(self).height,
            final(self).exposure_was_enabled == old(self).exposure_was_enabled,
            final(self).options.auto_exposure == auto && final(self).options.ev_bias == bias,
            forall|p: Picture| #[trigger] final(self).begins(p) == old(self).begins(p),
    {
        self.options.auto_exposure = auto;
        self.options.ev_bias = bias;
    }

    /// How many samples a frame of that picture begins with.
    pub open spec fn begins(self, picture: Picture) -> int {
        if self.history.holds(picture) {
            self.history.samples as int
        } else {
            0
        }
    }

    /// How many samples a frame of that picture adds.
    pub open spec fn adds(self, picture: Picture) -> int {
        let room = MAX_SAMPLES - self.begins(picture);
        if self.options.samples_per_frame < room {
            self.options.samples_per_frame as int
        } else {
            room
        }
    }

    /// What a frame of that picture with that many bodies hands over.
    pub open spec fn pass(self, picture: Picture, bodies: usize) -> Pass {
        Pass {
            bodies: bodies as u32,
            samples: self.begins(picture) as u32,
            count: self.adds(picture) as u32,
            max_bounces: self.options.max_bounces,
            keep_exposure: self.options.auto_exposure && self.exposure_was_enabled,
            trace: self.adds(picture) > 0,
            write_bodies: self.adds(picture) > 0 && bodies > 0,
            meter: self.options.auto_exposure,
            groups_x: groups(self.width) as u32,
            groups_y: groups(self.height) as u32,
        }
    }

    /// Plans a frame that shows `picture` with that many bodies.
    pub fn encode(&mut self, picture: Picture, bodies: usize) -> (r: Pass)
        requires
            old(self).history.well_formed(),
            bodies <= BODY_CAPACITY,
        ensures
            final(self).history.well_formed(),
            final(self).history.holds(picture),
            final(self).history.samples == old(self).begins(picture) + old(self).adds(picture),
            final(self).options == old(self).options,
            final(self).width == old(self).width,
            final(self).height == old(self).height,
            final(self).exposure_was_enabled == old(self).options.auto_exposure,
            r == old(self).pass(picture, bodies),
            final(self).history.samples == r.samples + r.count,
            final(self).exposure_was_enabled == r.meter,
            r.bodies == bodies,
            r.samples == old(self).begins(picture),
            r.count == old(self).adds(picture),
            r.max_bounces == old(self).options.max_bounces,
            r.keep_exposure == (old(self).options.auto_exposure && old(self).exposure_was_enabled),
            r.trace == (old(self).adds(picture) > 0),
            r.write_bodies == (old(self).adds(picture) > 0 && bodies > 0),
            r.meter == old(self).options.auto_exposure,
            r.groups_x == groups(old(self).width),
            r.groups_y == groups(old(self).height),
    {
        self.history.update(picture);
        let samples: u32 = self.history.samples;
        let room: u32 = MAX_SAMPLES - samples;
        let count: u32 = if self.options.samples_per_frame < room {
            self.options.samples_per_frame
        } else {
            room
        };
        let keep_exposure = self.options.auto_exposure && self.exposure_was_enabled;
        self.exposure_was_enabled = self.options.auto_exposure;
        self.history.samples = samples + count;
        Pass {
            bodies: bodies as u32,
            samples,
            count,
            max_bounces: self.options.max_bounces,
            keep_exposure,
            trace: count > 0,
            write_bodies: count > 0 && bodies > 0,
            meter: self.options.auto_exposure,
            groups_x: ((self.width as u64 + 7) / 8) as u32,
            groups_y: ((self.height as u64 + 7) / 8) as u32,
        }
    }
}

/// The size in bytes of an accumulation buffer, where the limit allows it.
pub open spec fn buffer_bytes(width: u32, height: u32, limit: u64) -> Option<int> {
    let bytes = width * height * 16;
    if bytes > limit {
        None
    } else if bytes < 16 {
        Some(16)
    } else {
        Some(bytes)
    }
}

pub fn accumulation_size(width: u32, height: u32, limit: u64) -> (r: Option<u64>)
    ensures
        match r {
            Some(bytes) => buffer_bytes(width, height, limit) == Some(bytes as int),
            None => buffer_bytes(width, height, limit) is None,
        },
        match r {
            Some(bytes) => width * height * 16 <= limit && bytes == (if width * height * 16 < 16 {
                16
            } else {
                width * height * 16
            }),
            None => width * height * 16 > limit,
        },
{
    assert(width * height <= 0xFFFF_FFFF * 0xFFFF_FFFF) by (nonlinear_arith)
        requires
            0 <= width <= 0xFFFF_FFFF,
            0 <= height <= 0xFFFF_FFFF,
    ;
    let bytes: u128 = (width as u128 * height as u128) * 16;
    if bytes > limit as u128 {
        None
    } else if bytes < 16 {
        Some(16)
    } else {
        Some(bytes as u64)
    }
}

pub open spec fn is_power_of_two(n: int) -> bool {
    exists|k: nat| n == #[trigger] vstd::arithmetic::power2::pow2(k)
}

/// The capacity of a buffer that has to hold `bytes`: as it is where that is
/// enough, else the least power of two that is.
pub fn grown_capacity(capacity: u64, bytes: u64) -> (r: u64)
    requires
        bytes <= 0x8000_0000_0000_0000,
    ensures
        bytes <= capacity ==> r == capacity,
        bytes > capacity ==> is_power_of_two(r as int) && bytes <= r && (r == 1 || r < 2 * bytes),
{
    if bytes <= capacity {
        return capacity;
    }
    let mut size: u64 = 1;
    proof {
        vstd::arithmetic::power2::lemma2_to64();
        assert(vstd::arithmetic::power2::pow2(0) == 1);
    }
    while size < bytes
        invariant
            bytes <= 0x8000_0000_0000_0000,
            is_power_of_two(size as int),
            1 <= size,
            size == 1 || size < 2 * bytes,
        decreases 2 * bytes - size,
    {
        proof {
            let k = choose|k: nat| size == #[trigger] vstd::arithmetic::power2::pow2(k);
            vstd::arithmetic::power2::lemma_pow2_adds(1, k);
            vstd::arithmetic::power2::lemma2_to64();
            assert(2 * size == vstd::arithmetic::power2::pow2(1 + k));
        }
        size = size * 2;
    }
    size
}

/// The same picture keeps its samples from frame to frame; the number never
/// passes the limit, and any change of picture starts it anew.
pub proof fn law_samples_accumulate(t: Tracer, picture: Picture)
    requires
        t.history.well_formed(),
    ensures
        0 <= t.begins(picture) + t.adds(picture) <= MAX_SAMPLES,
        t.adds(picture) >= 0,
        t.begins(picture) < MAX_SAMPLES && t.options.samples_per_frame > 0 ==> t.adds(picture) > 0,
        !t.history.holds(picture) ==> t.begins(picture) == 0,
{
}

/// Each of `states` is what encoding a frame of `picture` makes of the one
/// before.
pub open spec fn frames_of(states: Seq<Tracer>, picture: Picture) -> bool {
    forall|k: int|
        #![trigger states[k]]
        0 < k < states.len() ==> {
            &&& states[k].history.holds(picture)
            &&& states[k].history.samples == states[k - 1].begins(picture) + states[k - 1].adds(
                picture,
            )
            &&& states[k].options == states[k - 1].options
        }
}

/// Frames of one picture add their samples up until the average stops at the
/// limit.
pub proof fn law_the_average_stops(states: Seq<Tracer>, picture: Picture)
    requires
        states.len() > 1,
        states[0].history.well_formed(),
        frames_of(states, picture),
    ensures
        ({
            let sum = states[0].begins(picture) + (states.len() - 1)
                * states[0].options.samples_per_frame;
            states.last().history.samples == (if sum < MAX_SAMPLES {
                sum
            } else {
                MAX_SAMPLES as int
            })
        }),
        states.last().options == states[0].options,
    decreases states.len(),
{
    let n = states.len() as int - 1;
    let spp = states[0].options.samples_per_frame as int;
    assert(states[n] == states.last());
    if n > 1 {
        let before = states.drop_last();
        assert forall|k: int| #![trigger before[k]] 0 < k < before.len() implies {
            &&& before[k].history.holds(picture)
            &&& before[k].history.samples == before[k - 1].begins(picture) + before[k - 1].adds(
                picture,
            )
            &&& before[k].options == before[k - 1].options
        } by {
            assert(states[k] == before[k]);
        }
        law_the_average_stops(before, picture);
        assert(states[n - 1] == before.last());
        assert(n * spp == (n - 1) * spp + spp) by (nonlinear_arith);
    } else {
        assert(n * spp == spp) by (nonlinear_arith)
            requires
                n == 1,
        ;
    }
}

/// A count is what the text says where it says a number from 1 to 64, the nearer end
/// of that range where it says another, and the default where it says none.
pub proof fn law_counts(text: Option<String>, default: u32, n: nat)
    requires
        1 <= default <= 64,
        n <= u32::MAX,
    ensures
        ({
            let r = chosen_count(text, default);
            &&& 1 <= r <= 64
            &&& text is None ==> r == default
            &&& text is Some && !crate::text::all_digits(crate::text::unsigned_digits(text->0@))
                ==> r == default
            &&& text is Some && text->0@ == crate::text::decimal(n) ==> {
                &&& 1 <= n <= 64 ==> r == n
                &&& n == 0 ==> r == 1
                &&& n > 64 ==> r == 64
            }
        }),
{
    crate::text::law_numerals(n);
    assert(crate::text::unsigned(crate::text::decimal(n), u32::MAX as nat) == Some(n));
}

/// A positive setting is taken as it is; anything else, or none, is the default.
pub proof fn law_positive_settings(value: Option<Number>, default: u64, v: int)
    requires
        value is Some ==> value->0@ == crate::number::Real::Finite(v),
    ensures
        value is Some && v > 0 ==> chosen_positive(value, default) == value->0,
        value is Some && v <= 0 ==> chosen_positive(value, default).bits == default,
        value is None ==> chosen_positive(value, default).bits == default,
        forall|x: Number|
            x@ !is Finite ==> (#[trigger] chosen_positive(Some(x), default)).bits == default,
{
    crate::number::lemma_bounds();
}

/// Exactly the words `0`, `false` and `off` switch off, in whatever case and with
/// whatever white space around them.
pub proof fn law_off_words(text: Seq<char>)
    ensures
        says_off(text) <==> {
            let word = crate::text::lowered(crate::text::trimmed(text));
            ||| word == seq!['0']
            ||| word == seq!['f', 'a', 'l', 's', 'e']
            ||| word == seq!['o', 'f', 'f']
        },
{
    reveal_strlit("0");
    reveal_strlit("false");
    reveal_strlit("off");
    assert(crate::text::lowered("0"@) =~= seq!['0']);
    assert(crate::text::lowered("false"@) =~= seq!['f', 'a', 'l', 's', 'e']);
    assert(crate::text::lowered("off"@) =~= seq!['o', 'f', 'f']);
}

/// Clamping keeps what lies in the range and moves the rest to the nearer end.
pub proof fn law_clamping(v: Number, low: u64, high: u64, x: int, a: int, b: int)
    requires
        v@ == crate::number::Real::Finite(x),
        (Number { bits: low })@ == crate::number::Real::Finite(a),
        (Number { bits: high })@ == crate::number::Real::Finite(b),
        a <= b,
    ensures
        a <= x <= b ==> clamped(v, low, high) == v,
        x < a ==> clamped(v, low, high).bits == low,
        x > b ==> clamped(v, low, high).bits == high,
{
}

/// Without any setting: one sample a frame, eight bounces, unit exposure, automatic
/// metering without bias, a key of a quarter and the ninth decile. The standard
/// options are the same but meter by hand.
pub proof fn law_default_options(v: Variables)
    requires
        v.spp is None && v.bounces is None && v.exposure is None && v.auto_exposure is None,
        v.ev_bias is None && v.auto_key is None && v.auto_percentile is None,
    ensures
        ({
            let o = Options::chosen(v);
            let one = crate::number::unit();
            &&& o.samples_per_frame == 1
            &&& o.max_bounces == 8
            &&& o.exposure@ == crate::number::Real::Finite(one)
            &&& o.auto_exposure
            &&& o.ev_bias@ == crate::number::Real::Finite(0)
            &&& o.auto_key@ matches crate::number::Real::Finite(k) && 4 * k == one
            &&& tenths_of_one(o.auto_percentile, 9)
            &&& Options::standard() == (Options { auto_exposure: false, ..o })
        }),
{
    crate::number::lemma_bounds();
    vstd::arithmetic::power2::lemma2_to64();
    vstd::arithmetic::power2::lemma2_to64_rest();
    vstd::arithmetic::power2::lemma_pow2_pos(1074);
    let key = Number { bits: DEFAULT_KEY };
    let ninety = Number { bits: DEFAULT_PERCENTILE };
    let low = Number { bits: LEAST_PERCENTILE };
    let high = Number { bits: MOST_PERCENTILE };
    crate::number::lemma_value(key, 54, 0x40_0000_0000_0000);
    lemma_percentiles();
    let u = crate::number::unit();
    let k = key@->0;
    assert(4 * k == u) by (nonlinear_arith)
        requires
            k * 0x40_0000_0000_0000 == 0x10_0000_0000_0000 * u,
    ;
}

/// Whether a number is about so many tenths, to a ten-millionth.
pub open spec fn tenths_of_one(x: Number, tenths: int) -> bool {
    x@ matches crate::number::Real::Finite(v) && {
        let u = crate::number::unit();
        -u <= (10 * v - tenths * u) * 1_000_000 <= u
    }
}

/// The percentiles lie in order, from a hundredth to 0.999.
proof fn lemma_percentiles()
    ensures
        tenths_of_one(Number { bits: DEFAULT_PERCENTILE }, 9),
        (Number { bits: LEAST_PERCENTILE })@ matches crate::number::Real::Finite(a) && (Number {
            bits: DEFAULT_PERCENTILE,
        })@ matches crate::number::Real::Finite(b) && (Number {
            bits: MOST_PERCENTILE,
        })@ matches crate::number::Real::Finite(c) && 0 < a < b < c && {
            let u = crate::number::unit();
            &&& -u <= (100 * a - u) * 1_000_000 <= u
            &&& -u <= (1000 * c - 999 * u) * 10_000 <= u
        },
{
    vstd::arithmetic::power2::lemma2_to64();
    vstd::arithmetic::power2::lemma2_to64_rest();
    vstd::arithmetic::power2::lemma_pow2_pos(1074);
    let u = crate::number::unit();
    let low = Number { bits: LEAST_PERCENTILE };
    let mid = Number { bits: DEFAULT_PERCENTILE };
    let high = Number { bits: MOST_PERCENTILE };
    crate::number::lemma_value(low, 59, 0x800_0000_0000_0000);
    crate::number::lemma_value(mid, 53, 0x20_0000_0000_0000);
    crate::number::lemma_value(high, 53, 0x20_0000_0000_0000);
    let m = 0x10_0000_0000_0000 + low.bits as int % 0x10_0000_0000_0000;
    let n = 0x10_0000_0000_0000 + mid.bits as int % 0x10_0000_0000_0000;
    let o = 0x10_0000_0000_0000 + high.bits as int % 0x10_0000_0000_0000;
    let a = low@->0;
    let b = mid@->0;
    let c = high@->0;
    assert(m == 0x14_7AE1_4000_0000);
    assert(n == 0x1C_CCCC_C000_0000);
    assert(o == 0x1F_F7CE_E000_0000);
    assert(-u <= (10 * b - 9 * u) * 1_000_000 <= u && b > 0) by (nonlinear_arith)
        requires
            b * 0x20_0000_0000_0000 == n * u,
            n == 0x1C_CCCC_C000_0000,
            u > 0,
    ;
    assert(-u <= (100 * a - u) * 1_000_000 <= u && a > 0) by (nonlinear_arith)
        requires
            a * 0x800_0000_0000_0000 == m * u,
            m == 0x14_7AE1_4000_0000,
            u > 0,
    ;
    assert(-u <= (1000 * c - 999 * u) * 10_000 <= u) by (nonlinear_arith)
        requires
            c * 0x20_0000_0000_0000 == o * u,
            o == 0x1F_F7CE_E000_0000,
            u > 0,
    ;
}

/// The metered percentile is kept between a hundredth and 0.999, whatever is set.
pub proof fn law_percentiles_stay_inside(v: Variables)
    ensures
        Options::chosen(v).auto_percentile@ matches crate::number::Real::Finite(p) && {
            let u = crate::number::unit();
            99 * u <= 10_000 * p && 10_000 * p <= 9_991 * u
        },
{
    lemma_percentiles();
    vstd::arithmetic::power2::lemma_pow2_pos(1074);
    crate::number::lemma_bounds();
}

/// Each setting decides one option and no other.
pub proof fn law_settings_are_independent(v: Variables, w: Variables)
    ensures
        ({
            let a = Options::chosen(v);
            let b = Options::chosen(w);
            &&& v.spp == w.spp ==> a.samples_per_frame == b.samples_per_frame
            &&& v.bounces == w.bounces ==> a.max_bounces == b.max_bounces
            &&& v.exposure == w.exposure ==> a.exposure == b.exposure
            &&& v.auto_exposure == w.auto_exposure ==> a.auto_exposure == b.auto_exposure
            &&& v.ev_bias == w.ev_bias ==> a.ev_bias == b.ev_bias
            &&& v.auto_key == w.auto_key ==> a.auto_key == b.auto_key
            &&& v.auto_percentile == w.auto_percentile ==> a.auto_percentile == b.auto_percentile
        }),
{
}

/// A setting in range is the option of its name.
pub proof fn law_settings_are_taken(v: Variables, spp: nat, bounces: nat)
    requires
        1 <= spp <= 64,
        1 <= bounces <= 64,
    ensures
        ({
            let o = Options::chosen(v);
            &&& v.spp is Some && v.spp->0@ == crate::text::decimal(spp) ==> o.samples_per_frame
                == spp
            &&& v.bounces is Some && v.bounces->0@ == crate::text::decimal(bounces)
                ==> o.max_bounces == bounces
            &&& v.exposure is Some && v.exposure->0@ is Finite && v.exposure->0@->0 > 0 ==> o.exposure
                == v.exposure->0
            &&& v.auto_key is Some && v.auto_key->0@ is Finite && v.auto_key->0@->0 > 0 ==> o.auto_key
                == v.auto_key->0
            &&& v.ev_bias is Some && v.ev_bias->0@ is Finite ==> o.ev_bias == v.ev_bias->0
            &&& v.ev_bias is Some && v.ev_bias->0@ !is Finite ==> o.ev_bias.bits == 0
            &&& v.auto_exposure matches Some(s) ==> (o.auto_exposure <==> !says_off(s@))
            &&& v.auto_percentile is Some && v.auto_percentile->0@ is Finite
                && crate::number::unit() <= 50 * v.auto_percentile->0@->0 && 100
                * v.auto_percentile->0@->0 <= 99 * crate::number::unit() ==> o.auto_percentile
                == v.auto_percentile->0
        }),
{
    crate::number::lemma_bounds();
    lemma_percentiles();
    vstd::arithmetic::power2::lemma_pow2_pos(1074);
    law_counts(v.spp, 1, spp);
    law_counts(v.bounces, 8, bounces);
}

/// Samples belong to one picture: the slightest difference in camera, bodies, time or
/// bounces makes it another.
pub proof fn law_pictures(p: Picture, q: Picture)
    ensures
        p.globals@ != q.globals@ ==> !p.same(q),
        p.bodies@ != q.bodies@ ==> !p.same(q),
        p.scene_time.bits != q.scene_time.bits ==> !p.same(q),
        p.max_bounces != q.max_bounces ==> !p.same(q),
        p.same(q) <==> q.same(p),
        p.globals@ == q.globals@ && p.bodies@ == q.bodies@ && p.scene_time == q.scene_time
            && p.max_bounces == q.max_bounces ==> p.same(q),
{
}

/// Groups of eight pixels cover all of them, and none is without one.
pub proof fn law_groups_cover(pixels: u32)
    ensures
        8 * groups(pixels) >= pixels,
        8 * (groups(pixels) - 1) < pixels || groups(pixels) == 0,
        groups(pixels) == 0 <==> pixels == 0,
{
}

/// A frame adds the samples asked for, or those up to 16777216 where that is fewer,
/// on top of those of the same picture.
pub proof fn law_a_frame_adds(t: Tracer, picture: Picture)
    requires
        t.history.samples <= 16_777_216,
    ensures
        t.adds(picture) <= t.options.samples_per_frame,
        t.begins(picture) + t.adds(picture) <= 16_777_216,
        t.adds(picture) == t.options.samples_per_frame || t.begins(picture) + t.adds(picture)
            == 16_777_216,
        t.history.picture is None ==> t.begins(picture) == 0,
        t.history.picture matches Some(p) ==> (p.same(picture) ==> t.begins(picture)
            == t.history.samples) && (!p.same(picture) ==> t.begins(picture) == 0),
{
}

/// What a frame hands over: the bodies and bounces asked for, the samples so far and
/// those to add; it traces only where it adds some, writes bodies only if it traces
/// any, meters exactly with automatic exposure, and keeps the eased value only if the
/// frame before metered too.
pub proof fn law_passes(t: Tracer, picture: Picture, bodies: usize)
    requires
        t.history.samples <= 16_777_216,
        bodies <= 256,
    ensures
        ({
            let p = t.pass(picture, bodies);
            &&& p.bodies == bodies && bodies <= BODY_CAPACITY
            &&& p.max_bounces == t.options.max_bounces
            &&& p.samples + p.count <= 16_777_216
            &&& p.trace <==> p.count > 0
            &&& p.write_bodies <==> p.trace && bodies > 0
            &&& p.meter <==> t.options.auto_exposure
            &&& p.keep_exposure <==> p.meter && t.exposure_was_enabled
            &&& 8 * p.groups_x >= t.width && 8 * p.groups_x < t.width + 8
            &&& 8 * p.groups_y >= t.height && 8 * p.groups_y < t.height + 8
            &&& t.options.samples_per_frame > 0 && p.samples < 16_777_216 ==> p.trace
        }),
{
    law_groups_cover(t.width);
    law_groups_cover(t.height);
}

/// A buffer takes sixteen bytes for each pixel, is never without a pixel's worth, and
/// is refused exactly beyond the limit.
pub proof fn law_buffers(width: u32, height: u32, limit: u64)
    ensures
        ({
            let pixels = width as int * height as int;
            let r = buffer_bytes(width, height, limit);
            &&& r is None <==> 16 * pixels > limit
            &&& r matches Some(bytes) ==> (pixels > 0 ==> bytes == 16 * pixels) && (pixels == 0
                ==> bytes == 16)
        }),
{
    let pixels = width as int * height as int;
    assert(pixels >= 0) by (nonlinear_arith)
        requires
            pixels == width as int * height as int,
            width >= 0,
            height >= 0,
    ;
    assert(width * height * 16 == 16 * pixels);
}

} // verus!
