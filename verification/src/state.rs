//! The telescope's controls: playback speed, view lock, and the gestures that
//! turn it.
use crate::input::{Cursor, Key};
use crate::number::Number;
use crate::sim::{BodyKind, Scene, SceneView};
use crate::text::decimal_text;
use vstd::prelude::*;
use vstd::string::StringExecFns;

verus! {

/// How many playback speeds there are.
pub const WARPS: usize = 17;

/// The speed at which time stands still.
pub const STOP_WARP: usize = 8;

/// Signed simulation speeds in thousandths of a day per real second, including
/// a true stop.
pub open spec fn speed_of(warp: usize) -> int {
    seq![
        -40_000int,
        -10_000,
        -2_000,
        -500,
        -100,
        -20,
        -5,
        -1,
        0,
        1,
        5,
        20,
        100,
        500,
        2_000,
        10_000,
        40_000,
    ][warp as int]
}

/// A faster setting is a higher speed, the two directions mirror each other,
/// and only the stop stands still.
pub proof fn law_speeds(a: usize, b: usize)
    requires
        a < WARPS,
        b < WARPS,
    ensures
        a < b ==> speed_of(a) < speed_of(b),
        speed_of((WARPS - 1 - a) as usize) == -speed_of(a),
        speed_of(a) == 0 <==> a == STOP_WARP,
{
}

#[derive(Clone, Copy, Debug, PartialEq, Eq, Structural)]
pub enum ViewLock {
    Body(usize),
    /// Fixed inertial direction, independent of the observer's orbit and spin.
    Background,
}

/// What lies under the pointer.
#[derive(Clone, Copy, Debug, PartialEq, Eq, Structural)]
pub enum Pick {
    /// The pointer is off the window.
    Outside,
    Sky,
    /// The nearest body.
    Body(usize),
}

#[derive(Clone, Copy, Debug)]
pub struct State {
    pub warp: usize,
    /// Either a moving scene body or a fixed direction against distant stars.
    pub view_lock: Option<ViewLock>,
    /// Cursor position where the current left-button press began (sky only).
    pub press: Option<Cursor>,
    pub last_cursor: Option<Cursor>,
    /// True only after a sky press crosses the drag threshold.
    pub dragging: bool,
    /// Whether the camera's roll is held against the stars.
    pub steady_stars: bool,
}

impl State {
    pub open spec fn well_formed(self, scene: SceneView) -> bool {
        &&& self.warp < WARPS
        &&& (self.view_lock matches Some(ViewLock::Body(i)) ==> i < scene.bodies.len())
    }

    /// Stopped, unlocked and idle.
    pub open spec fn fresh() -> State {
        State {
            warp: STOP_WARP,
            view_lock: None,
            press: None,
            last_cursor: None,
            dragging: false,
            steady_stars: false,
        }
    }

    pub open spec fn unlocked(self) -> State {
        State { view_lock: None, ..self }
    }

    pub open spec fn with_speed(self, faster: bool) -> State {
        State {
            warp: if faster {
                if self.warp + 1 < WARPS {
                    (self.warp + 1) as usize
                } else {
                    (WARPS - 1) as usize
                }
            } else if self.warp > 0 {
                (self.warp - 1) as usize
            } else {
                0
            },
            ..self
        }
    }

    pub open spec fn stopped(self) -> State {
        State { warp: STOP_WARP, ..self }
    }

    /// What a key does to the playback speed, if it is a time key.
    pub open spec fn timed(self, key: Key) -> Option<State> {
        match key {
            Key::ArrowLeft | Key::BracketLeft => Some(self.with_speed(false)),
            Key::ArrowRight | Key::BracketRight => Some(self.with_speed(true)),
            Key::Space => Some(self.stopped()),
            _ => None,
        }
    }

    /// What is locked, in words; names are given only where they may show.
    pub open spec fn lock_text(self, scene: SceneView, show_names: bool) -> Option<Seq<char>> {
        match self.view_lock {
            None => None,
            Some(ViewLock::Background) => Some("Background sky"@),
            Some(ViewLock::Body(i)) => Some(
                if show_names {
                    scene.bodies[i as int].name
                } else if scene.bodies[i as int].kind == BodyKind::Star {
                    "Star"@
                } else {
                    "Planet / moon"@
                },
            ),
        }
    }

    /// The lock that a pick asks for. The ground occludes the sky, so it is not
    /// a background-star target.
    pub open spec fn locked_at(self, pick: Pick, host: usize) -> State {
        match pick {
            Pick::Outside => self,
            Pick::Sky => State { view_lock: Some(ViewLock::Background), ..self },
            Pick::Body(i) => if i == host {
                self
            } else {
                State { view_lock: Some(ViewLock::Body(i)), ..self }
            },
        }
    }

    pub open spec fn pressed(self, at: Cursor) -> State {
        State {
            press: Some(at),
            last_cursor: Some(at),
            dragging: false,
            ..self.unlocked()
        }
    }

    /// Whether the pointer pans the view: there is a press, and it has left the
    /// click tolerance or did so before.
    pub open spec fn pans(self, travel: Number, tolerance: Number) -> bool {
        self.press is Some && (self.dragging || !travel@.le(tolerance@))
    }

    pub open spec fn dragged(self, at: Cursor, travel: Number, tolerance: Number) -> State {
        if self.pans(travel, tolerance) {
            State {
                dragging: true,
                last_cursor: Some(at),
                view_lock: if self.dragging {
                    self.view_lock
                } else {
                    None
                },
                ..self
            }
        } else {
            self
        }
    }

    /// Where the pan continues from.
    pub open spec fn pan_origin(self) -> Cursor {
        match self.last_cursor {
            Some(at) => at,
            None => self.press->0,
        }
    }

    /// Whether letting go now makes a click: a press that never became a pan.
    pub open spec fn clicks(self) -> bool {
        self.press is Some && !self.dragging
    }

    pub open spec fn lifted(self) -> State {
        State { press: None, dragging: false, last_cursor: None, ..self }
    }

    pub fn new() -> (r: State)
        ensures
            r == State::fresh(),
    {
        State {
            warp: STOP_WARP,
            view_lock: None,
            press: None,
            last_cursor: None,
            dragging: false,
            steady_stars: false,
        }
    }

    /// Playback speed in thousandths of a day per real second.
    pub fn speed(&self) -> (r: i32)
        requires
            self.warp < WARPS,
        ensures
            r == speed_of(self.warp),
    {
        let speeds: [i32; 17] = [
            -40_000,
            -10_000,
            -2_000,
            -500,
            -100,
            -20,
            -5,
            -1,
            0,
            1,
            5,
            20,
            100,
            500,
            2_000,
            10_000,
            40_000,
        ];
        speeds[self.warp]
    }

    pub fn unlock(&mut self)
        ensures
            *final(self) == old(self).unlocked(),
    {
        self.view_lock = None;
    }

    pub fn change_speed(&mut self, faster: bool)
        requires
            old(self).warp < WARPS,
        ensures
            *final(self) == old(self).with_speed(faster),
            final(self).warp < WARPS,
    {
        self.warp = if faster {
            if self.warp + 1 < WARPS {
                self.warp + 1
            } else {
                WARPS - 1
            }
        } else if self.warp > 0 {
            self.warp - 1
        } else {
            0
        };
    }

    /// Answers a time key; says whether it was one.
    pub fn time_key(&mut self, key: Key) -> (r: bool)
        requires
            old(self).warp < WARPS,
        ensures
            r == (old(self).timed(key) is Some),
            *final(self) == (match old(self).timed(key) {
                Some(s) => s,
                None => *old(self),
            }),
            final(self).warp < WARPS,
    {
        match key {
            Key::ArrowLeft | Key::BracketLeft => self.change_speed(false),
            Key::ArrowRight | Key::BracketRight => self.change_speed(true),
            Key::Space => {
                self.warp = STOP_WARP;
            },
            _ => {
                return false;
            },
        }
        true
    }

    pub fn locked_body(&self) -> (r: Option<usize>)
        ensures
            r == (match self.view_lock {
                Some(ViewLock::Body(i)) => Some(i),
                _ => None,
            }),
    {
        match self.view_lock {
            Some(ViewLock::Body(i)) => Some(i),
            _ => None,
        }
    }

    pub fn lock_label(&self, scene: &Scene, show_names: bool) -> (r: Option<String>)
        requires
            self.well_formed(scene@),
        ensures
            crate::menu::text_view(r) == self.lock_text(scene@, show_names),
    {
        match self.view_lock {
            None => None,
            Some(ViewLock::Background) => Some(String::from_str("Background sky")),
            Some(ViewLock::Body(i)) => {
                let body = scene.body(i);
                if show_names {
                    Some(body.name.clone())
                } else if body.kind == BodyKind::Star {
                    Some(String::from_str("Star"))
                } else {
                    Some(String::from_str("Planet / moon"))
                }
            },
        }
    }

    /// Locks onto what was picked.
    pub fn lock_at(&mut self, pick: Pick, host: usize)
        ensures
            *final(self) == old(self).locked_at(pick, host),
    {
        match pick {
            Pick::Outside => {},
            Pick::Sky => {
                self.view_lock = Some(ViewLock::Background);
            },
            Pick::Body(i) => {
                if i != host {
                    self.view_lock = Some(ViewLock::Body(i));
                }
            },
        }
    }

    pub fn begin_sky_press(&mut self, at: Cursor)
        ensures
            *final(self) == old(self).pressed(at),
    {
        self.unlock();
        self.press = Some(at);
        self.last_cursor = Some(at);
        self.dragging = false;
    }

    /// Do not pan until the cursor leaves the click tolerance. Gives where a pan
    /// continues from.
    pub fn drag_sky(&mut self, at: Cursor, travel: Number, tolerance: Number) -> (r: Option<Cursor>)
        ensures
            *final(self) == old(self).dragged(at, travel, tolerance),
            r == (if old(self).pans(travel, tolerance) {
                Some(old(self).pan_origin())
            } else {
                None
            }),
    {
        let start = match self.press {
            Some(start) => start,
            None => {
                return None;
            },
        };
        if !self.dragging {
            if travel.at_most(tolerance) {
                return None;
            }
            self.dragging = true;
            self.unlock();
        }
        let previous = match self.last_cursor {
            Some(previous) => previous,
            None => start,
        };
        self.last_cursor = Some(at);
        Some(previous)
    }

    /// Finish or cancel a gesture, returning whether it was a sky click.
    pub fn end_sky_press(&mut self) -> (r: bool)
        ensures
            *final(self) == old(self).lifted(),
            r == old(self).clicks(),
    {
        let click = self.press.is_some() && !self.dragging;
        self.press = None;
        self.dragging = false;
        self.last_cursor = None;
        click
    }
}

/// A number of hundredths as a decimal fraction, without needless zeros.
pub open spec fn hundredths(n: nat) -> Seq<char> {
    let whole = crate::text::decimal(n / 100);
    let rest = n % 100;
    if rest == 0 {
        whole
    } else if rest % 10 == 0 {
        whole + "."@ + crate::text::decimal(rest / 10)
    } else if rest < 10 {
        whole + ".0"@ + crate::text::decimal(rest)
    } else {
        whole + "."@ + crate::text::decimal(rest)
    }
}

fn hundredths_text(n: u64) -> (r: String)
    ensures
        r@ == hundredths(n as nat),
{
    let mut r = decimal_text(n / 100);
    let rest: u64 = n % 100;
    if rest == 0 {
        return r;
    }
    if rest % 10 == 0 {
        r.append(".");
        r.append(decimal_text(rest / 10).as_str());
    } else if rest < 10 {
        r.append(".0");
        r.append(decimal_text(rest).as_str());
    } else {
        r.append(".");
        r.append(decimal_text(rest).as_str());
    }
    r
}

/// Three decimals of a number of thousandths.
pub open spec fn thousandths(n: nat) -> Seq<char> {
    crate::text::decimal(n / 1000) + "."@ + seq![
        crate::text::digit((n / 100) % 10),
        crate::text::digit((n / 10) % 10),
        crate::text::digit(n % 10),
    ]
}

fn thousandths_text(n: u64) -> (r: String)
    ensures
        r@ == thousandths(n as nat),
{
    let mut r = decimal_text(n / 1000);
    r.append(".");
    let a: u8 = ((n / 100) % 10) as u8;
    let b: u8 = ((n / 10) % 10) as u8;
    let c: u8 = (n % 10) as u8;
    r.push((48 + a) as char);
    r.push((48 + b) as char);
    r.push((48 + c) as char);
    assert(r@ =~= thousandths(n as nat));
    r
}

/// One decimal of a number of tenths.
pub open spec fn tenths(n: nat) -> Seq<char> {
    (crate::text::decimal(n / 10) + "."@).push(crate::text::digit(n % 10))
}

fn tenths_text(n: u64) -> (r: String)
    ensures
        r@ == tenths(n as nat),
{
    let mut r = decimal_text(n / 10);
    r.append(".");
    let d: u8 = (n % 10) as u8;
    r.push((48 + d) as char);
    r
}

/// The magnitude of a speed.
pub open spec fn pace(warp: usize) -> nat {
    if speed_of(warp) < 0 {
        (-speed_of(warp)) as nat
    } else {
        speed_of(warp) as nat
    }
}

impl State {
    fn sign(&self) -> (r: &'static str)
        requires
            self.warp < WARPS,
        ensures
            r@ == (if speed_of(self.warp) < 0 {
                "-"@
            } else {
                "+"@
            }),
    {
        if self.speed() < 0 {
            "-"
        } else {
            "+"
        }
    }

    fn pace(&self) -> (r: u64)
        requires
            self.warp < WARPS,
        ensures
            r == pace(self.warp),
            r <= 40_000,
    {
        let speed: i32 = self.speed();
        if speed < 0 {
            (-speed) as u64
        } else {
            speed as u64
        }
    }

    /// The speed on the toolbar, in minutes per second: a thousandth of a day is
    /// 1.44 minutes.
    pub open spec fn speed_words(self) -> Seq<char> {
        if self.warp == STOP_WARP {
            "0 min/s"@
        } else {
            (if speed_of(self.warp) < 0 {
                "-"@
            } else {
                "+"@
            }) + hundredths(144 * pace(self.warp)) + " min/s"@
        }
    }

    pub fn speed_text(&self) -> (r: String)
        requires
            self.warp < WARPS,
        ensures
            r@ == self.speed_words(),
    {
        if self.warp == STOP_WARP {
            return String::from_str("0 min/s");
        }
        let mut r = String::from_str(self.sign());
        r.append(hundredths_text(144 * self.pace()).as_str());
        r.append(" min/s");
        r
    }

    /// The line above the sky in a puzzle: the speed in minutes per second, to
    /// the nearest tenth, and whether the view is locked.
    pub open spec fn status_text(self) -> Seq<char> {
        let base = (if self.warp == STOP_WARP {
            "STOPPED"@
        } else {
            "PLAYING"@
        }) + " | "@ + (if speed_of(self.warp) < 0 {
            "-"@
        } else {
            "+"@
        }) + tenths((144 * pace(self.warp) + 5) / 10) + " min/s"@;
        if self.view_lock is Some {
            base + " | View locked"@
        } else {
            base
        }
    }

    pub fn status(&self) -> (r: String)
        requires
            self.warp < WARPS,
        ensures
            r@ == self.status_text(),
    {
        let mut r = String::from_str(
            if self.warp == STOP_WARP {
                "STOPPED"
            } else {
                "PLAYING"
            },
        );
        r.append(" | ");
        r.append(self.sign());
        r.append(tenths_text((144 * self.pace() + 5) / 10).as_str());
        r.append(" min/s");
        if self.view_lock.is_some() {
            r.append(" | View locked");
        }
        r
    }

    /// The speed in the window's title, in days per second.
    pub open spec fn rate_words(self) -> Seq<char> {
        (if speed_of(self.warp) < 0 {
            "-"@
        } else {
            "+"@
        }) + thousandths(pace(self.warp)) + " day/s"@
    }

    pub fn rate_text(&self) -> (r: String)
        requires
            self.warp < WARPS,
        ensures
            r@ == self.rate_words(),
    {
        let mut r = String::from_str(self.sign());
        r.append(thousandths_text(self.pace()).as_str());
        r.append(" day/s");
        r
    }
}

/// With names hidden, what is said of a lock depends on the kinds of the bodies
/// alone.
pub proof fn law_hidden_names_stay_hidden(s: State, a: SceneView, b: SceneView)
    requires
        s.well_formed(a),
        a.bodies.len() == b.bodies.len(),
        forall|i: int| 0 <= i < a.bodies.len() ==> (#[trigger] a.bodies[i]).kind == b.bodies[i].kind,
    ensures
        s.lock_text(a, false) == s.lock_text(b, false),
{
    if let Some(ViewLock::Body(i)) = s.view_lock {
        assert(a.bodies[i as int].kind == b.bodies[i as int].kind);
    }
}

/// However far the pointer wanders inside the click tolerance, a press stays a
/// click and turns nothing; once it has left, coming back does not undo that.
pub proof fn law_jitter_does_not_pan(s: State, at: Cursor, travel: Number, tolerance: Number)
    ensures
        s.press is Some && !s.dragging && travel@.le(tolerance@) ==> s.dragged(
            at,
            travel,
            tolerance,
        ) == s,
        s.dragging ==> s.dragged(at, travel, tolerance).dragging,
        s.press is None ==> s.dragged(at, travel, tolerance) == s,
{
}

/// A press on the sky releases the lock at once; changing speed never does.
pub proof fn law_what_releases_the_lock(s: State, at: Cursor, key: Key, faster: bool)
    ensures
        s.pressed(at).view_lock is None,
        s.with_speed(faster).view_lock == s.view_lock,
        s.timed(key) matches Some(t) ==> t.view_lock == s.view_lock,
        s.lifted().view_lock == s.view_lock,
{
}

/// Slower undoes faster away from the ends, and the ends hold.
pub proof fn law_speed_steps(s: State)
    requires
        s.warp < WARPS,
    ensures
        s.warp + 1 < WARPS ==> s.with_speed(true).with_speed(false) == s,
        s.warp > 0 ==> s.with_speed(false).with_speed(true) == s,
        s.warp + 1 == WARPS ==> s.with_speed(true) == s,
        s.warp == 0 ==> s.with_speed(false) == s,
        s.stopped().stopped() == s.stopped(),
{
}

/// The scale of speeds: the first above the stop is a thousandth of a day per
/// second, and each further one four or five times as fast, four times behind 5, 500
/// and 10000 thousandths and five times else.
pub proof fn law_speed_scale(w: usize)
    requires
        8 < w < 16,
    ensures
        speed_of(9) == 1,
        speed_of(8) == 0,
        speed_of((w + 1) as usize) == speed_of(w) * (if speed_of(w) == 5 || speed_of(w) == 500
            || speed_of(w) == 10_000 {
            4int
        } else {
            5
        }),
        speed_of((16 - w) as usize) == -speed_of(w),
        WARPS == 17,
        STOP_WARP == 8,
{
}

/// Faster and slower go one step along the scale, stop goes to its middle, and none
/// of them touches anything but the speed.
pub proof fn law_speed_buttons(s: State)
    requires
        s.warp < 17,
    ensures
        s.with_speed(true) == (State {
            warp: if s.warp == 16 {
                16
            } else {
                (s.warp + 1) as usize
            },
            ..s
        }),
        s.with_speed(false) == (State {
            warp: if s.warp == 0 {
                0
            } else {
                (s.warp - 1) as usize
            },
            ..s
        }),
        s.stopped() == (State { warp: 8, ..s }),
        speed_of(s.stopped().warp) == 0,
        s.warp < 16 ==> speed_of(s.with_speed(true).warp) > speed_of(s.warp),
        s.warp > 0 ==> speed_of(s.with_speed(false).warp) < speed_of(s.warp),
{
}

/// The time keys are the arrows, the brackets and the space bar, and no others.
pub proof fn law_which_keys_tell_time(s: State, key: Key)
    ensures
        s.timed(key) is Some <==> key == Key::ArrowLeft || key == Key::ArrowRight || key
            == Key::BracketLeft || key == Key::BracketRight || key == Key::Space,
        s.timed(Key::ArrowLeft) == s.timed(Key::BracketLeft),
        s.timed(Key::ArrowRight) == s.timed(Key::BracketRight),
        s.timed(Key::ArrowLeft) == Some(s.with_speed(false)),
        s.timed(Key::ArrowRight) == Some(s.with_speed(true)),
        s.timed(Key::Space) == Some(s.stopped()),
{
}

/// A fresh telescope stands still, unlocked and untouched.
pub proof fn law_fresh()
    ensures
        speed_of(State::fresh().warp) == 0,
        State::fresh().view_lock is None,
        State::fresh().press is None,
        State::fresh().last_cursor is None,
        !State::fresh().dragging,
        !State::fresh().steady_stars,
{
}

/// Locking takes what was picked: a body other than the host, or the background.
/// The host and what lies off the window keep the lock, and nothing else changes.
pub proof fn law_locking(s: State, pick: Pick, host: usize)
    ensures
        s.locked_at(pick, host) == (State { view_lock: s.locked_at(pick, host).view_lock, ..s }),
        pick == Pick::Sky ==> s.locked_at(pick, host).view_lock == Some(ViewLock::Background),
        pick == Pick::Outside ==> s.locked_at(pick, host).view_lock == s.view_lock,
        pick matches Pick::Body(i) ==> s.locked_at(pick, host).view_lock == (if i == host {
            s.view_lock
        } else {
            Some(ViewLock::Body(i))
        }),
        s.unlocked() == (State { view_lock: None, ..s }),
{
}

/// What is said of a lock: nothing without one, the sky for the background, the
/// body's name where names may show, else only whether it is a star.
pub proof fn law_lock_words(s: State, scene: SceneView, show_names: bool)
    ensures
        s.view_lock is None ==> s.lock_text(scene, show_names) is None,
        s.view_lock == Some(ViewLock::Background) ==> s.lock_text(scene, show_names) == Some(
            "Background sky"@,
        ),
        s.view_lock matches Some(ViewLock::Body(i)) ==> {
            let b = scene.bodies[i as int];
            &&& show_names ==> s.lock_text(scene, show_names) == Some(b.name)
            &&& !show_names && b.kind == BodyKind::Star ==> s.lock_text(scene, show_names) == Some(
                "Star"@,
            )
            &&& !show_names && b.kind != BodyKind::Star ==> s.lock_text(scene, show_names) == Some(
                "Planet / moon"@,
            )
        },
{
}

/// A gesture: the press is remembered where it began and releases the lock; the
/// first move beyond the tolerance turns it into a pan from there and releases the
/// lock again, later moves pan from where the last one ended, and letting go forgets
/// all of it but keeps lock, speed and roll.
pub proof fn law_gestures(s: State, at: Cursor, to: Cursor, travel: Number, tolerance: Number)
    ensures
        ({
            let p = s.pressed(at);
            &&& p == (State {
                press: Some(at),
                last_cursor: Some(at),
                dragging: false,
                view_lock: None,
                ..s
            })
            &&& p.pan_origin() == at
            &&& p.pans(travel, tolerance) <==> !travel@.le(tolerance@)
            &&& p.pans(travel, tolerance) ==> p.dragged(to, travel, tolerance) == (State {
                dragging: true,
                last_cursor: Some(to),
                ..p
            }) && p.dragged(to, travel, tolerance).pan_origin() == to
            &&& p.dragged(to, travel, tolerance).lifted() == (State {
                press: None,
                last_cursor: None,
                dragging: false,
                view_lock: None,
                ..s
            })
        }),
        s.press is None ==> !s.pans(travel, tolerance),
        s.press is Some && s.dragging ==> s.pans(travel, tolerance) && s.dragged(
            to,
            travel,
            tolerance,
        ) == (State { last_cursor: Some(to), ..s }),
        s.lifted() == (State { press: None, last_cursor: None, dragging: false, ..s }),
{
}

/// What a decimal fraction is worth in units of its `places`-th decimal: the digits
/// before the point, and those behind it filled up with zeros.
pub open spec fn worth(whole: Seq<char>, fraction: Seq<char>, places: nat) -> int {
    crate::text::numeral_value(whole) * vstd::arithmetic::power::pow(10, places)
        + crate::text::numeral_value(fraction) * vstd::arithmetic::power::pow(
        10,
        (places - fraction.len()) as nat,
    )
}

/// A number of hundredths is written as a decimal fraction of that worth, with two
/// decimals at most, none of them a needless zero, and no point without decimals.
pub proof fn law_hundredths(n: nat)
    ensures
        n % 100 == 0 ==> hundredths(n) == crate::text::decimal(n / 100),
        n % 100 != 0 ==> exists|whole: Seq<char>, fraction: Seq<char>|
            {
                &&& #[trigger] joined(whole, fraction) == hundredths(n)
                &&& whole == crate::text::decimal(n / 100)
                &&& 1 <= fraction.len() <= 2
                &&& crate::text::all_digits(fraction)
                &&& fraction.last() != '0'
                &&& worth(whole, fraction, 2) == n
            },
{
    vstd::arithmetic::power::lemma_pow0(10);
    vstd::arithmetic::power::lemma_pow1(10);
    assert(vstd::arithmetic::power::pow(10, 2) == 100) by {
        vstd::arithmetic::power::lemma_pow_adds(10, 1, 1);
    }
    reveal_strlit(".");
    reveal_strlit(".0");
    let whole = crate::text::decimal(n / 100);
    let rest = n % 100;
    crate::text::law_numerals(n / 100);
    crate::text::law_numerals(rest);
    crate::text::law_numerals(rest / 10);
    if rest != 0 {
        if rest % 10 == 0 {
            let f = crate::text::decimal(rest / 10);
            assert(rest / 10 < 10);
            assert(hundredths(n) =~= joined(whole, f));
            assert(f.last() as u32 == 48 + rest / 10);
            assert(worth(whole, f, 2) == n);
        } else if rest < 10 {
            let d = crate::text::decimal(rest);
            let f = seq!['0'] + d;
            assert(d.len() == 1);
            assert(d =~= seq![crate::text::digit(rest)]);
            assert(f =~= seq!['0', crate::text::digit(rest)]);
            assert(hundredths(n) =~= joined(whole, f));
            crate::text::law_places_count_tenfold(seq!['0'], rest);
            crate::text::law_places_count_tenfold(Seq::empty(), 0);
            assert(Seq::<char>::empty().push(crate::text::digit(0)) =~= seq!['0']);
            assert(seq!['0'].push(crate::text::digit(rest)) =~= f);
            assert(f.last() as u32 == 48 + rest);
            assert(crate::text::all_digits(f));
            assert(worth(whole, f, 2) == n);
        } else {
            let f = crate::text::decimal(rest);
            assert(rest / 10 < 10);
            assert(f.len() == 2) by {
                assert(f == crate::text::decimal(rest / 10).push(crate::text::digit(rest % 10)));
            }
            assert(hundredths(n) =~= joined(whole, f));
            assert(f.last() as u32 == 48 + rest % 10);
            assert(worth(whole, f, 2) == n);
        }
    }
}

/// A whole part, a point and decimals.
pub open spec fn joined(whole: Seq<char>, fraction: Seq<char>) -> Seq<char> {
    whole.push('.') + fraction
}

/// A number of thousandths is written with exactly three decimals, of that worth.
#[verifier::rlimit(40)]
pub proof fn law_thousandths(n: nat)
    ensures
        exists|fraction: Seq<char>|
            {
                &&& #[trigger] joined(crate::text::decimal(n / 1000), fraction) == thousandths(n)
                &&& fraction.len() == 3
                &&& crate::text::all_digits(fraction)
                &&& worth(crate::text::decimal(n / 1000), fraction, 3) == n
            },
{
    vstd::arithmetic::power::lemma_pow0(10);
    vstd::arithmetic::power::lemma_pow1(10);
    assert(vstd::arithmetic::power::pow(10, 3) == 1000) by {
        vstd::arithmetic::power::lemma_pow_adds(10, 1, 1);
        vstd::arithmetic::power::lemma_pow_adds(10, 2, 1);
    }
    reveal_strlit(".");
    let a = (n / 100) % 10;
    let b = (n / 10) % 10;
    let c = n % 10;
    let whole = crate::text::decimal(n / 1000);
    let x = seq![crate::text::digit(a)];
    let y = x.push(crate::text::digit(b));
    let f = y.push(crate::text::digit(c));
    crate::text::law_numerals(n / 1000);
    crate::text::law_places_count_tenfold(Seq::empty(), a);
    crate::text::law_places_count_tenfold(x, b);
    crate::text::law_places_count_tenfold(y, c);
    assert(Seq::<char>::empty().push(crate::text::digit(a)) =~= x);
    assert(thousandths(n) =~= joined(whole, f));
    lemma_last_digits(n);
    assert(crate::text::numeral_value(f) == a * 100 + b * 10 + c);
    assert(worth(whole, f, 3) == n);
}

proof fn lemma_last_digits(n: nat)
    ensures
        n == (n / 1000) * 1000 + ((n / 100) % 10) * 100 + ((n / 10) % 10) * 10 + n % 10,
{
    let p = n / 10;
    let q = p / 10;
    let r = q / 10;
    assert(n / 100 == q);
    assert(n / 1000 == r);
}

/// A number of tenths is written with exactly one decimal, of that worth.
pub proof fn law_tenths(n: nat)
    ensures
        exists|fraction: Seq<char>|
            {
                &&& #[trigger] joined(crate::text::decimal(n / 10), fraction) == tenths(n)
                &&& fraction.len() == 1
                &&& crate::text::all_digits(fraction)
                &&& worth(crate::text::decimal(n / 10), fraction, 1) == n
            },
{
    vstd::arithmetic::power::lemma_pow0(10);
    vstd::arithmetic::power::lemma_pow1(10);
    reveal_strlit(".");
    let whole = crate::text::decimal(n / 10);
    let f = seq![crate::text::digit(n % 10)];
    crate::text::law_numerals(n / 10);
    crate::text::law_places_count_tenfold(Seq::empty(), n % 10);
    assert(Seq::<char>::empty().push(crate::text::digit(n % 10)) =~= f);
    assert(tenths(n) =~= joined(whole, f));
    assert(worth(whole, f, 1) == n);
}

/// The status line says whether time runs, in which direction and how fast, and
/// whether the view is locked: a thousandth of a day is 1.44 minutes, rounded to the
/// nearest tenth.
pub proof fn law_status(s: State)
    requires
        s.warp < 17,
    ensures
        ({
            let v = speed_of(s.warp);
            let minutes = if v < 0 {
                (-v * 144 + 5) / 10
            } else {
                (v * 144 + 5) / 10
            };
            let base = (if v == 0 {
                "STOPPED"@
            } else {
                "PLAYING"@
            }) + " | "@ + (if v < 0 {
                "-"@
            } else {
                "+"@
            }) + tenths(minutes as nat) + " min/s"@;
            s.status_text() == (if s.view_lock is Some {
                base + " | View locked"@
            } else {
                base
            })
        }),
{
}

/// The toolbar and the title give the speed with its sign, the one in minutes and
/// the other in days per second; backwards and forwards differ in the sign alone.
pub proof fn law_speed_words(s: State)
    requires
        s.warp < 17,
    ensures
        ({
            let v = speed_of(s.warp);
            let back = State { warp: (16 - s.warp) as usize, ..s };
            &&& v == 0 ==> s.speed_words() == "0 min/s"@
            &&& v > 0 ==> s.speed_words() == "+"@ + hundredths((144 * v) as nat) + " min/s"@
            &&& v < 0 ==> s.speed_words() == "-"@ + hundredths((-144 * v) as nat) + " min/s"@
            &&& v >= 0 ==> s.rate_words() == "+"@ + thousandths(v as nat) + " day/s"@
            &&& v < 0 ==> s.rate_words() == "-"@ + thousandths((-v) as nat) + " day/s"@
            &&& v != 0 ==> back.rate_words().skip(1) == s.rate_words().skip(1)
                && back.speed_words().skip(1) == s.speed_words().skip(1)
        }),
{
    let v = speed_of(s.warp);
    let back = State { warp: (16 - s.warp) as usize, ..s };
    reveal_strlit("+");
    reveal_strlit("-");
    law_speeds(s.warp, s.warp);
    if v != 0 {
        assert(pace(back.warp) == pace(s.warp));
        assert(back.rate_words().skip(1) =~= s.rate_words().skip(1));
        assert(back.speed_words().skip(1) =~= s.speed_words().skip(1));
    }
}

/// A press that stays within the tolerance ends as a click, one that has left it does
/// not, wherever it goes afterwards, and without a press there is none.
pub proof fn law_clicks(
    s: State,
    at: Cursor,
    to: Cursor,
    travel: Number,
    tolerance: Number,
    later: Cursor,
    back: Number,
)
    ensures
        ({
            let p = s.pressed(at);
            &&& p.clicks()
            &&& travel@.le(tolerance@) ==> p.dragged(to, travel, tolerance).clicks()
            &&& !travel@.le(tolerance@) ==> !p.dragged(to, travel, tolerance).clicks()
                && !p.dragged(to, travel, tolerance).dragged(later, back, tolerance).clicks()
            &&& !s.lifted().clicks()
        }),
{
}

} // verus!
