//! The program's answer to every input: who a click or a key belongs to, and
//! what has to be done outside in consequence.
use crate::game::{Game, GameView, Pointer};
use crate::input::{Cursor, Key};
use crate::menu::{row_at, File, Menu, MenuView};
use crate::number::{Number, ZERO};
use crate::sim::{Scene, SceneView};
use crate::state::{Pick, State, ViewLock, STOP_WARP};
use crate::text::{path_file_name, same};
use crate::ui::LabelOptions;
use vstd::prelude::*;
use vstd::string::StringExecFns;

verus! {

/// The window, and what lies where on it.
#[derive(Debug)]
pub struct Screen {
    pub width: u32,
    pub height: u32,
    pub menu: crate::menu::Layout,
    pub hud: crate::ui::Layout,
    pub notebook: crate::game::Layout,
}

impl Screen {
    pub open spec fn visible(self) -> bool {
        self.width > 0 && self.height > 0
    }

    fn is_visible(&self) -> (r: bool)
        ensures
            r == self.visible(),
    {
        self.width > 0 && self.height > 0
    }
}

/// Whether there is a window with an area.
pub open spec fn shown(screen: Option<Screen>) -> bool {
    screen matches Some(s) && s.visible()
}

/// The window, if it has an area.
fn visible_screen(screen: &Option<Screen>) -> (r: Option<&Screen>)
    ensures
        match r {
            Some(s) => s.visible() && *screen == Some(*s),
            None => !shown(*screen),
        },
{
    match screen {
        Some(s) => if s.is_visible() {
            Some(s)
        } else {
            None
        },
        None => None,
    }
}

/// What has to be done outside.
#[derive(Clone, Copy, Debug, PartialEq, Eq, Structural)]
pub enum Effect {
    Nothing,
    /// Time that passed meanwhile does not count.
    RestartClock,
    /// List the maps, and hand them to `maps_listed`.
    ListMaps,
    /// Load the menu's entry, and hand the result to `map_loaded` or
    /// `map_failed`.
    LoadMap(usize),
    /// Turn to the locked body.
    Track,
    /// Remember the direction under the pointer, and turn to it.
    TrackBackground,
    /// Capture the camera's roll, or let it go.
    Orient,
    SyncExposure,
    /// Set the exposure from the pointer's place on the slider.
    SlideExposure,
    /// One notch up, or down.
    ExposureStep(bool),
    /// Turn the view by the way from there to the pointer.
    Pan(Cursor),
    /// Look for a good moment to see a body, and frame it.
    Aim(usize),
    /// Point at the default target with the scene's field of view.
    PointDefault,
    /// Look for an event, and hand whether there is one to `event_found`.
    FindEclipse,
    FindTransit,
    ZoomIn,
    ZoomOut,
    /// Zoom by the wheel's travel.
    ZoomBy,
    /// Leave the program.
    Quit,
}

pub struct App {
    pub state: State,
    pub scene: Scene,
    pub menu: Menu,
    pub game: Option<Game>,
    pub show_labels: bool,
    pub show_hud: bool,
    pub auto_exposure: bool,
    pub exposure_dragging: bool,
}

#[verifier::ext_equal]
pub struct AppView {
    pub state: State,
    pub scene: SceneView,
    pub menu: MenuView,
    pub game: Option<GameView>,
    pub show_labels: bool,
    pub show_hud: bool,
    pub auto_exposure: bool,
    pub exposure_dragging: bool,
}

pub open spec fn game_view(game: Option<Game>) -> Option<GameView> {
    match game {
        Some(g) => Some(g@),
        None => None,
    }
}

impl View for App {
    type V = AppView;

    open spec fn view(&self) -> AppView {
        AppView {
            state: self.state,
            scene: self.scene@,
            menu: self.menu@,
            game: game_view(self.game),
            show_labels: self.show_labels,
            show_hud: self.show_hud,
            auto_exposure: self.auto_exposure,
            exposure_dragging: self.exposure_dragging,
        }
    }
}

impl AppView {
    pub open spec fn well_formed(self) -> bool {
        &&& self.scene.well_formed()
        &&& self.state.well_formed(self.scene)
        &&& (self.game matches Some(g) ==> g.well_formed())
    }

    /// The pointer speaks of every object of the notebook.
    pub open spec fn covered(self, p: Pointer) -> bool {
        self.game matches Some(g) ==> p.covers(g.nodes.len())
    }

    pub open spec fn notebook_open(self) -> bool {
        self.game matches Some(g) && g.open
    }

    pub open spec fn confirming(self) -> bool {
        self.game matches Some(g) && g.confirm_clear
    }

    pub open spec fn with_game(self, g: GameView) -> AppView {
        AppView { game: Some(g), ..self }
    }

    /// Whatever was being dragged is let go.
    pub open spec fn let_go(self) -> AppView {
        AppView {
            state: self.state.lifted(),
            game: match self.game {
                Some(g) => Some(g.released()),
                None => None,
            },
            exposure_dragging: false,
            ..self
        }
    }

    pub open spec fn notebook_toggled(self) -> (AppView, Effect) {
        (
            AppView {
                state: self.state.lifted(),
                game: match self.game {
                    Some(g) => Some(g.toggled()),
                    None => None,
                },
                exposure_dragging: false,
                ..self
            },
            Effect::RestartClock,
        )
    }

    pub open spec fn menu_toggled(self) -> (AppView, Effect) {
        let a = self.let_go();
        if self.menu.open {
            (AppView { menu: MenuView { open: false, ..self.menu }, ..a }, Effect::RestartClock)
        } else {
            (a, Effect::ListMaps)
        }
    }

    /// The listing is in; a puzzle has its own map first.
    pub open spec fn listed(self, found: Result<Vec<File>, String>) -> AppView {
        let menu = self.menu.refreshed(found);
        AppView {
            menu: if self.game is Some {
                MenuView { entries: crate::menu::puzzle_first(menu.entries), ..menu }
            } else {
                menu
            },
            ..self
        }
    }

    /// A new map replaces everything that belonged to the old one.
    pub open spec fn loaded(self, scene: SceneView) -> AppView {
        AppView {
            state: State::fresh(),
            scene,
            game: match self.game {
                Some(_) => Some(GameView::initial()),
                None => None,
            },
            menu: MenuView { open: false, error: None, ..self.menu },
            exposure_dragging: false,
            ..self
        }
    }

    /// A map that cannot be loaded changes nothing but the menu's message. A
    /// puzzle does not say why.
    pub open spec fn failed(self, path: Seq<char>, error: Seq<char>) -> AppView {
        let name = match crate::text::file_name(path) {
            Some(name) => name,
            None => Seq::empty(),
        };
        let message = if self.game is Some {
            "Could not load this map. Your current puzzle is unchanged."@
        } else {
            "Could not load "@ + name + ": "@ + error
        };
        AppView { menu: MenuView { error: Some(message), ..self.menu }, ..self }
    }

    /// A search that found something releases the lock; one that did not changes
    /// nothing.
    pub open spec fn sought(self, found: bool) -> AppView {
        if found {
            AppView { state: self.state.unlocked(), ..self }
        } else {
            self
        }
    }

    /// Whether a right click on the sky is meant for a control.
    pub open spec fn on_control(self, s: Screen, at: Cursor) -> bool {
        ||| s.hud.lock.holds(at)
        ||| self.show_hud && s.hud.bar.holds(at)
        ||| self.game is None && s.hud.home.holds(at)
    }

    pub open spec fn right_clicked(self, screen: Option<Screen>, p: Pointer, pick: Pick) -> (
        AppView,
        Effect,
    ) {
        if self.menu.open || !shown(screen) {
            (self, Effect::Nothing)
        } else if self.notebook_open() {
            (
                self.with_game(self.game->0.right_clicked(screen->0.notebook, p)),
                Effect::Nothing,
            )
        } else if self.on_control(screen->0, p.at) {
            (self, Effect::Nothing)
        } else {
            (
                AppView {
                    state: self.state.lifted().locked_at(pick, self.scene.host),
                    exposure_dragging: false,
                    ..self
                },
                match pick {
                    Pick::Outside => Effect::Nothing,
                    Pick::Sky => Effect::TrackBackground,
                    Pick::Body(i) => if i == self.scene.host {
                        Effect::Nothing
                    } else {
                        Effect::Track
                    },
                },
            )
        }
    }

    /// Whether a left click belongs to the menu.
    pub open spec fn menu_takes(self, screen: Option<Screen>, at: Cursor) -> bool {
        if !shown(screen) {
            self.menu.open
        } else if self.confirming() {
            false
        } else if self.notebook_open() && !self.menu.open {
            screen->0.notebook.maps.holds(at)
        } else {
            self.menu.open || screen->0.menu.home.holds(at)
        }
    }

    /// What a left click that belongs to the menu does.
    pub open spec fn menu_clicked(self, screen: Option<Screen>, at: Cursor) -> (AppView, Effect) {
        if !shown(screen) {
            (self, Effect::Nothing)
        } else {
            let l = screen->0.menu;
            let page = l.rows@.len();
            if !self.menu.open || l.resume.holds(at) {
                self.menu_toggled()
            } else if l.previous.holds(at) {
                (AppView { menu: self.menu.paged_back(page), ..self }, Effect::Nothing)
            } else if l.next.holds(at) && self.menu.has_next(page) {
                (AppView { menu: self.menu.paged_forward(page), ..self }, Effect::Nothing)
            } else {
                match crate::input::first_at(l.rows@, at, 0) {
                    Some(row) => match self.menu.at_row(row as nat) {
                        Some(i) => (self, Effect::LoadMap(i)),
                        None => (self, Effect::Nothing),
                    },
                    None => (self, Effect::Nothing),
                }
            }
        }
    }

    /// Whether a left click belongs to the heads-up display.
    pub open spec fn hud_takes(self, l: crate::ui::Layout, at: Cursor) -> bool {
        l.lock.holds(at) || (self.show_hud && l.bar.holds(at))
    }

    /// UI clicks preserve tracking, except the explicit lock/unlock button.
    pub open spec fn hud_clicked(self, l: crate::ui::Layout, at: Cursor) -> (AppView, Effect) {
        let with = |s: State| AppView { state: s, ..self };
        if l.lock.holds(at) {
            (with(self.state.unlocked()), Effect::Nothing)
        } else if l.orientation.holds(at) {
            self.orientation_toggled()
        } else if l.slower.holds(at) {
            (with(self.state.with_speed(false)), Effect::Nothing)
        } else if l.faster.holds(at) {
            (with(self.state.with_speed(true)), Effect::Nothing)
        } else if l.stop.holds(at) {
            (with(self.state.stopped()), Effect::Nothing)
        } else if self.game is Some && l.draw.holds(at) {
            self.notebook_toggled()
        } else if self.game is None && l.toggle.holds(at) {
            (AppView { show_labels: !self.show_labels, ..self }, Effect::Nothing)
        } else if l.exposure.holds(at) {
            (AppView { exposure_dragging: true, ..self }, Effect::SlideExposure)
        } else if l.auto.holds(at) {
            (AppView { auto_exposure: !self.auto_exposure, ..self }, Effect::SyncExposure)
        } else {
            (self, Effect::Nothing)
        }
    }

    pub open spec fn orientation_toggled(self) -> (AppView, Effect) {
        (
            AppView {
                state: State { steady_stars: !self.state.steady_stars, ..self.state },
                ..self
            },
            Effect::Orient,
        )
    }

    /// A left press goes to the menu, the open notebook, the heads-up display or
    /// the sky, whichever takes it first.
    pub open spec fn left_pressed(self, screen: Option<Screen>, p: Pointer) -> (AppView, Effect) {
        if self.menu_takes(screen, p.at) {
            let (a, effect) = self.menu_clicked(screen, p.at);
            (AppView { state: a.state.lifted(), ..a }, effect)
        } else if self.notebook_open() && screen is Some {
            (
                AppView {
                    state: self.state.lifted(),
                    game: Some(self.game->0.clicked(screen->0.notebook, p, self.scene)),
                    exposure_dragging: false,
                    ..self
                },
                Effect::RestartClock,
            )
        } else if shown(screen) && self.hud_takes(screen->0.hud, p.at) {
            let (a, effect) = self.hud_clicked(screen->0.hud, p.at);
            (AppView { state: a.state.lifted(), ..a }, effect)
        } else {
            (AppView { state: self.state.pressed(p.at), ..self }, Effect::Nothing)
        }
    }

    pub open spec fn moved(
        self,
        screen: Option<Screen>,
        p: Pointer,
        travel: Number,
        tolerance: Number,
    ) -> (AppView, Effect) {
        if self.menu.open {
            (self, Effect::Nothing)
        } else if self.notebook_open() && screen is Some {
            (self.with_game(self.game->0.moved(p)), Effect::Nothing)
        } else if self.exposure_dragging {
            (
                self,
                if shown(screen) {
                    Effect::SlideExposure
                } else {
                    Effect::Nothing
                },
            )
        } else {
            (
                AppView { state: self.state.dragged(p.at, travel, tolerance), ..self },
                if self.state.pans(travel, tolerance) {
                    Effect::Pan(self.state.pan_origin())
                } else {
                    Effect::Nothing
                },
            )
        }
    }

    pub open spec fn wheeled(self, screen: Option<Screen>, y: Number) -> (AppView, Effect) {
        let zero = (Number { bits: ZERO })@;
        if self.menu.open {
            (
                if !shown(screen) {
                    self
                } else if zero.lt(y@) {
                    AppView {
                        menu: self.menu.paged_back(screen->0.menu.rows@.len()),
                        ..self
                    }
                } else if y@.lt(zero) {
                    AppView {
                        menu: self.menu.paged_forward(screen->0.menu.rows@.len()),
                        ..self
                    }
                } else {
                    self
                },
                Effect::Nothing,
            )
        } else if self.notebook_open() {
            (self, Effect::Nothing)
        } else {
            (self, Effect::ZoomBy)
        }
    }

    /// A key while the menu is open.
    pub open spec fn menu_keyed(self, key: Key, repeat: bool, screen: Option<Screen>) -> (
        AppView,
        Effect,
    ) {
        if !shown(screen) {
            (self, Effect::Nothing)
        } else {
            let page = screen->0.menu.rows@.len();
            match key {
                Key::PageUp => (
                    AppView { menu: self.menu.paged_back(page), ..self },
                    Effect::Nothing,
                ),
                Key::PageDown => (
                    AppView { menu: self.menu.paged_forward(page), ..self },
                    Effect::Nothing,
                ),
                Key::Digit(d) => if 1 <= d <= 9 && d <= page && !repeat && self.menu.at_row(
                    (d - 1) as nat,
                ) is Some {
                    (self, Effect::LoadMap(self.menu.at_row((d - 1) as nat)->0))
                } else {
                    (self, Effect::Nothing)
                },
                _ => (self, Effect::Nothing),
            }
        }
    }

    /// Named target and event shortcuts bypass the observation puzzle.
    pub open spec fn spoils_puzzle(key: Key) -> bool {
        match key {
            Key::L | Key::E | Key::T => true,
            Key::Function(n) => 1 <= n <= 9,
            Key::Digit(n) => 1 <= n <= 9,
            _ => false,
        }
    }

    /// Aim at an entry of the scene's target list, counted from one.
    pub open spec fn aimed(self, n: u8) -> (AppView, Effect) {
        if 1 <= n <= 9 && n <= self.scene.targets.len() {
            (
                AppView { state: self.state.unlocked(), ..self },
                Effect::Aim(self.scene.targets[n - 1]),
            )
        } else {
            (self, Effect::Nothing)
        }
    }

    /// A key that goes to the telescope.
    pub open spec fn sky_keyed(self, key: Key, repeat: bool) -> (AppView, Effect) {
        if let Some(state) = self.state.timed(key) {
            (AppView { state, ..self }, Effect::Nothing)
        } else {
            match key {
                Key::S | Key::O => if repeat {
                    (self, Effect::Nothing)
                } else {
                    self.orientation_toggled()
                },
                Key::U => (
                    AppView { state: self.state.unlocked(), ..self },
                    Effect::Nothing,
                ),
                Key::R => (
                    AppView { state: self.state.unlocked(), ..self },
                    Effect::Aim(self.scene.default_target),
                ),
                Key::E => (self, Effect::FindEclipse),
                Key::T => (self, Effect::FindTransit),
                Key::H => (
                    AppView { show_hud: !self.show_hud, exposure_dragging: false, ..self },
                    Effect::Nothing,
                ),
                Key::L => (AppView { show_labels: !self.show_labels, ..self }, Effect::Nothing),
                Key::A => (
                    AppView { auto_exposure: !self.auto_exposure, ..self },
                    Effect::SyncExposure,
                ),
                Key::Comma => (self, Effect::ExposureStep(false)),
                Key::Period => (self, Effect::ExposureStep(true)),
                Key::Function(n) => self.aimed(n),
                Key::Digit(n) => self.aimed(n),
                Key::Equal | Key::NumpadAdd => (self, Effect::ZoomIn),
                Key::Minus | Key::NumpadSubtract => (self, Effect::ZoomOut),
                _ => (self, Effect::Nothing),
            }
        }
    }

    /// The notebook's answer to a key; held keys do not repeat there.
    pub open spec fn notebook_keyed(
        self,
        key: Key,
        repeat: bool,
        screen: Option<Screen>,
        p: Pointer,
    ) -> AppView {
        if !repeat && screen is Some {
            self.with_game(self.game->0.keyed(key, screen->0.notebook, p, self.scene))
        } else {
            self
        }
    }

    /// Escape answers a question, closes the menu or quits, in that order.
    pub open spec fn keyed(
        self,
        key: Key,
        repeat: bool,
        screen: Option<Screen>,
        p: Pointer,
    ) -> (AppView, Effect) {
        if self.confirming() {
            (self.notebook_keyed(key, repeat, screen, p), Effect::Nothing)
        } else if key == Key::Escape || key == Key::M {
            if repeat {
                (self, Effect::Nothing)
            } else if key == Key::Escape && !self.menu.open {
                (self, Effect::Quit)
            } else {
                self.menu_toggled()
            }
        } else if self.menu.open {
            self.menu_keyed(key, repeat, screen)
        } else if self.game is Some && key == Key::Tab {
            if repeat {
                (self, Effect::Nothing)
            } else {
                self.notebook_toggled()
            }
        } else if self.notebook_open() {
            (self.notebook_keyed(key, repeat, screen, p), Effect::Nothing)
        } else if self.game is Some && AppView::spoils_puzzle(key) {
            (self, Effect::Nothing)
        } else if self.game is Some && key == Key::R {
            (AppView { state: self.state.unlocked(), ..self }, Effect::PointDefault)
        } else {
            self.sky_keyed(key, repeat)
        }
    }
}

impl App {
    pub fn new(scene: Scene, puzzle: bool) -> (r: App)
        requires
            scene@.well_formed(),
        ensures
            r@.well_formed(),
            r@ == AppView::opened(scene@, puzzle),
    {
        App {
            state: State::new(),
            scene,
            menu: Menu::default(),
            game: if puzzle {
                Some(Game::default())
            } else {
                None
            },
            show_labels: true,
            show_hud: true,
            auto_exposure: true,
            exposure_dragging: false,
        }
    }

    fn notebook_is_open(&self) -> (r: bool)
        ensures
            r == self@.notebook_open(),
    {
        match &self.game {
            Some(g) => g.open,
            None => false,
        }
    }

    fn is_confirming(&self) -> (r: bool)
        ensures
            r == self@.confirming(),
    {
        match &self.game {
            Some(g) => g.confirm_clear,
            None => false,
        }
    }

    /// The button is released, or the pointer or the focus is lost: a release
    /// outside the window may never reach us.
    pub fn let_go(&mut self)
        requires
            old(self)@.well_formed(),
        ensures
            final(self)@ == old(self)@.let_go(),
            final(self)@.well_formed(),
    {
        match &mut self.game {
            Some(g) => g.release(),
            None => {},
        }
        self.exposure_dragging = false;
        self.state.end_sky_press();
    }

    pub fn toggle_notebook(&mut self) -> (r: Effect)
        requires
            old(self)@.well_formed(),
        ensures
            (final(self)@, r) == old(self)@.notebook_toggled(),
            final(self)@.well_formed(),
    {
        match &mut self.game {
            Some(g) => g.toggle(),
            None => {},
        }
        self.state.end_sky_press();
        self.exposure_dragging = false;
        Effect::RestartClock
    }

    pub fn toggle_menu(&mut self) -> (r: Effect)
        requires
            old(self)@.well_formed(),
        ensures
            (final(self)@, r) == old(self)@.menu_toggled(),
            final(self)@.well_formed(),
    {
        self.let_go();
        if self.menu.open {
            self.menu.open = false;
            Effect::RestartClock
        } else {
            Effect::ListMaps
        }
    }

    /// Opens the menu on a listing of the maps.
    pub fn maps_listed(&mut self, found: Result<Vec<File>, String>)
        requires
            old(self)@.well_formed(),
        ensures
            final(self)@ == old(self)@.listed(found),
            final(self)@.well_formed(),
    {
        self.menu.refresh(found);
        if self.game.is_some() {
            self.menu.puzzle_order();
        }
    }

    /// Replaces the player's current state by a map that loaded.
    pub fn map_loaded(&mut self, scene: Scene)
        requires
            old(self)@.well_formed(),
            scene@.well_formed(),
        ensures
            final(self)@ == old(self)@.loaded(scene@),
            final(self)@.well_formed(),
    {
        self.state = State::new();
        self.scene = scene;
        if self.game.is_some() {
            self.game = Some(Game::default());
        }
        self.menu.open = false;
        self.menu.error = None;
        self.exposure_dragging = false;
    }

    /// Says that a map did not load.
    pub fn map_failed(&mut self, path: &str, error: &str)
        requires
            old(self)@.well_formed(),
        ensures
            final(self)@ == old(self)@.failed(path@, error@),
            final(self)@.well_formed(),
    {
        let message = if self.game.is_some() {
            String::from_str("Could not load this map. Your current puzzle is unchanged.")
        } else {
            let mut m = String::from_str("Could not load ");
            match path_file_name(path) {
                Some(name) => m.append(name.as_str()),
                None => {},
            }
            assert(m@ =~= "Could not load "@ + (match crate::text::file_name(path@) {
                Some(name) => name,
                None => Seq::empty(),
            }));
            m.append(": ");
            m.append(error);
            m
        };
        self.menu.error = Some(message);
        assert(self@ =~= old(self)@.failed(path@, error@));
    }

    /// A search for an eclipse or a transit ended. What was found is framed, so a
    /// lock is released; else the view stays as it is.
    pub fn event_found(&mut self, found: bool)
        requires
            old(self)@.well_formed(),
        ensures
            final(self)@ == old(self)@.sought(found),
            final(self)@.well_formed(),
    {
        if found {
            self.state.unlock();
        }
    }

    /// The right button is pressed over what was picked.
    pub fn right_click(&mut self, screen: &Option<Screen>, p: &Pointer, pick: Pick) -> (r: Effect)
        requires
            old(self)@.well_formed(),
            old(self)@.covered(*p),
            pick matches Pick::Body(i) ==> i < old(self)@.scene.bodies.len(),
        ensures
            (final(self)@, r) == old(self)@.right_clicked(*screen, *p, pick),
            final(self)@.well_formed(),
    {
        if self.menu.open {
            return Effect::Nothing;
        }
        let s = match visible_screen(screen) {
            Some(s) => s,
            None => {
                return Effect::Nothing;
            },
        };
        if self.notebook_is_open() {
            match &mut self.game {
                Some(g) => g.right_click(&s.notebook, p),
                None => {},
            }
            return Effect::Nothing;
        }
        if s.hud.lock.contains(p.at) || (self.show_hud && s.hud.bar.contains(p.at)) || (
        self.game.is_none() && s.hud.home.contains(p.at)) {
            return Effect::Nothing;
        }
        self.state.end_sky_press();
        self.exposure_dragging = false;
        self.state.lock_at(pick, self.scene.host);
        match pick {
            Pick::Outside => Effect::Nothing,
            Pick::Sky => Effect::TrackBackground,
            Pick::Body(i) => if i == self.scene.host {
                Effect::Nothing
            } else {
                Effect::Track
            },
        }
    }

    /// Offers a left click to the menu.
    fn menu_click(&mut self, screen: &Option<Screen>, at: Cursor) -> (r: Option<Effect>)
        requires
            old(self)@.well_formed(),
        ensures
            match r {
                Some(effect) => old(self)@.menu_takes(*screen, at) && (final(self)@, effect) == old(
                    self,
                )@.menu_clicked(*screen, at),
                None => !old(self)@.menu_takes(*screen, at) && final(self)@ == old(self)@,
            },
            final(self)@.well_formed(),
    {
        let open = self.menu.open;
        let s = match visible_screen(screen) {
            Some(s) => s,
            None => {
                return if open {
                    Some(Effect::Nothing)
                } else {
                    None
                };
            },
        };
        if self.is_confirming() {
            return None;
        }
        if self.notebook_is_open() && !open {
            if s.notebook.maps.contains(at) {
                return Some(self.toggle_menu());
            }
            return None;
        }
        if (!open && s.menu.home.contains(at)) || (open && s.menu.resume.contains(at)) {
            return Some(self.toggle_menu());
        }
        if !open {
            return None;
        }
        let page: usize = s.menu.rows.len();
        if s.menu.previous.contains(at) {
            self.menu.page_back(page);
        } else if s.menu.next.contains(at) && self.menu.has_more(page) {
            self.menu.page_forward(page);
        } else if let Some(row) = row_at(&s.menu.rows, at) {
            if let Some(i) = self.menu.entry_at(row) {
                return Some(Effect::LoadMap(i));
            }
        }
        Some(Effect::Nothing)
    }

    fn toggle_star_orientation(&mut self) -> (r: Effect)
        requires
            old(self)@.well_formed(),
        ensures
            (final(self)@, r) == old(self)@.orientation_toggled(),
            final(self)@.well_formed(),
    {
        self.state.steady_stars = !self.state.steady_stars;
        Effect::Orient
    }

    /// Offers a left click to the heads-up display.
    pub fn hud_click(&mut self, l: &crate::ui::Layout, at: Cursor) -> (r: Option<Effect>)
        requires
            old(self)@.well_formed(),
        ensures
            match r {
                Some(effect) => old(self)@.hud_takes(*l, at) && (final(self)@, effect) == old(
                    self,
                )@.hud_clicked(*l, at),
                None => !old(self)@.hud_takes(*l, at) && final(self)@ == old(self)@,
            },
            final(self)@.well_formed(),
    {
        if l.lock.contains(at) {
            self.state.unlock();
            return Some(Effect::Nothing);
        }
        if !self.show_hud || !l.bar.contains(at) {
            return None;
        }
        if l.orientation.contains(at) {
            return Some(self.toggle_star_orientation());
        }
        if l.slower.contains(at) {
            self.state.change_speed(false);
        } else if l.faster.contains(at) {
            self.state.change_speed(true);
        } else if l.stop.contains(at) {
            self.state.warp = STOP_WARP;
        } else if self.game.is_some() && l.draw.contains(at) {
            return Some(self.toggle_notebook());
        } else if self.game.is_none() && l.toggle.contains(at) {
            self.show_labels = !self.show_labels;
        } else if l.exposure.contains(at) {
            self.exposure_dragging = true;
            return Some(Effect::SlideExposure);
        } else if l.auto.contains(at) {
            self.auto_exposure = !self.auto_exposure;
            return Some(Effect::SyncExposure);
        }
        Some(Effect::Nothing)
    }

    /// The left button is pressed.
    pub fn left_press(&mut self, screen: &Option<Screen>, p: &Pointer) -> (r: Effect)
        requires
            old(self)@.well_formed(),
            old(self)@.covered(*p),
        ensures
            (final(self)@, r) == old(self)@.left_pressed(*screen, *p),
            final(self)@.well_formed(),
    {
        if let Some(effect) = self.menu_click(screen, p.at) {
            self.state.end_sky_press();
            return effect;
        }
        if let Some(s) = screen {
            if self.notebook_is_open() {
                proof {
                    crate::sim::lemma_well_formed_parents(self.scene@);
                }
                match &mut self.game {
                    Some(g) => {
                        g.click(&s.notebook, p, &self.scene);
                    },
                    None => {},
                }
                self.state.end_sky_press();
                self.exposure_dragging = false;
                return Effect::RestartClock;
            }
            if s.is_visible() {
                if let Some(effect) = self.hud_click(&s.hud, p.at) {
                    self.state.end_sky_press();
                    return effect;
                }
            }
        }
        self.state.begin_sky_press(p.at);
        Effect::Nothing
    }

    /// The pointer moves. `travel` is its way from where a press on the sky
    /// began.
    pub fn cursor_moved(
        &mut self,
        screen: &Option<Screen>,
        p: &Pointer,
        travel: Number,
        tolerance: Number,
    ) -> (r: Effect)
        requires
            old(self)@.well_formed(),
            old(self)@.covered(*p),
        ensures
            (final(self)@, r) == old(self)@.moved(*screen, *p, travel, tolerance),
            final(self)@.well_formed(),
    {
        if self.menu.open {
            return Effect::Nothing;
        }
        if self.notebook_is_open() && screen.is_some() {
            match &mut self.game {
                Some(g) => g.motion(p),
                None => {},
            }
            return Effect::Nothing;
        }
        if self.exposure_dragging {
            return if visible_screen(screen).is_some() {
                Effect::SlideExposure
            } else {
                Effect::Nothing
            };
        }
        match self.state.drag_sky(p.at, travel, tolerance) {
            Some(from) => Effect::Pan(from),
            None => Effect::Nothing,
        }
    }

    /// The wheel turns by `y`.
    pub fn wheel(&mut self, screen: &Option<Screen>, y: Number) -> (r: Effect)
        requires
            old(self)@.well_formed(),
        ensures
            (final(self)@, r) == old(self)@.wheeled(*screen, y),
            final(self)@.well_formed(),
    {
        if self.menu.open {
            if let Some(s) = visible_screen(screen) {
                let page: usize = s.menu.rows.len();
                if (Number { bits: ZERO }).less(y) {
                    self.menu.page_back(page);
                } else if y.less(Number { bits: ZERO }) {
                    self.menu.page_forward(page);
                }
            }
            return Effect::Nothing;
        }
        if self.notebook_is_open() {
            return Effect::Nothing;
        }
        Effect::ZoomBy
    }

    fn menu_key(&mut self, key: Key, repeat: bool, screen: &Option<Screen>) -> (r: Effect)
        requires
            old(self)@.well_formed(),
        ensures
            (final(self)@, r) == old(self)@.menu_keyed(key, repeat, *screen),
            final(self)@.well_formed(),
    {
        let s = match visible_screen(screen) {
            Some(s) => s,
            None => {
                return Effect::Nothing;
            },
        };
        let page: usize = s.menu.rows.len();
        match key {
            Key::PageUp => {
                self.menu.page_back(page);
            },
            Key::PageDown => {
                self.menu.page_forward(page);
            },
            Key::Digit(d) => {
                if 1 <= d && d <= 9 && d as usize <= page && !repeat {
                    if let Some(i) = self.menu.entry_at((d - 1) as usize) {
                        return Effect::LoadMap(i);
                    }
                }
            },
            _ => {},
        }
        Effect::Nothing
    }

    fn notebook_key(&mut self, key: Key, repeat: bool, screen: &Option<Screen>, p: &Pointer)
        requires
            old(self)@.well_formed(),
            old(self)@.covered(*p),
            old(self)@.game is Some,
        ensures
            final(self)@ == old(self)@.notebook_keyed(key, repeat, *screen, *p),
            final(self)@.well_formed(),
    {
        if repeat {
            return;
        }
        if let Some(s) = screen {
            proof {
                crate::sim::lemma_well_formed_parents(self.scene@);
            }
            match &mut self.game {
                Some(g) => g.key(key, &s.notebook, p, &self.scene),
                None => {},
            }
        }
    }

    /// Aim at an entry of the scene's target list, counted from one.
    fn aim_target(&mut self, n: u8) -> (r: Effect)
        requires
            old(self)@.well_formed(),
        ensures
            (final(self)@, r) == old(self)@.aimed(n),
            final(self)@.well_formed(),
    {
        if 1 <= n && n <= 9 && n as usize <= self.scene.targets.len() {
            self.state.unlock();
            Effect::Aim(self.scene.targets[(n - 1) as usize])
        } else {
            Effect::Nothing
        }
    }

    fn sky_key(&mut self, key: Key, repeat: bool) -> (r: Effect)
        requires
            old(self)@.well_formed(),
        ensures
            (final(self)@, r) == old(self)@.sky_keyed(key, repeat),
            final(self)@.well_formed(),
    {
        if self.state.time_key(key) {
            return Effect::Nothing;
        }
        match key {
            Key::S | Key::O => if repeat {
                Effect::Nothing
            } else {
                self.toggle_star_orientation()
            },
            Key::U => {
                self.state.unlock();
                Effect::Nothing
            },
            Key::R => {
                self.state.unlock();
                Effect::Aim(self.scene.default_target)
            },
            Key::E => Effect::FindEclipse,
            Key::T => Effect::FindTransit,
            Key::H => {
                self.show_hud = !self.show_hud;
                self.exposure_dragging = false;
                Effect::Nothing
            },
            Key::L => {
                self.show_labels = !self.show_labels;
                Effect::Nothing
            },
            Key::A => {
                self.auto_exposure = !self.auto_exposure;
                Effect::SyncExposure
            },
            Key::Comma => Effect::ExposureStep(false),
            Key::Period => Effect::ExposureStep(true),
            Key::Function(n) => self.aim_target(n),
            Key::Digit(n) => self.aim_target(n),
            Key::Equal | Key::NumpadAdd => Effect::ZoomIn,
            Key::Minus | Key::NumpadSubtract => Effect::ZoomOut,
            _ => Effect::Nothing,
        }
    }

    /// A key is pressed, or repeats because it is held.
    pub fn key(&mut self, key: Key, repeat: bool, screen: &Option<Screen>, p: &Pointer) -> (r:
        Effect)
        requires
            old(self)@.well_formed(),
            old(self)@.covered(*p),
        ensures
            (final(self)@, r) == old(self)@.keyed(key, repeat, *screen, *p),
            final(self)@.well_formed(),
    {
        if self.is_confirming() {
            self.notebook_key(key, repeat, screen, p);
            return Effect::Nothing;
        }
        if key == Key::Escape || key == Key::M {
            return if repeat {
                Effect::Nothing
            } else if key == Key::Escape && !self.menu.open {
                Effect::Quit
            } else {
                self.toggle_menu()
            };
        }
        if self.menu.open {
            return self.menu_key(key, repeat, screen);
        }
        if self.game.is_some() {
            if key == Key::Tab {
                return if repeat {
                    Effect::Nothing
                } else {
                    self.toggle_notebook()
                };
            }
            if self.notebook_is_open() {
                self.notebook_key(key, repeat, screen, p);
                return Effect::Nothing;
            }
            let spoils = match key {
                Key::L | Key::E | Key::T => true,
                Key::Function(n) => 1 <= n && n <= 9,
                Key::Digit(n) => 1 <= n && n <= 9,
                _ => false,
            };
            if spoils {
                return Effect::Nothing;
            }
            if key == Key::R {
                self.state.unlock();
                return Effect::PointDefault;
            }
        }
        self.sky_key(key, repeat)
    }
}

/// What the window's title tells.
#[derive(Clone, Copy, Debug, PartialEq, Eq, Structural)]
pub enum Title {
    Puzzle,
    Menu,
    Observing,
}

/// What a frame shows.
#[derive(Debug)]
pub struct Plan {
    /// Whether time passes and the view follows its lock.
    pub advance: bool,
    pub hud: bool,
    /// With the rest of the HUD hidden, a lock can still be released.
    pub lock_alone: bool,
    pub labels: LabelOptions,
    pub lock_label: Option<String>,
    pub title: Title,
}

impl AppView {
    pub open spec fn opened(scene: SceneView, puzzle: bool) -> AppView {
        AppView {
            state: State::fresh(),
            scene,
            menu: MenuView::initial(),
            game: if puzzle {
                Some(GameView::initial())
            } else {
                None
            },
            show_labels: true,
            show_hud: true,
            auto_exposure: true,
            exposure_dragging: false,
        }
    }

    /// Whether `plan` is what a frame shows.
    pub open spec fn planned(self, plan: Plan) -> bool {
        &&& plan.advance == !(self.menu.open || self.notebook_open())
        &&& plan.hud == (self.show_hud && !self.menu.open)
        &&& plan.lock_alone == (!self.show_hud && !self.menu.open && !self.notebook_open())
        &&& plan.labels.show == (self.show_labels && self.game is None)
        &&& plan.labels.locked == (match self.state.view_lock {
            Some(ViewLock::Body(i)) => Some(i),
            _ => None,
        })
        &&& crate::menu::text_view(plan.lock_label) == self.state.lock_text(
            self.scene,
            self.show_labels && self.show_hud && self.game is None,
        )
        &&& plan.title == (if self.game is Some {
            Title::Puzzle
        } else if self.menu.open {
            Title::Menu
        } else {
            Title::Observing
        })
    }
}

impl App {
    /// What the next frame shows.
    pub fn redraw(&self) -> (r: Plan)
        requires
            self@.well_formed(),
        ensures
            self@.planned(r),
    {
        let puzzle = self.game.is_some();
        let notebook = self.notebook_is_open();
        let menu = self.menu.open;
        Plan {
            advance: !(menu || notebook),
            hud: self.show_hud && !menu,
            lock_alone: !self.show_hud && !menu && !notebook,
            labels: LabelOptions {
                show: self.show_labels && !puzzle,
                locked: self.state.locked_body(),
            },
            lock_label: self.state.lock_label(
                &self.scene,
                self.show_labels && self.show_hud && !puzzle,
            ),
            title: if puzzle {
                Title::Puzzle
            } else if menu {
                Title::Menu
            } else {
                Title::Observing
            },
        }
    }
}

/// How long a window title stays before another replaces it, in milliseconds.
pub const TITLE_INTERVAL: u64 = 250;

/// Window title updates are limited to changes that a human can perceive.
#[derive(Debug)]
pub struct TitleGate {
    pub shown: String,
    /// When it was set, in milliseconds.
    pub since: Option<u64>,
}

impl TitleGate {
    /// Whether a title differs from the one shown, and that one has stood long
    /// enough.
    pub open spec fn admits(self, title: Seq<char>, now: u64) -> bool {
        title != self.shown@ && (self.since matches Some(t) ==> now >= t + TITLE_INTERVAL)
    }

    pub fn new() -> (r: TitleGate)
        ensures
            r.shown@.len() == 0,
            r.since is None,
    {
        TitleGate { shown: String::new(), since: None }
    }

    /// Takes a title at a time; says whether it has to be set.
    pub fn offer(&mut self, title: &str, now: u64) -> (r: bool)
        ensures
            r == old(self).admits(title@, now),
            r ==> final(self).shown@ == title@ && final(self).since == Some(now),
            !r ==> *final(self) == *old(self),
    {
        if same(title, self.shown.as_str()) {
            return false;
        }
        if let Some(t) = self.since {
            if now < t || now - t < TITLE_INTERVAL {
                return false;
            }
        }
        self.shown = String::from_str(title);
        self.since = Some(now);
        true
    }
}

/// Two titles that are both set are at least the interval apart.
pub proof fn law_titles_are_spaced(gate: TitleGate, title: Seq<char>, now: u64)
    requires
        gate.since is Some,
        gate.admits(title, now),
    ensures
        now >= gate.since->0 + TITLE_INTERVAL,
{
}

/// Opening and closing the menu keeps the theory, the lock and the speed.
pub proof fn law_the_menu_keeps_the_view(a: AppView, found: Result<Vec<File>, String>)
    requires
        !a.menu.open,
    ensures
        ({
            let b = a.menu_toggled().0.listed(found).menu_toggled().0;
            &&& !b.menu.open
            &&& b.state.view_lock == a.state.view_lock
            &&& b.state.warp == a.state.warp
            &&& b.scene == a.scene
            &&& (a.game matches Some(g) ==> b.game == Some(g.released()))
            &&& (a.game is None ==> b.game is None)
        }),
{
}

/// Escape quits exactly where no question stands and no menu is open, nothing
/// else does, and it changes nothing on the way out.
pub proof fn law_escape_quits(
    a: AppView,
    key: Key,
    repeat: bool,
    screen: Option<Screen>,
    p: Pointer,
)
    ensures
        a.keyed(key, repeat, screen, p).1 == Effect::Quit <==> key == Key::Escape && !repeat
            && !a.confirming() && !a.menu.open,
        a.keyed(key, repeat, screen, p).1 == Effect::Quit ==> a.keyed(key, repeat, screen, p).0
            == a,
        key == Key::Escape && !repeat && !a.confirming() && a.menu.open ==> !a.keyed(
            key,
            repeat,
            screen,
            p,
        ).0.menu.open,
{
}

/// A map that fails to load leaves the player's state as it was.
pub proof fn law_a_failed_map_changes_nothing(a: AppView, path: Seq<char>, error: Seq<char>)
    ensures
        ({
            let b = a.failed(path, error);
            &&& b.menu.error is Some
            &&& b.menu.entries == a.menu.entries
            &&& b == (AppView { menu: b.menu, ..a })
        }),
{
}

/// A puzzle shows no labels, and says of a lock nothing that depends on names.
pub proof fn law_puzzles_hide_names(a: AppView, plan: Plan)
    requires
        a.game is Some,
        a.planned(plan),
    ensures
        !plan.labels.show,
        crate::menu::text_view(plan.lock_label) == a.state.lock_text(a.scene, false),
{
}

/// Clicks on the heads-up display keep the lock, except the lock button's own.
pub proof fn law_hud_clicks_keep_the_lock(a: AppView, l: crate::ui::Layout, at: Cursor)
    ensures
        !l.lock.holds(at) ==> a.hud_clicked(l, at).0.state.view_lock == a.state.view_lock,
        l.lock.holds(at) ==> a.hud_clicked(l, at).0.state.view_lock is None,
{
}

/// A click that lands in the open notebook leaves lock and speed alone.
pub proof fn law_notebook_clicks_do_not_leak(a: AppView, s: Screen, p: Pointer)
    requires
        a.notebook_open(),
        !a.menu_takes(Some(s), p.at),
    ensures
        a.left_pressed(Some(s), p).0.state == a.state.lifted(),
        a.left_pressed(Some(s), p).0.menu == a.menu,
{
}

/// Only plus and minus zoom: with no menu, notebook or question open, `=` and the
/// keypad's plus zoom in, `-` and the keypad's minus zoom out, no other key does
/// either, and the program's state stays as it was.
pub proof fn law_zoom_keys(
    a: AppView,
    key: Key,
    repeat: bool,
    screen: Option<Screen>,
    p: Pointer,
)
    requires
        !a.menu.open,
        a.game matches Some(g) ==> !g.open && !g.confirm_clear,
    ensures
        ({
            let (b, effect) = a.keyed(key, repeat, screen, p);
            &&& effect == Effect::ZoomIn <==> key == Key::Equal || key == Key::NumpadAdd
            &&& effect == Effect::ZoomOut <==> key == Key::Minus || key == Key::NumpadSubtract
            &&& effect == Effect::ZoomIn || effect == Effect::ZoomOut ==> b == a
        }),
{
}

/// A period makes the picture brighter and a comma darker, by one notch each, and
/// `A` alone turns automatic exposure on or off. Held keys repeat.
pub proof fn law_exposure_keys(
    a: AppView,
    key: Key,
    repeat: bool,
    screen: Option<Screen>,
    p: Pointer,
)
    requires
        !a.menu.open,
        a.game matches Some(g) ==> !g.open && !g.confirm_clear,
    ensures
        ({
            let (b, effect) = a.keyed(key, repeat, screen, p);
            &&& effect == Effect::ExposureStep(true) <==> key == Key::Period
            &&& effect == Effect::ExposureStep(false) <==> key == Key::Comma
            &&& effect is ExposureStep ==> b == a
            &&& effect == Effect::SyncExposure <==> key == Key::A
            &&& key == Key::A ==> b == (AppView { auto_exposure: b.auto_exposure, ..a })
            &&& b.auto_exposure != a.auto_exposure <==> key == Key::A
        }),
{
}

/// Events are searched for with `E` and `T`, outside of a puzzle only, and the
/// search itself changes nothing.
pub proof fn law_event_keys(
    a: AppView,
    key: Key,
    repeat: bool,
    screen: Option<Screen>,
    p: Pointer,
)
    requires
        !a.menu.open,
        a.game matches Some(g) ==> !g.open && !g.confirm_clear,
    ensures
        ({
            let (b, effect) = a.keyed(key, repeat, screen, p);
            &&& effect == Effect::FindEclipse <==> key == Key::E && a.game is None
            &&& effect == Effect::FindTransit <==> key == Key::T && a.game is None
            &&& key == Key::E || key == Key::T ==> b == a
        }),
{
}

/// The `n`-th digit or function key aims at the `n`-th target, where there is one,
/// and `R` at the default target; both release the lock and change nothing else. In
/// a puzzle the targets cannot be aimed at, and `R` only points at the default.
pub proof fn law_aim_keys(
    a: AppView,
    key: Key,
    n: u8,
    repeat: bool,
    screen: Option<Screen>,
    p: Pointer,
)
    requires
        !a.menu.open,
        a.game matches Some(g) ==> !g.open && !g.confirm_clear,
    ensures
        ({
            let (b, effect) = a.keyed(key, repeat, screen, p);
            let released = AppView { state: State { view_lock: None, ..a.state }, ..a };
            let numbered = key == Key::Digit(n) || key == Key::Function(n);
            let offered = 1 <= n <= 9 && n <= a.scene.targets.len();
            &&& numbered && offered && a.game is None ==> effect == Effect::Aim(
                a.scene.targets[n - 1],
            ) && b == released
            &&& numbered && !(offered && a.game is None) ==> effect == Effect::Nothing && b == a
            &&& key == Key::R ==> b == released && effect == (if a.game is Some {
                Effect::PointDefault
            } else {
                Effect::Aim(a.scene.default_target)
            })
            &&& effect is Aim ==> a.game is None && (key == Key::R || key is Digit
                || key is Function)
            &&& effect == Effect::PointDefault ==> key == Key::R && a.game is Some
        }),
{
}

/// The right arrow and bracket go one speed up and the left ones one down, the
/// ends of the scale hold, the space bar stops time, and no other key touches the
/// speed.
pub proof fn law_time_keys(
    a: AppView,
    key: Key,
    repeat: bool,
    screen: Option<Screen>,
    p: Pointer,
)
    requires
        !a.menu.open,
        a.game matches Some(g) ==> !g.open && !g.confirm_clear,
        a.state.warp < 17,
    ensures
        ({
            let (b, effect) = a.keyed(key, repeat, screen, p);
            let up = key == Key::ArrowRight || key == Key::BracketRight;
            let down = key == Key::ArrowLeft || key == Key::BracketLeft;
            let w = a.state.warp as int;
            &&& up ==> b.state.warp == (if w == 16 {
                16
            } else {
                w + 1
            })
            &&& down ==> b.state.warp == (if w == 0 {
                0
            } else {
                w - 1
            })
            &&& key == Key::Space ==> b.state.warp == 8
            &&& up || down || key == Key::Space ==> effect == Effect::Nothing && b == (AppView {
                state: State { warp: b.state.warp, ..a.state },
                ..a
            })
            &&& !up && !down && key != Key::Space ==> b.state.warp == a.state.warp
        }),
{
}

/// `H` shows or hides the heads-up display, `L` the labels (outside of a puzzle),
/// `S` and `O` hold the camera's roll against the stars or let it go, once for each
/// press, and `U` releases the lock. Each changes that and nothing more, but that
/// hiding the display ends a drag of its slider.
pub proof fn law_switch_keys(
    a: AppView,
    key: Key,
    repeat: bool,
    screen: Option<Screen>,
    p: Pointer,
)
    requires
        !a.menu.open,
        a.game matches Some(g) ==> !g.open && !g.confirm_clear,
    ensures
        ({
            let (b, effect) = a.keyed(key, repeat, screen, p);
            &&& key == Key::H ==> effect == Effect::Nothing && b == (AppView {
                show_hud: !a.show_hud,
                exposure_dragging: false,
                ..a
            })
            &&& key == Key::L ==> effect == Effect::Nothing && b == (AppView {
                show_labels: if a.game is None {
                    !a.show_labels
                } else {
                    a.show_labels
                },
                ..a
            })
            &&& key == Key::U ==> effect == Effect::Nothing && b == (AppView {
                state: State { view_lock: None, ..a.state },
                ..a
            })
            &&& effect == Effect::Orient <==> (key == Key::S || key == Key::O) && !repeat
            &&& key == Key::S || key == Key::O ==> b == (AppView {
                state: State { steady_stars: b.state.steady_stars, ..a.state },
                ..a
            }) && (b.state.steady_stars != a.state.steady_stars <==> !repeat)
            &&& b.show_hud != a.show_hud ==> key == Key::H
            &&& b.show_labels != a.show_labels ==> key == Key::L
            &&& b.state.steady_stars != a.state.steady_stars ==> key == Key::S || key == Key::O
            &&& b.state.view_lock != a.state.view_lock ==> b.state.view_lock is None
        }),
{
}

/// Keys that mean nothing to the telescope do nothing.
pub proof fn law_idle_keys(
    a: AppView,
    key: Key,
    repeat: bool,
    screen: Option<Screen>,
    p: Pointer,
)
    requires
        !a.menu.open,
        a.game matches Some(g) ==> !g.open && !g.confirm_clear,
        key == Key::Enter || key == Key::Delete || key == Key::PageUp || key == Key::PageDown || key
            == Key::N || key == Key::V || key == Key::X || key == Key::Y || key == Key::Z || key
            == Key::Other || (key == Key::Tab && a.game is None),
    ensures
        a.keyed(key, repeat, screen, p) == (a, Effect::Nothing),
{
}

/// `M` opens the menu with a new listing, or closes it; either lets go of whatever
/// is dragged and keeps lock, speed and scene. A held `M` does nothing.
pub proof fn law_menu_key(a: AppView, repeat: bool, screen: Option<Screen>, p: Pointer)
    requires
        a.game matches Some(g) ==> !g.confirm_clear,
    ensures
        ({
            let (b, effect) = a.keyed(Key::M, repeat, screen, p);
            &&& repeat ==> b == a && effect == Effect::Nothing
            &&& !repeat && a.menu.open ==> effect == Effect::RestartClock && b.menu == (MenuView {
                open: false,
                ..a.menu
            })
            &&& !repeat && !a.menu.open ==> effect == Effect::ListMaps && b.menu == a.menu
            &&& !repeat ==> {
                &&& b.state.press is None && b.state.last_cursor is None && !b.state.dragging
                &&& !b.exposure_dragging
                &&& b.state.warp == a.state.warp && b.state.view_lock == a.state.view_lock
                &&& b.state.steady_stars == a.state.steady_stars
                &&& b.scene == a.scene
                &&& b.show_labels == a.show_labels && b.show_hud == a.show_hud
                &&& b.auto_exposure == a.auto_exposure
                &&& b.game is Some <==> a.game is Some
                &&& b.game matches Some(h) ==> h == (GameView {
                    dragging: None,
                    drag_saved: false,
                    ..a.game->0
                })
            }
        }),
{
}

/// Tab turns to the notebook and back, in a puzzle only. Turning lets go of a press
/// on the sky and of the slider, and no time passes in between.
pub proof fn law_notebook_key(a: AppView, repeat: bool, screen: Option<Screen>, p: Pointer)
    requires
        !a.menu.open,
        a.game matches Some(g) && !g.confirm_clear,
    ensures
        ({
            let (b, effect) = a.keyed(Key::Tab, repeat, screen, p);
            &&& repeat ==> b == a && effect == Effect::Nothing
            &&& !repeat ==> {
                &&& effect == Effect::RestartClock
                &&& b.game matches Some(h) && h == (GameView {
                    open: !a.game->0.open,
                    dragging: None,
                    drag_saved: false,
                    ..a.game->0
                })
                &&& b.state == (State {
                    press: None,
                    last_cursor: None,
                    dragging: false,
                    ..a.state
                })
                &&& b == (AppView {
                    state: b.state,
                    game: b.game,
                    exposure_dragging: false,
                    ..a
                })
            }
        }),
{
}

/// An open notebook, and a question in any case, has the keys to itself: whatever
/// is pressed, only the theory can change, and a held key changes nothing.
pub proof fn law_the_notebook_has_the_keys(
    a: AppView,
    key: Key,
    repeat: bool,
    screen: Option<Screen>,
    p: Pointer,
)
    requires
        a.game matches Some(g) && (g.confirm_clear || g.open && !a.menu.open && key != Key::Escape
            && key != Key::M && key != Key::Tab),
    ensures
        ({
            let (b, effect) = a.keyed(key, repeat, screen, p);
            &&& effect == Effect::Nothing
            &&& b == (AppView { game: b.game, ..a })
            &&& b.game is Some
            &&& repeat || screen is None ==> b == a
            &&& !repeat && screen is Some ==> b.game == Some(
                a.game->0.keyed(key, screen->0.notebook, p, a.scene),
            )
        }),
{
}

/// In the open menu, a digit loads what the row of that number shows, once for each
/// press; the paging keys move by as many entries as the window has rows, and
/// nothing else happens.
pub proof fn law_menu_keys(
    a: AppView,
    key: Key,
    repeat: bool,
    screen: Option<Screen>,
    p: Pointer,
)
    requires
        a.menu.open,
        a.game matches Some(g) ==> !g.confirm_clear,
        key != Key::Escape,
        key != Key::M,
        a.menu.entries.len() <= usize::MAX,
    ensures
        ({
            let (b, effect) = a.keyed(key, repeat, screen, p);
            let seen = screen is Some && screen->0.width > 0 && screen->0.height > 0;
            let rows = screen->0.menu.rows@.len() as int;
            let at = a.menu.offset as int;
            let n = a.menu.entries.len() as int;
            &&& b == (AppView { menu: MenuView { offset: b.menu.offset, ..a.menu }, ..a })
            &&& !seen ==> b == a && effect == Effect::Nothing
            &&& seen && key == Key::PageUp ==> b.menu.offset == (if at < rows {
                0
            } else {
                at - rows
            })
            &&& seen && key == Key::PageDown ==> b.menu.offset == (if at + rows < n {
                at + rows
            } else {
                at
            })
            &&& key != Key::PageUp && key != Key::PageDown ==> b == a
            &&& effect == Effect::Nothing || effect is LoadMap
            &&& forall|i: usize| #[trigger]
                loads(effect, i) <==> seen && !repeat && i < n && at <= i && i - at < rows && i - at
                    < 9 && key == Key::Digit((i - at + 1) as u8)
        }),
{
    let (b, effect) = a.keyed(key, repeat, screen, p);
    if let Key::Digit(d) = key {
        if 1 <= d {
            assert(((a.menu.offset + d - 1) - a.menu.offset + 1) as u8 == d);
        }
    }
}

/// Whether the effect is to load that entry.
pub open spec fn loads(effect: Effect, i: usize) -> bool {
    effect == Effect::LoadMap(i)
}

/// Which controls of the heads-up display lie under a place.
pub open spec fn controls_at(l: crate::ui::Layout, at: Cursor) -> Seq<bool> {
    seq![
        l.lock.holds(at),
        l.orientation.holds(at),
        l.slower.holds(at),
        l.faster.holds(at),
        l.stop.holds(at),
        l.draw.holds(at),
        l.toggle.holds(at),
        l.exposure.holds(at),
        l.auto.holds(at),
    ]
}

/// What the one control under the pointer does: the lock button unlocks, the speed
/// buttons go down, up and to a stop, the labels' button shows or hides labels
/// outside of a puzzle and the notebook's opens it in one, the slider is taken hold
/// of, and the rest are switches. None of them changes anything else.
pub proof fn law_hud_buttons(a: AppView, l: crate::ui::Layout, at: Cursor, k: int)
    requires
        0 <= k < 9,
        forall|j: int| 0 <= j < 9 ==> (#[trigger] controls_at(l, at)[j] <==> j == k),
        a.state.warp < 17,
    ensures
        ({
            let (b, effect) = a.hud_clicked(l, at);
            let w = a.state.warp as int;
            &&& k == 0 ==> effect == Effect::Nothing && b == (AppView {
                state: State { view_lock: None, ..a.state },
                ..a
            })
            &&& k == 1 ==> effect == Effect::Orient && b == (AppView {
                state: State { steady_stars: !a.state.steady_stars, ..a.state },
                ..a
            })
            &&& 2 <= k <= 4 ==> effect == Effect::Nothing && b == (AppView {
                state: State { warp: b.state.warp, ..a.state },
                ..a
            })
            &&& k == 2 ==> b.state.warp == (if w == 0 {
                0
            } else {
                w - 1
            })
            &&& k == 3 ==> b.state.warp == (if w == 16 {
                16
            } else {
                w + 1
            })
            &&& k == 4 ==> b.state.warp == 8
            &&& k == 5 && a.game is Some ==> effect == Effect::RestartClock && b.game->0.open
                == !a.game->0.open && b.game->0.nodes == a.game->0.nodes && b.menu == a.menu
                && b.state.view_lock == a.state.view_lock && b.state.warp == a.state.warp
                && b.show_labels == a.show_labels && b.auto_exposure == a.auto_exposure
            &&& k == 5 && a.game is None ==> effect == Effect::Nothing && b == a
            &&& k == 6 ==> effect == Effect::Nothing && b == (AppView {
                show_labels: if a.game is None {
                    !a.show_labels
                } else {
                    a.show_labels
                },
                ..a
            })
            &&& k == 7 ==> effect == Effect::SlideExposure && b == (AppView {
                exposure_dragging: true,
                ..a
            })
            &&& k == 8 ==> effect == Effect::SyncExposure && b == (AppView {
                auto_exposure: !a.auto_exposure,
                ..a
            })
        }),
{
    let c = controls_at(l, at);
    assert(c[0] == l.lock.holds(at));
    assert(c[1] == l.orientation.holds(at));
    assert(c[2] == l.slower.holds(at));
    assert(c[3] == l.faster.holds(at));
    assert(c[4] == l.stop.holds(at));
    assert(c[5] == l.draw.holds(at));
    assert(c[6] == l.toggle.holds(at));
    assert(c[7] == l.exposure.holds(at));
    assert(c[8] == l.auto.holds(at));
}

/// A press that neither the menu nor the heads-up display takes is a press on the
/// sky: it is remembered where it began, it releases the lock, and it asks for
/// nothing. The display takes what lies on its bar while it is shown, and what lies
/// on the lock button in any case.
pub proof fn law_sky_press(a: AppView, screen: Option<Screen>, p: Pointer)
    requires
        !a.menu.open,
        a.game matches Some(g) ==> !g.open && !g.confirm_clear,
        screen matches Some(s) ==> !s.menu.home.holds(p.at) && !s.hud.lock.holds(p.at) && (
        a.show_hud ==> !s.hud.bar.holds(p.at)),
    ensures
        a.left_pressed(screen, p) == (
            AppView {
                state: State {
                    press: Some(p.at),
                    last_cursor: Some(p.at),
                    dragging: false,
                    view_lock: None,
                    ..a.state
                },
                ..a
            },
            Effect::Nothing,
        ),
{
}

/// A press on the heads-up display is no press on the sky: it does what the control
/// under it does, and no gesture begins.
pub proof fn law_hud_press(a: AppView, s: Screen, p: Pointer)
    requires
        !a.menu.open,
        a.game matches Some(g) ==> !g.open && !g.confirm_clear,
        s.width > 0 && s.height > 0,
        !s.menu.home.holds(p.at),
        s.hud.lock.holds(p.at) || a.show_hud && s.hud.bar.holds(p.at),
    ensures
        ({
            let (b, effect) = a.left_pressed(Some(s), p);
            let (c, control) = a.hud_clicked(s.hud, p.at);
            &&& effect == control
            &&& b == (AppView {
                state: State {
                    press: None,
                    last_cursor: None,
                    dragging: false,
                    ..c.state
                },
                ..c
            })
        }),
{
}

/// A click in the open menu goes to the menu alone: resuming closes it, the paging
/// buttons move by a page within the list, a row loads the entry that it shows, and
/// a click elsewhere does nothing.
#[verifier::rlimit(40)]
pub proof fn law_menu_clicks(a: AppView, s: Screen, p: Pointer, i: int)
    requires
        a.menu.open,
        a.game matches Some(g) ==> !g.confirm_clear,
        s.width > 0 && s.height > 0,
        a.menu.entries.len() <= usize::MAX,
        s.menu.rows@.len() <= usize::MAX,
    ensures
        ({
            let (b, effect) = a.left_pressed(Some(s), p);
            let rows = s.menu.rows@;
            let at = a.menu.offset as int;
            let n = a.menu.entries.len() as int;
            let idle = State { press: None, last_cursor: None, dragging: false, ..a.state };
            let turns = !s.menu.resume.holds(p.at) && (s.menu.previous.holds(p.at)
                || s.menu.next.holds(p.at) && at + rows.len() < n);
            &&& b.state == idle
            &&& s.menu.resume.holds(p.at) ==> !b.menu.open && effect == Effect::RestartClock
                && b.menu.offset == at && b.menu.entries == a.menu.entries
            &&& !s.menu.resume.holds(p.at) ==> b == (AppView {
                state: idle,
                menu: MenuView { offset: b.menu.offset, ..a.menu },
                ..a
            })
            &&& turns && s.menu.previous.holds(p.at) ==> effect == Effect::Nothing
                && b.menu.offset == (if at < rows.len() {
                0
            } else {
                at - rows.len()
            })
            &&& turns && !s.menu.previous.holds(p.at) ==> effect == Effect::Nothing
                && b.menu.offset == at + rows.len()
            &&& !turns && !s.menu.resume.holds(p.at) ==> b.menu.offset == at
            &&& !turns && !s.menu.resume.holds(p.at) && 0 <= i < rows.len() && rows[i].holds(p.at)
                && (forall|j: int| 0 <= j < i ==> !(#[trigger] rows[j]).holds(p.at)) ==> effect
                == (if at + i < n {
                Effect::LoadMap((at + i) as usize)
            } else {
                Effect::Nothing
            })
            &&& !turns && !s.menu.resume.holds(p.at) && (forall|j: int|
                0 <= j < rows.len() ==> !(#[trigger] rows[j]).holds(p.at)) ==> effect
                == Effect::Nothing
        }),
{
    crate::input::law_first_rectangle(s.menu.rows@, p.at);
    let rows = s.menu.rows@;
    if 0 <= i < rows.len() && rows[i].holds(p.at) && (forall|j: int|
        0 <= j < i ==> !(#[trigger] rows[j]).holds(p.at)) {
        let found = crate::input::first_at(rows, p.at, 0);
        assert(found matches Some(k) && k == i);
    }
}

/// The button in the corner, and in an open notebook the one for maps, opens the
/// menu on a new listing, unless a question stands.
pub proof fn law_opening_the_menu(a: AppView, s: Screen, p: Pointer)
    requires
        !a.menu.open,
        a.game matches Some(g) ==> !g.confirm_clear,
        s.width > 0 && s.height > 0,
        a.game matches Some(g) && g.open ==> s.notebook.maps.holds(p.at),
        a.game matches Some(g) ==> (!g.open ==> s.menu.home.holds(p.at)),
        a.game is None ==> s.menu.home.holds(p.at),
    ensures
        ({
            let (b, effect) = a.left_pressed(Some(s), p);
            &&& effect == Effect::ListMaps
            &&& b.menu == a.menu
            &&& b.scene == a.scene
            &&& b.state == (State { press: None, last_cursor: None, dragging: false, ..a.state })
            &&& !b.exposure_dragging
        }),
{
}

/// A right click on the sky locks the view onto what is under the pointer: a body,
/// or the background where there is none. The ground and what lies off the window
/// keep the lock as it was, and a right click on a control does nothing at all.
pub proof fn law_right_click_locks(a: AppView, s: Screen, p: Pointer, pick: Pick)
    requires
        !a.menu.open,
        s.width > 0 && s.height > 0,
        a.game matches Some(g) ==> !g.open,
    ensures
        ({
            let (b, effect) = a.right_clicked(Some(s), p, pick);
            let control = s.hud.lock.holds(p.at) || (a.show_hud && s.hud.bar.holds(p.at)) || (
            a.game is None && s.hud.home.holds(p.at));
            &&& control ==> b == a && effect == Effect::Nothing
            &&& !control ==> b == (AppView {
                state: State {
                    press: None,
                    last_cursor: None,
                    dragging: false,
                    view_lock: b.state.view_lock,
                    ..a.state
                },
                exposure_dragging: false,
                ..a
            })
            &&& !control && pick == Pick::Sky ==> b.state.view_lock == Some(ViewLock::Background)
                && effect == Effect::TrackBackground
            &&& !control && pick == Pick::Outside ==> b.state.view_lock == a.state.view_lock
                && effect == Effect::Nothing
            &&& pick matches Pick::Body(i) ==> !control ==> {
                &&& i == a.scene.host ==> b.state.view_lock == a.state.view_lock && effect
                    == Effect::Nothing
                &&& i != a.scene.host ==> b.state.view_lock == Some(ViewLock::Body(i)) && effect
                    == Effect::Track
            }
        }),
{
}

/// With the menu open or no window to see, a right click does nothing; in an open
/// notebook it goes to the theory alone.
pub proof fn law_right_click_elsewhere(
    a: AppView,
    screen: Option<Screen>,
    p: Pointer,
    pick: Pick,
)
    ensures
        ({
            let (b, effect) = a.right_clicked(screen, p, pick);
            let seen = screen is Some && screen->0.width > 0 && screen->0.height > 0;
            &&& a.menu.open || !seen ==> b == a && effect == Effect::Nothing
            &&& !a.menu.open && seen && a.game is Some && a.game->0.open ==> effect
                == Effect::Nothing && b == (AppView {
                game: Some(a.game->0.right_clicked(screen->0.notebook, p)),
                ..a
            })
        }),
{
}

/// The pointer turns the view only while a press on the sky has left the click
/// tolerance, and then by its way from where it was before; the first such move
/// releases the lock. With the slider held it sets the exposure, in the menu it
/// does nothing, and in the notebook it moves what is dragged there.
pub proof fn law_pointer_moves(
    a: AppView,
    screen: Option<Screen>,
    p: Pointer,
    travel: Number,
    tolerance: Number,
)
    ensures
        ({
            let (b, effect) = a.moved(screen, p, travel, tolerance);
            let writing = a.game is Some && a.game->0.open && screen is Some;
            let sky = !a.menu.open && !writing && !a.exposure_dragging;
            let from = if a.state.last_cursor is Some {
                a.state.last_cursor->0
            } else {
                a.state.press->0
            };
            &&& a.menu.open ==> b == a && effect == Effect::Nothing
            &&& !a.menu.open && writing ==> effect == Effect::Nothing && b == (AppView {
                game: Some(a.game->0.moved(p)),
                ..a
            })
            &&& !a.menu.open && !writing && a.exposure_dragging ==> b == a && effect == (if screen
                is Some && screen->0.width > 0 && screen->0.height > 0 {
                Effect::SlideExposure
            } else {
                Effect::Nothing
            })
            &&& sky && a.state.press is None ==> b == a && effect == Effect::Nothing
            &&& sky && a.state.press is Some && !a.state.dragging && travel@.le(tolerance@) ==> b
                == a && effect == Effect::Nothing
            &&& sky && a.state.press is Some && !a.state.dragging && !travel@.le(tolerance@)
                ==> effect == Effect::Pan(from) && b == (AppView {
                state: State {
                    dragging: true,
                    last_cursor: Some(p.at),
                    view_lock: None,
                    ..a.state
                },
                ..a
            })
            &&& sky && a.state.press is Some && a.state.dragging ==> effect == Effect::Pan(from)
                && b == (AppView {
                state: State { last_cursor: Some(p.at), ..a.state },
                ..a
            })
        }),
{
}

/// The wheel zooms the sky, pages the menu (up for a turn away from the player) and
/// is without effect in the notebook.
pub proof fn law_wheel(a: AppView, screen: Option<Screen>, y: Number, v: int)
    requires
        y@ == crate::number::Real::Finite(v),
        a.menu.entries.len() <= usize::MAX,
    ensures
        ({
            let (b, effect) = a.wheeled(screen, y);
            let seen = screen is Some && screen->0.width > 0 && screen->0.height > 0;
            let rows = screen->0.menu.rows@.len() as int;
            let at = a.menu.offset as int;
            &&& effect == Effect::ZoomBy <==> !a.menu.open && !(a.game is Some && a.game->0.open)
            &&& effect != Effect::ZoomBy ==> effect == Effect::Nothing
            &&& !a.menu.open || !seen ==> b == a
            &&& b == (AppView { menu: MenuView { offset: b.menu.offset, ..a.menu }, ..a })
            &&& a.menu.open && seen && v > 0 ==> b.menu.offset == (if at < rows {
                0
            } else {
                at - rows
            })
            &&& a.menu.open && seen && v < 0 ==> b.menu.offset == (if at + rows
                < a.menu.entries.len() {
                at + rows
            } else {
                at
            })
            &&& v == 0 ==> b == a
        }),
{
    crate::number::lemma_bounds();
}

/// The program starts at rest: stopped, unlocked, with labels, display and
/// automatic exposure on, the menu closed, and an empty theory if it is a puzzle.
pub proof fn law_a_start_at_rest(scene: SceneView, puzzle: bool)
    ensures
        ({
            let a = AppView::opened(scene, puzzle);
            &&& a.scene == scene
            &&& crate::state::speed_of(a.state.warp) == 0
            &&& a.state.view_lock is None && a.state.press is None && a.state.last_cursor is None
            &&& !a.state.dragging && !a.state.steady_stars
            &&& a.show_labels && a.show_hud && a.auto_exposure && !a.exposure_dragging
            &&& !a.menu.open && a.menu.entries.len() == 0 && a.menu.offset == 0 && a.menu.error
                is None
            &&& a.game is Some <==> puzzle
            &&& a.game matches Some(g) ==> !g.open && !g.confirm_clear
        }),
{
}

/// A map that loads puts the program back to the start on that scene, but for the
/// switches the player has set and the listing, and a puzzle stays a puzzle.
pub proof fn law_a_new_map_starts_over(a: AppView, scene: SceneView)
    ensures
        ({
            let b = a.loaded(scene);
            let start = AppView::opened(scene, a.game is Some);
            &&& b.scene == scene
            &&& b.state == start.state
            &&& b.game == start.game
            &&& !b.menu.open && b.menu.error is None
            &&& b.menu.entries == a.menu.entries && b.menu.offset == a.menu.offset
            &&& b.show_labels == a.show_labels && b.show_hud == a.show_hud
            &&& b.auto_exposure == a.auto_exposure
            &&& !b.exposure_dragging
        }),
{
}

/// A failure is told in words that name the file and the reason, except in a
/// puzzle, where neither shows.
pub proof fn law_failures_are_told(
    a: AppView,
    path: Seq<char>,
    other: Seq<char>,
    error: Seq<char>,
    cause: Seq<char>,
)
    ensures
        a.game is None ==> ({
            let m = a.failed(path, error).menu.error->0;
            let name = crate::text::file_name(path);
            &&& m.len() == 17 + (if name is Some {
                name->0.len()
            } else {
                0
            }) + error.len()
            &&& m.take(15) == "Could not load "@
            &&& name is Some ==> m.subrange(15, (15 + name->0.len()) as int) == name->0
            &&& m.subrange(m.len() - error.len(), m.len() as int) == error
        }),
        a.game is Some ==> a.failed(path, error) == a.failed(other, cause) && a.failed(
            path,
            error,
        ).menu.error == Some("Could not load this map. Your current puzzle is unchanged."@),
{
    reveal_strlit("Could not load ");
    reveal_strlit(": ");
    let m = a.failed(path, error).menu.error->0;
    let name = crate::text::file_name(path);
    if a.game is None {
        assert(m.take(15) =~= "Could not load "@);
        if name is Some {
            assert(m.subrange(15, (15 + name->0.len()) as int) =~= name->0);
        }
        assert(m.subrange(m.len() - error.len(), m.len() as int) =~= error);
    }
}

/// A search that finds an event releases the lock, and only that; one that finds
/// none changes nothing.
pub proof fn law_events_release_the_lock(a: AppView)
    ensures
        a.sought(true) == (AppView { state: State { view_lock: None, ..a.state }, ..a }),
        a.sought(false) == a,
{
}

/// What a frame shows: time passes and the lock is followed exactly while neither
/// menu nor notebook covers the sky; the display hides behind the menu; with it
/// switched off the lock's button stands alone on the sky; names show only where
/// labels are on and no puzzle runs, and the lock's name only with the display on
/// as well.
pub proof fn law_frames(a: AppView, plan: Plan)
    requires
        a.planned(plan),
    ensures
        ({
            let writing = a.game is Some && a.game->0.open;
            let named = a.show_labels && a.show_hud && a.game is None;
            &&& plan.advance <==> !a.menu.open && !writing
            &&& plan.hud <==> a.show_hud && !a.menu.open
            &&& plan.lock_alone <==> !a.show_hud && !a.menu.open && !writing
            &&& !(plan.hud && plan.lock_alone)
            &&& plan.labels.show <==> a.show_labels && a.game is None
            &&& a.state.view_lock is None ==> plan.lock_label is None && plan.labels.locked is None
            &&& a.state.view_lock == Some(ViewLock::Background) ==> plan.labels.locked is None
                && plan.lock_label is Some && plan.lock_label->0@ == "Background sky"@
            &&& a.state.view_lock matches Some(ViewLock::Body(i)) ==> {
                &&& plan.labels.locked == Some(i)
                &&& plan.lock_label is Some
                &&& named ==> plan.lock_label->0@ == a.scene.bodies[i as int].name
                &&& !named && a.scene.bodies[i as int].kind == crate::sim::BodyKind::Star
                    ==> plan.lock_label->0@ == "Star"@
                &&& !named && a.scene.bodies[i as int].kind != crate::sim::BodyKind::Star
                    ==> plan.lock_label->0@ == "Planet / moon"@
            }
            &&& plan.title == Title::Puzzle <==> a.game is Some
            &&& plan.title == Title::Menu <==> a.game is None && a.menu.open
            &&& plan.title == Title::Observing <==> a.game is None && !a.menu.open
        }),
{
}

/// A title is set exactly when it differs from the one shown and that one has stood
/// for a quarter of a second.
pub proof fn law_titles_change(gate: TitleGate, title: Seq<char>, now: u64)
    ensures
        title == gate.shown@ ==> !gate.admits(title, now),
        title != gate.shown@ && gate.since is None ==> gate.admits(title, now),
        gate.since matches Some(t) ==> title != gate.shown@ ==> (gate.admits(title, now) <==> now
            - t >= 250),
{
}

/// Letting go ends a press on the sky, a drag in the notebook and a drag of the
/// slider, and changes nothing else.
pub proof fn law_letting_go(a: AppView)
    ensures
        ({
            let b = a.let_go();
            &&& b.state == (State { press: None, last_cursor: None, dragging: false, ..a.state })
            &&& !b.exposure_dragging
            &&& a.game is None ==> b.game is None
            &&& a.game matches Some(g) ==> b.game == Some(
                GameView { dragging: None, drag_saved: false, ..g },
            )
            &&& b == (AppView {
                state: b.state,
                game: b.game,
                exposure_dragging: false,
                ..a
            })
        }),
{
}

/// A listing that comes in opens the menu on its first page and changes nothing
/// else; in a puzzle the puzzle's own map comes first.
pub proof fn law_listings_open_the_menu(a: AppView, found: Result<Vec<File>, String>)
    ensures
        ({
            let b = a.listed(found);
            &&& b == (AppView { menu: b.menu, ..a })
            &&& b.menu.open && b.menu.offset == 0
            &&& found is Err ==> b.menu.error is Some && b.menu.entries.len() == 0
            &&& found is Ok ==> b.menu.error is None
            &&& a.game is None ==> b.menu == a.menu.refreshed(found)
            &&& a.game is Some ==> b.menu.entries == crate::menu::puzzle_first(
                a.menu.refreshed(found).entries,
            )
        }),
{
    if found is Err {
        crate::menu::law_puzzle_first(a.menu.refreshed(found).entries);
    }
}

/// While a question stands, a click in the open notebook answers it or does nothing:
/// neither the menu nor the sky gets it.
pub proof fn law_a_question_has_the_clicks(a: AppView, s: Screen, p: Pointer)
    requires
        s.width > 0 && s.height > 0,
        a.game matches Some(g) && g.open && g.confirm_clear,
    ensures
        ({
            let (b, effect) = a.left_pressed(Some(s), p);
            &&& effect == Effect::RestartClock
            &&& b.game == Some(a.game->0.clicked(s.notebook, p, a.scene))
            &&& b.menu == a.menu
            &&& b.state == (State { press: None, last_cursor: None, dragging: false, ..a.state })
            &&& !b.exposure_dragging
            &&& b.scene == a.scene
        }),
{
}

/// A click in the open notebook that is not on its button for maps is the notebook's:
/// the theory answers it and the rest of the program only lets go.
pub proof fn law_notebook_clicks_are_its_own(a: AppView, s: Screen, p: Pointer)
    requires
        s.width > 0 && s.height > 0,
        !a.menu.open,
        a.game matches Some(g) && g.open && !g.confirm_clear,
        !s.notebook.maps.holds(p.at),
    ensures
        ({
            let (b, effect) = a.left_pressed(Some(s), p);
            &&& effect == Effect::RestartClock
            &&& b == (AppView {
                state: State { press: None, last_cursor: None, dragging: false, ..a.state },
                game: Some(a.game->0.clicked(s.notebook, p, a.scene)),
                exposure_dragging: false,
                ..a
            })
        }),
{
}

/// Without a window to see, an open menu swallows the click.
pub proof fn law_unseen_menus(a: AppView, screen: Option<Screen>, p: Pointer)
    requires
        a.menu.open,
        screen matches Some(s) ==> s.width == 0 || s.height == 0,
    ensures
        a.left_pressed(screen, p) == (
            AppView {
                state: State { press: None, last_cursor: None, dragging: false, ..a.state },
                ..a
            },
            Effect::Nothing,
        ),
{
}

/// What a key can ask of the world while the keys go to the telescope: to turn the
/// roll, aim, search, expose or zoom, and nothing else; a spoiler in a puzzle asks for
/// nothing.
pub proof fn law_what_keys_ask_for(
    a: AppView,
    key: Key,
    repeat: bool,
    screen: Option<Screen>,
    p: Pointer,
)
    requires
        !a.menu.open,
        a.game matches Some(g) ==> !g.open && !g.confirm_clear,
        key != Key::Escape && key != Key::M && (a.game is None || key != Key::Tab),
    ensures
        ({
            let (b, effect) = a.keyed(key, repeat, screen, p);
            &&& effect == Effect::Nothing || effect == Effect::Orient || effect is Aim || effect
                == Effect::PointDefault || effect == Effect::FindEclipse || effect
                == Effect::FindTransit || effect == Effect::SyncExposure || effect is ExposureStep
                || effect == Effect::ZoomIn || effect == Effect::ZoomOut
            &&& a.game is Some && (key == Key::L || key == Key::E || key == Key::T) ==> effect
                == Effect::Nothing && b == a
            &&& b.scene == a.scene && b.menu == a.menu && b.game == a.game
            &&& b.state.press == a.state.press && b.state.last_cursor == a.state.last_cursor
                && b.state.dragging == a.state.dragging
            &&& b.exposure_dragging != a.exposure_dragging ==> key == Key::H
        }),
{
}

} // verus!
