//! The state of the launcher and what each event does to it.
//!
//! The program around the library draws the state, turns what the user does
//! into an [`Event`], hands it to [`Launcher::handle`] and carries out the
//! [`Action`] that comes back.

use crate::config::{saved, Config, ConfigView};
use crate::manifest::{blank, run_uri, Game, GameView};
use crate::scan::{file_views, game_views, scan, scanned_errors, scanned_games, ScanError};
use vstd::prelude::*;

verus! {

/// The two pages of the main pane.
#[derive(Clone, Copy, Debug, PartialEq, Eq, Structural)]
pub enum Page {
    /// The two paths and the button that saves them.
    Settings,
    /// The title that is selected.
    Main,
}

/// What the user did, or what the program brings back.
#[derive(Debug, PartialEq, Eq)]
pub enum Event {
    /// The text of the search box is now this.
    SearchEdited(String),
    /// The title at this position of the list was clicked.
    GameClicked(usize),
    /// The button that changes the page was clicked.
    PageToggled,
    /// This directory was picked as the installation directory.
    SteamPathPicked(String),
    /// This directory was picked as the image cache.
    CachePathPicked(String),
    /// The button that saves the configuration was clicked.
    SaveClicked,
    /// The installation directory was listed, and these are its files: the
    /// text of each, or `None` for one that could not be read.
    Scanned(Vec<Option<String>>),
    /// The button that starts the selected title was clicked.
    PlayClicked,
}

/// What the program has to do after an event.
#[derive(Debug, PartialEq, Eq)]
pub enum Action {
    /// Nothing.
    Nothing,
    /// Write `contents` to the configuration file, then list the directory
    /// `root` and hand its files back as [`Event::Scanned`].
    Save { contents: String, root: String },
    /// Open the address `uri`.
    Launch { uri: String },
}

/// The state of the launcher.
#[derive(Debug, PartialEq, Eq)]
pub struct Launcher {
    /// The configuration, as last picked.
    pub config: Config,
    /// The titles that the last scan found.
    pub games: Vec<Game>,
    /// The files that the last scan could not take as manifests.
    pub errors: Vec<ScanError>,
    /// The text of the search box.
    pub search_string: String,
    /// The title that the main page shows.
    pub game_selected: Game,
    /// The page that the main pane shows.
    pub page: Page,
}

/// What an [`Event`] holds.
pub ghost enum EventView {
    SearchEdited(Seq<char>),
    GameClicked(usize),
    PageToggled,
    SteamPathPicked(Seq<char>),
    CachePathPicked(Seq<char>),
    SaveClicked,
    Scanned(Seq<Option<Seq<char>>>),
    PlayClicked,
}

/// What an [`Action`] holds.
pub ghost enum ActionView {
    Nothing,
    Save { contents: Seq<char>, root: Seq<char> },
    Launch { uri: Seq<char> },
}

/// What a [`Launcher`] holds.
pub ghost struct LauncherView {
    pub config: ConfigView,
    pub games: Seq<GameView>,
    pub errors: Seq<ScanError>,
    pub search_string: Seq<char>,
    pub game_selected: GameView,
    pub page: Page,
}

impl View for Event {
    type V = EventView;

    open spec fn view(&self) -> EventView {
        match self {
            Event::SearchEdited(text) => EventView::SearchEdited(text@),
            Event::GameClicked(index) => EventView::GameClicked(*index),
            Event::PageToggled => EventView::PageToggled,
            Event::SteamPathPicked(path) => EventView::SteamPathPicked(path@),
            Event::CachePathPicked(path) => EventView::CachePathPicked(path@),
            Event::SaveClicked => EventView::SaveClicked,
            Event::Scanned(files) => EventView::Scanned(file_views(files@)),
            Event::PlayClicked => EventView::PlayClicked,
        }
    }
}

impl View for Action {
    type V = ActionView;

    open spec fn view(&self) -> ActionView {
        match self {
            Action::Nothing => ActionView::Nothing,
            Action::Save { contents, root } => ActionView::Save {
                contents: contents@,
                root: root@,
            },
            Action::Launch { uri } => ActionView::Launch { uri: uri@ },
        }
    }
}

impl View for Launcher {
    type V = LauncherView;

    open spec fn view(&self) -> LauncherView {
        LauncherView {
            config: self.config@,
            games: game_views(self.games@),
            errors: self.errors@,
            search_string: self.search_string@,
            game_selected: self.game_selected@,
            page: self.page,
        }
    }
}

impl Page {
    /// The other page.
    pub open spec fn spec_toggled(self) -> Page {
        match self {
            Page::Settings => Page::Main,
            Page::Main => Page::Settings,
        }
    }

    /// The other page.
    #[verifier::when_used_as_spec(spec_toggled)]
    pub fn toggled(self) -> (r: Page)
        ensures
            r == self.spec_toggled(),
    {
        match self {
            Page::Settings => Page::Main,
            Page::Main => Page::Settings,
        }
    }

    /// The name of the page.
    pub open spec fn spec_label(self) -> Seq<char> {
        match self {
            Page::Settings => "Settings"@,
            Page::Main => "Main Page"@,
        }
    }

    /// The name of the page, which the button that changes the page shows.
    pub fn label(self) -> (r: &'static str)
        ensures
            r@ == self.spec_label(),
    {
        match self {
            Page::Settings => "Settings",
            Page::Main => "Main Page",
        }
    }
}

/// The state that the launcher starts in, with the configuration `config`
/// and the files `files` of its installation directory: the settings page,
/// an empty search box, the titles that a scan of the files finds, and the
/// first of them selected. Without an installation directory nothing is
/// scanned.
pub open spec fn started(config: ConfigView, files: Seq<Option<Seq<char>>>) -> LauncherView {
    let found = if config.steam_path.len() == 0 {
        Seq::empty()
    } else {
        files
    };
    let games = scanned_games(found, config);
    LauncherView {
        config,
        games,
        errors: scanned_errors(found, config),
        search_string: Seq::empty(),
        game_selected: if games.len() > 0 {
            games[0]
        } else {
            blank()
        },
        page: Page::Settings,
    }
}

/// The state `state` after a scan that found the files `files`: its titles
/// and its failures take the place of the earlier ones, and nothing else
/// changes.
pub open spec fn rescanned(state: LauncherView, files: Seq<Option<Seq<char>>>) -> LauncherView {
    LauncherView {
        games: scanned_games(files, state.config),
        errors: scanned_errors(files, state.config),
        ..state
    }
}

/// The state after the event `event` in the state `state`, and what the
/// program has to do.
pub open spec fn step(state: LauncherView, event: EventView) -> (LauncherView, ActionView) {
    match event {
        EventView::SearchEdited(text) => (
            LauncherView { search_string: text, ..state },
            ActionView::Nothing,
        ),
        EventView::GameClicked(index) => (
            if index < state.games.len() {
                LauncherView { game_selected: state.games[index as int], ..state }
            } else {
                state
            },
            ActionView::Nothing,
        ),
        EventView::PageToggled => (
            LauncherView { page: state.page.spec_toggled(), ..state },
            ActionView::Nothing,
        ),
        EventView::SteamPathPicked(path) => (
            LauncherView { config: ConfigView { steam_path: path, ..state.config }, ..state },
            ActionView::Nothing,
        ),
        EventView::CachePathPicked(path) => (
            LauncherView {
                config: ConfigView { steam_game_cache_path: path, ..state.config },
                ..state
            },
            ActionView::Nothing,
        ),
        EventView::SaveClicked => (
            state,
            ActionView::Save { contents: saved(state.config), root: state.config.steam_path },
        ),
        EventView::Scanned(files) => (rescanned(state, files), ActionView::Nothing),
        EventView::PlayClicked => (
            state,
            ActionView::Launch { uri: run_uri(state.game_selected.appid) },
        ),
    }
}

impl Launcher {
    /// The launcher as it starts, with the configuration `config` and the
    /// files `files` found in its installation directory.
    pub fn new(config: Config, files: &[Option<String>]) -> (r: Launcher)
        ensures
            r@ == started(config@, file_views(files@)),
    {
        let found = if config.steam_path.as_str().is_empty() {
            assert(file_views(Seq::<Option<String>>::empty()) == Seq::<Option<Seq<char>>>::empty());
            scan(&[], &config)
        } else {
            scan(files, &config)
        };
        let game_selected = if found.games.len() > 0 {
            found.games[0].clone()
        } else {
            Game::default()
        };
        Launcher {
            config,
            games: found.games,
            errors: found.errors,
            search_string: String::new(),
            game_selected,
            page: Page::Settings,
        }
    }

    /// Takes the titles and the failures of a scan of `files` in place of
    /// those of the scan before.
    pub fn rescan(&mut self, files: &[Option<String>])
        ensures
            final(self)@ == rescanned(old(self)@, file_views(files@)),
    {
        let found = scan(files, &self.config);
        self.games = found.games;
        self.errors = found.errors;
    }

    /// Takes the event `event` and says what the program has to do.
    pub fn handle(&mut self, event: Event) -> (r: Action)
        ensures
            (final(self)@, r@) == step(old(self)@, event@),
    {
        match event {
            Event::SearchEdited(text) => {
                self.search_string = text;
                Action::Nothing
            },
            Event::GameClicked(index) => {
                if index < self.games.len() {
                    self.game_selected = self.games[index].clone();
                }
                Action::Nothing
            },
            Event::PageToggled => {
                self.page = self.page.toggled();
                Action::Nothing
            },
            Event::SteamPathPicked(path) => {
                self.config.steam_path = path;
                Action::Nothing
            },
            Event::CachePathPicked(path) => {
                self.config.steam_game_cache_path = path;
                Action::Nothing
            },
            Event::SaveClicked => {
                Action::Save { contents: self.config.save(), root: self.config.steam_path.clone() }
            },
            Event::Scanned(files) => {
                self.rescan(files.as_slice());
                Action::Nothing
            },
            Event::PlayClicked => { Action::Launch { uri: self.game_selected.launch_uri() } },
        }
    }
}


/// A scan replaces the titles and the failures of the scan before: what the
/// state held of them has no part in what it holds afterwards.
pub proof fn lemma_rescan_replaces(
    state: LauncherView,
    games: Seq<GameView>,
    errors: Seq<ScanError>,
    files: Seq<Option<Seq<char>>>,
)
    ensures
        rescanned(LauncherView { games, errors, ..state }, files) == rescanned(state, files),
        rescanned(state, files).games == scanned_games(files, state.config),
        rescanned(state, files).errors == scanned_errors(files, state.config),
{
}

/// A second scan of the same files changes nothing.
pub proof fn lemma_rescan_twice(state: LauncherView, files: Seq<Option<Seq<char>>>)
    ensures
        rescanned(rescanned(state, files), files) == rescanned(state, files),
{
}

/// Changing the page twice leads back to the page.
pub proof fn lemma_toggle_twice(state: LauncherView)
    ensures
        step(step(state, EventView::PageToggled).0, EventView::PageToggled).0 == state,
{
}

/// No event but a scan changes the titles, and no event but the picking of
/// a directory changes the configuration.
pub proof fn lemma_step_keeps(state: LauncherView, event: EventView)
    ensures
        !(event is Scanned) ==> step(state, event).0.games == state.games && step(
            state,
            event,
        ).0.errors == state.errors,
        !(event is SteamPathPicked || event is CachePathPicked) ==> step(state, event).0.config
            == state.config,
        !(event is GameClicked) ==> step(state, event).0.game_selected == state.game_selected,
{
}

/// Only a click on the button that saves or on the button that plays asks
/// the program for anything.
pub proof fn lemma_step_asks(state: LauncherView, event: EventView)
    ensures
        step(state, event).1 is Save <==> event is SaveClicked,
        step(state, event).1 is Launch <==> event is PlayClicked,
{
}

} // verus!
