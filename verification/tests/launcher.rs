use game_launcher::config::Config;
use game_launcher::launcher::{Action, Event, Launcher, Page};
use game_launcher::manifest::{Game, ManifestError};
use game_launcher::scan::{ScanError, ScanFailure};

fn config() -> Config {
    Config { steam_path: "C:\\Steam".to_string(), steam_game_cache_path: "C:\\cache".to_string() }
}

fn file(text: &str) -> Option<String> {
    Some(text.to_string())
}

fn library() -> Vec<Option<String>> {
    vec![file("appid 10\nname one"), file("appid broken"), file("appid 30\nname three")]
}

fn names(launcher: &Launcher) -> Vec<&str> {
    launcher.games.iter().map(|g| g.name.as_str()).collect()
}

#[test]
fn new_starts_on_the_settings_page_with_the_first_title_selected() {
    let launcher = Launcher::new(config(), &library());
    assert_eq!(launcher.page, Page::Settings);
    assert_eq!(launcher.search_string, "");
    assert_eq!(launcher.config, config());
    assert_eq!(names(&launcher), vec!["one", "three"]);
    assert_eq!(launcher.game_selected, launcher.games[0]);
    assert_eq!(
        launcher.errors,
        vec![ScanError { index: 1, failure: ScanFailure::Manifest(ManifestError::AppId) }]
    );
}

#[test]
fn new_without_installation_path_scans_nothing() {
    let empty =
        Config { steam_path: "".to_string(), steam_game_cache_path: "C:\\cache".to_string() };
    let launcher = Launcher::new(empty, &library());
    assert!(launcher.games.is_empty());
    assert!(launcher.errors.is_empty());
    assert_eq!(launcher.game_selected, Game::default());
    assert_eq!(launcher.page, Page::Settings);
}

#[test]
fn new_without_titles_selects_the_blank_record() {
    let launcher = Launcher::new(config(), &[]);
    assert!(launcher.games.is_empty());
    assert_eq!(launcher.game_selected, Game::default());
    let launcher = Launcher::new(config(), &[file("appid x"), None]);
    assert!(launcher.games.is_empty());
    assert_eq!(launcher.errors.len(), 2);
    assert_eq!(launcher.game_selected, Game::default());
}

#[test]
fn page_toggle_goes_back_and_forth() {
    let mut launcher = Launcher::new(config(), &library());
    assert_eq!(launcher.page.label(), "Settings");
    assert_eq!(launcher.handle(Event::PageToggled), Action::Nothing);
    assert_eq!(launcher.page, Page::Main);
    assert_eq!(launcher.page.label(), "Main Page");
    assert_eq!(launcher.handle(Event::PageToggled), Action::Nothing);
    assert_eq!(launcher.page, Page::Settings);
    assert_eq!(Page::Settings.toggled(), Page::Main);
    assert_eq!(Page::Main.toggled(), Page::Settings);
}

#[test]
fn click_selects_the_title() {
    let mut launcher = Launcher::new(config(), &library());
    assert_eq!(launcher.handle(Event::GameClicked(1)), Action::Nothing);
    assert_eq!(launcher.game_selected.name, "three");
    assert_eq!(launcher.game_selected, launcher.games[1]);
    assert_eq!(launcher.handle(Event::GameClicked(0)), Action::Nothing);
    assert_eq!(launcher.game_selected.name, "one");
    assert_eq!(names(&launcher), vec!["one", "three"]);
}

#[test]
fn click_outside_the_list_changes_nothing() {
    let mut launcher = Launcher::new(config(), &library());
    let before = launcher.game_selected.clone();
    assert_eq!(launcher.handle(Event::GameClicked(2)), Action::Nothing);
    assert_eq!(launcher.game_selected, before);
    assert_eq!(launcher.handle(Event::GameClicked(usize::MAX)), Action::Nothing);
    assert_eq!(launcher.game_selected, before);
}

#[test]
fn search_text_is_kept() {
    let mut launcher = Launcher::new(config(), &library());
    assert_eq!(launcher.handle(Event::SearchEdited("thr".to_string())), Action::Nothing);
    assert_eq!(launcher.search_string, "thr");
    assert_eq!(names(&launcher), vec!["one", "three"]);
}

#[test]
fn picked_directories_go_into_the_configuration() {
    let mut launcher = Launcher::new(config(), &library());
    assert_eq!(launcher.handle(Event::SteamPathPicked("D:\\Games".to_string())), Action::Nothing);
    assert_eq!(launcher.config.steam_path, "D:\\Games");
    assert_eq!(launcher.config.steam_game_cache_path, "C:\\cache");
    assert_eq!(launcher.handle(Event::CachePathPicked("D:\\Art".to_string())), Action::Nothing);
    assert_eq!(launcher.config.steam_path, "D:\\Games");
    assert_eq!(launcher.config.steam_game_cache_path, "D:\\Art");
    assert_eq!(names(&launcher), vec!["one", "three"]);
}

#[test]
fn save_asks_for_the_file_and_a_scan() {
    let mut launcher = Launcher::new(config(), &library());
    launcher.handle(Event::SteamPathPicked("D:\\Games".to_string()));
    let action = launcher.handle(Event::SaveClicked);
    assert_eq!(
        action,
        Action::Save {
            contents: "D:\\Games\r\nC:\\cache".to_string(),
            root: "D:\\Games".to_string()
        }
    );
    assert_eq!(names(&launcher), vec!["one", "three"]);
}

#[test]
fn rescan_replaces_the_list() {
    let mut launcher = Launcher::new(config(), &library());
    let selected = launcher.game_selected.clone();
    let again = vec![file("appid 7\nname seven"), file("SizeOnDisk ?")];
    assert_eq!(launcher.handle(Event::Scanned(again.clone())), Action::Nothing);
    assert_eq!(names(&launcher), vec!["seven"]);
    assert_eq!(
        launcher.errors,
        vec![ScanError { index: 1, failure: ScanFailure::Manifest(ManifestError::Size) }]
    );
    assert_eq!(launcher.game_selected, selected);
    assert_eq!(launcher.handle(Event::Scanned(again)), Action::Nothing);
    assert_eq!(names(&launcher), vec!["seven"]);
    assert_eq!(launcher.errors.len(), 1);
    assert_eq!(launcher.handle(Event::Scanned(vec![])), Action::Nothing);
    assert!(launcher.games.is_empty());
    assert!(launcher.errors.is_empty());
}

#[test]
fn rescan_uses_the_configuration_as_picked() {
    let mut launcher = Launcher::new(config(), &[]);
    launcher.handle(Event::SteamPathPicked("D:\\Games".to_string()));
    launcher.handle(Event::CachePathPicked("D:\\Art".to_string()));
    launcher.rescan(&[file("appid 5\ninstalldir five")]);
    assert_eq!(launcher.games[0].path, "D:\\Games\\common\\five");
    assert_eq!(launcher.games[0].header, "D:\\Art/5_library_hero.jpg");
}

#[test]
fn play_asks_for_the_address_of_the_selected_title() {
    let mut launcher = Launcher::new(config(), &library());
    assert_eq!(
        launcher.handle(Event::PlayClicked),
        Action::Launch { uri: "steam://run/10".to_string() }
    );
    launcher.handle(Event::GameClicked(1));
    assert_eq!(
        launcher.handle(Event::PlayClicked),
        Action::Launch { uri: "steam://run/30".to_string() }
    );
    assert_eq!(launcher.game_selected.name, "three");
}

#[test]
fn play_without_a_title_asks_for_the_blank_record() {
    let mut launcher = Launcher::new(config(), &[]);
    assert_eq!(
        launcher.handle(Event::PlayClicked),
        Action::Launch { uri: "steam://run/0".to_string() }
    );
}
