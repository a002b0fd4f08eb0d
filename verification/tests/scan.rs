use game_launcher::config::Config;
use game_launcher::manifest::{Game, ManifestError};
use game_launcher::scan::{scan, ScanError, ScanFailure};

fn config() -> Config {
    Config { steam_path: "C:\\Steam".to_string(), steam_game_cache_path: "C:\\cache".to_string() }
}

fn file(text: &str) -> Option<String> {
    Some(text.to_string())
}

fn names(games: &[Game]) -> Vec<&str> {
    games.iter().map(|g| g.name.as_str()).collect()
}

#[test]
fn empty_directory_gives_an_empty_list() {
    let found = scan(&[], &config());
    assert!(found.games.is_empty());
    assert!(found.errors.is_empty());
}

#[test]
fn directory_without_valid_manifest_gives_an_empty_list() {
    let files = vec![file("appid x"), None, file("SizeOnDisk y")];
    let found = scan(&files, &config());
    assert!(found.games.is_empty());
    assert_eq!(
        found.errors,
        vec![
            ScanError { index: 0, failure: ScanFailure::Manifest(ManifestError::AppId) },
            ScanError { index: 1, failure: ScanFailure::Unreadable },
            ScanError { index: 2, failure: ScanFailure::Manifest(ManifestError::Size) },
        ]
    );
}

#[test]
fn every_manifest_gives_one_record_in_order() {
    let files =
        vec![file("appid 1\nname one"), file("appid 2\nname two"), file("appid 3\nname three")];
    let found = scan(&files, &config());
    assert_eq!(names(&found.games), vec!["one", "two", "three"]);
    assert!(found.errors.is_empty());
    for (game, text) in found.games.iter().zip(files.iter()) {
        assert_eq!(Ok(game.clone()), Game::from_manifest(text.as_ref().unwrap(), &config()));
    }
}

#[test]
fn malformed_number_does_not_stop_the_other_files() {
    let files = vec![
        file("appid 1\nname one"),
        file("appid broken\nname bad"),
        file("appid 3\nname three"),
        file("name sized\nSizeOnDisk 12GB"),
        file("appid 5\nname five"),
    ];
    let found = scan(&files, &config());
    assert_eq!(names(&found.games), vec!["one", "three", "five"]);
    assert_eq!(
        found.errors,
        vec![
            ScanError { index: 1, failure: ScanFailure::Manifest(ManifestError::AppId) },
            ScanError { index: 3, failure: ScanFailure::Manifest(ManifestError::Size) },
        ]
    );
    let without: Vec<Option<String>> =
        vec![file("appid 1\nname one"), file("appid 3\nname three"), file("appid 5\nname five")];
    assert_eq!(scan(&without, &config()).games, found.games);
}

#[test]
fn unreadable_file_is_reported_and_passed_over() {
    let files = vec![None, file("appid 2\nname two"), None];
    let found = scan(&files, &config());
    assert_eq!(names(&found.games), vec!["two"]);
    assert_eq!(
        found.errors,
        vec![
            ScanError { index: 0, failure: ScanFailure::Unreadable },
            ScanError { index: 2, failure: ScanFailure::Unreadable },
        ]
    );
}

#[test]
fn every_file_gives_a_record_or_an_error() {
    let files = vec![file(""), file("appid x"), None, file("{"), file("SizeOnDisk 1")];
    let found = scan(&files, &config());
    assert_eq!(found.games.len() + found.errors.len(), files.len());
    assert_eq!(found.games.len(), 3);
}

#[test]
fn file_that_is_no_manifest_gives_the_blank_record() {
    let found = scan(&[file("just some text\nof a file")], &config());
    assert_eq!(found.games.len(), 1);
    assert_eq!(found.games[0].appid, 0);
    assert_eq!(found.games[0].icon, "C:\\cache/0_icon.jpg");
}
