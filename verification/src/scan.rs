//! Reading the manifests of one installation directory into a list of
//! titles.
//!
//! The caller lists the directory and hands over the text of each file, or
//! `None` for a file that it could not read. A file that gives no record is
//! reported and does not touch the records of the others.

use crate::config::{Config, ConfigView};
use crate::manifest::{parsed_manifest, Game, GameView, ManifestError};
use vstd::prelude::*;

verus! {

/// Why a file gives no record.
#[derive(Clone, Copy, Debug, PartialEq, Eq, Structural)]
pub enum ScanFailure {
    /// The file could not be read.
    Unreadable,
    /// The file was read and is no manifest.
    Manifest(ManifestError),
}

/// A file that gives no record.
#[derive(Clone, Copy, Debug, PartialEq, Eq, Structural)]
pub struct ScanError {
    /// The position of the file among the files handed over.
    pub index: usize,
    /// Why it gives no record.
    pub failure: ScanFailure,
}

/// What one scan found.
#[derive(Debug, PartialEq, Eq)]
pub struct Scan {
    /// The records of the files that gave one, in the order of the files.
    pub games: Vec<Game>,
    /// The files that gave none, in the order of the files.
    pub errors: Vec<ScanError>,
}

/// What a list of records holds.
pub open spec fn game_views(games: Seq<Game>) -> Seq<GameView> {
    Seq::new(games.len(), |i: int| games[i]@)
}

/// What a list of files holds.
pub open spec fn file_views(files: Seq<Option<String>>) -> Seq<Option<Seq<char>>> {
    Seq::new(
        files.len(),
        |i: int|
            match files[i] {
                Some(text) => Some(text@),
                None => None,
            },
    )
}

/// The record that `file` gives under `config`, or why it gives none.
pub open spec fn file_outcome(file: Option<Seq<char>>, config: ConfigView) -> Result<
    GameView,
    ScanFailure,
> {
    match file {
        Some(text) => match parsed_manifest(text, config) {
            Ok(game) => Ok(game),
            Err(e) => Err(ScanFailure::Manifest(e)),
        },
        None => Err(ScanFailure::Unreadable),
    }
}

/// The records of those of `files` that give one, in order.
pub open spec fn scanned_games(files: Seq<Option<Seq<char>>>, config: ConfigView) -> Seq<GameView>
    decreases files.len(),
{
    if files.len() == 0 {
        Seq::empty()
    } else {
        let before = scanned_games(files.drop_last(), config);
        match file_outcome(files.last(), config) {
            Ok(game) => before.push(game),
            Err(_) => before,
        }
    }
}

/// Those of `files` that give no record, in order, each with its position.
pub open spec fn scanned_errors(files: Seq<Option<Seq<char>>>, config: ConfigView) -> Seq<
    ScanError,
>
    decreases files.len(),
{
    if files.len() == 0 {
        Seq::empty()
    } else {
        let before = scanned_errors(files.drop_last(), config);
        match file_outcome(files.last(), config) {
            Ok(_) => before,
            Err(failure) => before.push(
                ScanError { index: (files.len() - 1) as usize, failure },
            ),
        }
    }
}

/// Reads every file of `files` as a manifest under `config`.
pub fn scan(files: &[Option<String>], config: &Config) -> (r: Scan)
    ensures
        game_views(r.games@) == scanned_games(file_views(files@), config@),
        r.errors@ == scanned_errors(file_views(files@), config@),
{
    let mut games: Vec<Game> = Vec::new();
    let mut errors: Vec<ScanError> = Vec::new();
    let ghost all = file_views(files@);
    let mut i: usize = 0;
    while i < files.len()
        invariant
            i <= files.len(),
            all == file_views(files@),
            game_views(games@) == scanned_games(all.take(i as int), config@),
            errors@ == scanned_errors(all.take(i as int), config@),
        decreases files.len() - i,
    {
        let ghost before = game_views(games@);
        proof {
            assert(all.take(i + 1).drop_last() == all.take(i as int));
            assert(all.take(i + 1).last() == all[i as int]);
        }
        match &files[i] {
            Some(text) => match Game::from_manifest(text.as_str(), config) {
                Ok(game) => {
                    games.push(game);
                    assert(game_views(games@) == before.push(game@));
                },
                Err(e) => {
                    errors.push(ScanError { index: i, failure: ScanFailure::Manifest(e) });
                },
            },
            None => {
                errors.push(ScanError { index: i, failure: ScanFailure::Unreadable });
            },
        }
        i += 1;
    }
    assert(all.take(files.len() as int) == all);
    Scan { games, errors }
}

/// The records of a list of files put together from two lists are the
/// records of the first list, then those of the second.
pub proof fn lemma_scanned_games_concat(
    a: Seq<Option<Seq<char>>>,
    b: Seq<Option<Seq<char>>>,
    config: ConfigView,
)
    ensures
        scanned_games(a + b, config) == scanned_games(a, config) + scanned_games(b, config),
    decreases b.len(),
{
    if b.len() == 0 {
        assert(a + b == a);
    } else {
        assert((a + b).drop_last() == a + b.drop_last());
        assert((a + b).last() == b.last());
        lemma_scanned_games_concat(a, b.drop_last(), config);
    }
}

/// Every file is accounted for once: it gives a record or it is reported.
pub proof fn lemma_scan_accounts_for_every_file(
    files: Seq<Option<Seq<char>>>,
    config: ConfigView,
)
    ensures
        scanned_games(files, config).len() + scanned_errors(files, config).len() == files.len(),
    decreases files.len(),
{
    if files.len() > 0 {
        lemma_scan_accounts_for_every_file(files.drop_last(), config);
    }
}

/// Where no file gives a record, the list of titles is empty. This holds of
/// an empty directory too.
pub proof fn lemma_scan_without_manifest_is_empty(
    files: Seq<Option<Seq<char>>>,
    config: ConfigView,
)
    requires
        forall|i: int| 0 <= i < files.len() ==> file_outcome(#[trigger] files[i], config) is Err,
    ensures
        scanned_games(files, config) == Seq::<GameView>::empty(),
    decreases files.len(),
{
    if files.len() > 0 {
        assert(files.last() == files[files.len() - 1]);
        assert forall|i: int| 0 <= i < files.drop_last().len() implies file_outcome(
            #[trigger] files.drop_last()[i],
            config,
        ) is Err by {
            assert(files.drop_last()[i] == files[i]);
        }
        lemma_scan_without_manifest_is_empty(files.drop_last(), config);
    }
}

/// A file that gives no record does not touch the records of the others:
/// the titles are those that a scan finds without that file.
pub proof fn lemma_failed_file_spares_the_others(
    files: Seq<Option<Seq<char>>>,
    config: ConfigView,
    i: int,
)
    requires
        0 <= i < files.len(),
        file_outcome(files[i], config) is Err,
    ensures
        scanned_games(files, config) == scanned_games(files.remove(i), config),
{
    let before = files.take(i);
    let one = seq![files[i]];
    let after = files.skip(i + 1);
    assert(files == before + one + after);
    assert(files.remove(i) == before + after);
    assert(one.drop_last() == Seq::<Option<Seq<char>>>::empty());
    assert(scanned_games(one.drop_last(), config) == Seq::<GameView>::empty());
    assert(one.last() == files[i]);
    assert(scanned_games(one, config) == Seq::<GameView>::empty());
    lemma_scanned_games_concat(before, one, config);
    lemma_scanned_games_concat(before + one, after, config);
    lemma_scanned_games_concat(before, after, config);
}

/// Every title of a scan is the record of one of the files, and the titles
/// stand in the order of their files.
pub proof fn lemma_scanned_games_come_from_files(
    files: Seq<Option<Seq<char>>>,
    config: ConfigView,
    k: int,
) -> (i: int)
    requires
        0 <= k < scanned_games(files, config).len(),
    ensures
        0 <= i < files.len(),
        file_outcome(files[i], config) == Ok::<GameView, ScanFailure>(
            scanned_games(files, config)[k],
        ),
        scanned_games(files.take(i), config).len() == k,
    decreases files.len(),
{
    lemma_scan_accounts_for_every_file(files.drop_last(), config);
    let before = scanned_games(files.drop_last(), config);
    if k < before.len() {
        let i = lemma_scanned_games_come_from_files(files.drop_last(), config, k);
        assert(files.drop_last().take(i) == files.take(i));
        i
    } else {
        assert(files.take(files.len() - 1) == files.drop_last());
        files.len() - 1
    }
}

} // verus!
