//! The record of an installed title and the manifest text it is read from.
//!
//! A manifest is read line by line. A line of two or more words is a field:
//! its first word, without the quotation marks at its ends, is the key; the
//! other words, put together with one space between each two and then freed
//! of the quotation marks at the ends, are the value. Four keys are known;
//! a field with any other key, and a line of fewer than two words, says
//! nothing. What follows from these rules is stated and proved in [`laws`].

use crate::config::{Config, ConfigView};
use crate::decimal::{
    parse_i64, parse_u64, parsed_i64, parsed_u64, render_i64, render_u64, rendered_int,
    rendered_nat,
};
use crate::text::{
    append, chars_of, equal, join, joined, pieces, split, split_whitespace, string_of, trim,
    trimmed, views, words, CharClass,
};
pub mod laws;

use vstd::prelude::*;
use vstd::slice::slice_subrange;

verus! {

/// An installed title.
#[derive(Debug, PartialEq, Eq)]
pub struct Game {
    /// The number that identifies the title.
    pub appid: i64,
    /// The size on disk in tenths of a gigabyte of 2^30 bytes.
    pub size_tenths: u64,
    /// The name to show.
    pub name: String,
    /// The directory that the title is installed in.
    pub path: String,
    /// The file of the title's icon in the image cache.
    pub icon: String,
    /// The file of the title's logo in the image cache.
    pub logo: String,
    /// The file of the title's header image in the image cache.
    pub header: String,
}

/// What a [`Game`] holds.
pub ghost struct GameView {
    pub appid: i64,
    pub size_tenths: u64,
    pub name: Seq<char>,
    pub path: Seq<char>,
    pub icon: Seq<char>,
    pub logo: Seq<char>,
    pub header: Seq<char>,
}

impl View for Game {
    type V = GameView;

    open spec fn view(&self) -> GameView {
        GameView {
            appid: self.appid,
            size_tenths: self.size_tenths,
            name: self.name@,
            path: self.path@,
            icon: self.icon@,
            logo: self.logo@,
            header: self.header@,
        }
    }
}

/// Why a manifest gives no record.
#[derive(Clone, Copy, Debug, PartialEq, Eq, Structural)]
pub enum ManifestError {
    /// The value of an `appid` field is no signed number of 64 bits.
    AppId,
    /// The value of a `SizeOnDisk` field is no unsigned number of 64 bits.
    Size,
}

/// The record with the number 0, the size 0 and every text empty.
pub open spec fn blank() -> GameView {
    GameView {
        appid: 0,
        size_tenths: 0,
        name: Seq::empty(),
        path: Seq::empty(),
        icon: Seq::empty(),
        logo: Seq::empty(),
        header: Seq::empty(),
    }
}

/// The quotation mark, which is taken off the ends of manifests, keys and
/// values.
pub open spec fn quote() -> CharClass {
    CharClass::Exactly('"')
}

/// The tenth of a gigabyte nearest to `bytes`, the greater one where two are
/// equally near. A gigabyte is 2^30 bytes.
pub open spec fn tenths_of_gib(bytes: nat) -> nat {
    (bytes * 10 + 0x2000_0000) / 0x4000_0000
}

/// The key and the value of the field that `line` is, if it is one.
pub open spec fn field_of(line: Seq<char>) -> Option<(Seq<char>, Seq<char>)> {
    let w = words(line);
    if w.len() >= 2 {
        Some((trimmed(w[0], quote()), trimmed(joined(w.skip(1), seq![' ']), quote())))
    } else {
        None
    }
}

/// The directory of the title installed as `dir` under the root `root`.
pub open spec fn install_path(root: Seq<char>, dir: Seq<char>) -> Seq<char> {
    root + seq!['\\'] + "common"@ + seq!['\\'] + dir
}

/// The file in the image cache `cache` of the image of title `appid` whose
/// name ends in `suffix`.
pub open spec fn image_path(cache: Seq<char>, appid: i64, suffix: Seq<char>) -> Seq<char> {
    cache + seq!['/'] + rendered_int(appid as int) + suffix
}

/// The record `game` after the field of key `key` and value `value`, for
/// titles installed under `root`.
pub open spec fn with_field(game: GameView, root: Seq<char>, key: Seq<char>, value: Seq<char>)
    -> Result<GameView, ManifestError> {
    if key == "appid"@ {
        match parsed_i64(value) {
            Some(appid) => Ok(GameView { appid, ..game }),
            None => Err(ManifestError::AppId),
        }
    } else if key == "SizeOnDisk"@ {
        match parsed_u64(value) {
            Some(bytes) => Ok(
                GameView { size_tenths: tenths_of_gib(bytes as nat) as u64, ..game },
            ),
            None => Err(ManifestError::Size),
        }
    } else if key == "name"@ {
        Ok(GameView { name: value, ..game })
    } else if key == "installdir"@ {
        Ok(GameView { path: install_path(root, value), ..game })
    } else {
        Ok(game)
    }
}

/// The record `game` after the line `line`.
pub open spec fn with_line(game: GameView, root: Seq<char>, line: Seq<char>) -> Result<
    GameView,
    ManifestError,
> {
    match field_of(line) {
        Some((key, value)) => with_field(game, root, key, value),
        None => Ok(game),
    }
}

/// The record `game` after the lines `lines`, taken in order up to the
/// first that fails.
pub open spec fn with_lines(game: GameView, root: Seq<char>, lines: Seq<Seq<char>>) -> Result<
    GameView,
    ManifestError,
>
    decreases lines.len(),
{
    if lines.len() == 0 {
        Ok(game)
    } else {
        match with_line(game, root, lines[0]) {
            Ok(next) => with_lines(next, root, lines.drop_first()),
            Err(e) => Err(e),
        }
    }
}

/// The record `game` with the files of its three images in `cache`.
pub open spec fn with_images(game: GameView, cache: Seq<char>) -> GameView {
    GameView {
        icon: image_path(cache, game.appid, "_icon.jpg"@),
        header: image_path(cache, game.appid, "_library_hero.jpg"@),
        logo: image_path(cache, game.appid, "_logo.jpg"@),
        ..game
    }
}

/// The lines of the manifest `contents`: the parts between its line feeds,
/// the quotation marks at either end of the whole left aside.
pub open spec fn manifest_lines(contents: Seq<char>) -> Seq<Seq<char>> {
    pieces(trimmed(contents, quote()), seq!['\n'])
}

/// The record that the manifest `contents` gives under the configuration
/// `config`, or the first failure among its lines.
pub open spec fn parsed_manifest(contents: Seq<char>, config: ConfigView) -> Result<
    GameView,
    ManifestError,
> {
    match with_lines(blank(), config.steam_path, manifest_lines(contents)) {
        Ok(game) => Ok(with_images(game, config.steam_game_cache_path)),
        Err(e) => Err(e),
    }
}

/// A size of `tenths` tenths of a gigabyte, written in gigabytes: the whole
/// gigabytes, then, unless it is zero, a point and the one digit after it.
pub open spec fn size_text_of(tenths: u64) -> Seq<char> {
    if tenths % 10 == 0 {
        rendered_nat((tenths / 10) as nat)
    } else {
        rendered_nat((tenths / 10) as nat) + seq!['.'] + rendered_nat((tenths % 10) as nat)
    }
}

/// The address under which the image file `file` is loaded.
pub open spec fn file_uri(file: Seq<char>) -> Seq<char> {
    "file://"@ + file
}

/// The address that starts the title `appid`.
pub open spec fn run_uri(appid: i64) -> Seq<char> {
    "steam://run/"@ + rendered_int(appid as int)
}

/// What the result of reading a manifest holds.
pub open spec fn outcome_view(r: Result<Game, ManifestError>) -> Result<GameView, ManifestError> {
    match r {
        Ok(game) => Ok(game@),
        Err(e) => Err(e),
    }
}

/// The tenth of a gigabyte nearest to `bytes`.
pub fn size_in_tenths(bytes: u64) -> (t: u64)
    ensures
        t == tenths_of_gib(bytes as nat),
{
    let whole: u64 = bytes / 0x4000_0000;
    let rest: u64 = bytes % 0x4000_0000;
    whole * 10 + (rest * 10 + 0x2000_0000) / 0x4000_0000
}

/// The key and the value of the field that `line` is, if it is one.
pub fn field(line: &[char]) -> (r: Option<(Vec<char>, Vec<char>)>)
    ensures
        match r {
            Some((key, value)) => field_of(line@) == Some((key@, value@)),
            None => field_of(line@) is None,
        },
{
    let w = split_whitespace(line);
    if w.len() < 2 {
        return None;
    }
    let mut space: Vec<char> = Vec::new();
    space.push(' ');
    let rest = slice_subrange(w.as_slice(), 1, w.len());
    assert(views(rest@) == views(w@).skip(1));
    let joined_rest = join(rest, space.as_slice());
    assert(space@ == seq![' ']);
    let key = trim(w[0].as_slice(), CharClass::Exactly('"'));
    let value = trim(joined_rest.as_slice(), CharClass::Exactly('"'));
    Some((key, value))
}

/// The file in the image cache `cache` of the image of title `appid` whose
/// name ends in `suffix`.
fn image_file(cache: &[char], appid: i64, suffix: &str) -> (r: String)
    ensures
        r@ == image_path(cache@, appid, suffix@),
{
    let mut out: Vec<char> = Vec::new();
    append(&mut out, cache);
    out.push('/');
    let digits = render_i64(appid);
    append(&mut out, digits.as_slice());
    let tail = chars_of(suffix);
    append(&mut out, tail.as_slice());
    string_of(out.as_slice())
}

impl Default for Game {
    /// The record with the number 0, the size 0 and every text empty.
    fn default() -> (r: Game)
        ensures
            r@ == blank(),
    {
        Game {
            appid: 0,
            size_tenths: 0,
            name: String::new(),
            path: String::new(),
            icon: String::new(),
            logo: String::new(),
            header: String::new(),
        }
    }
}

impl Clone for Game {
    fn clone(&self) -> (r: Game)
        ensures
            r@ == self@,
    {
        Game {
            appid: self.appid,
            size_tenths: self.size_tenths,
            name: self.name.clone(),
            path: self.path.clone(),
            icon: self.icon.clone(),
            logo: self.logo.clone(),
            header: self.header.clone(),
        }
    }
}

impl Game {
    /// The size on disk in gigabytes, as it is shown.
    pub fn size_text(&self) -> (r: String)
        ensures
            r@ == size_text_of(self.size_tenths),
    {
        let mut out = render_u64(self.size_tenths / 10);
        if self.size_tenths % 10 != 0 {
            out.push('.');
            let digit = render_u64(self.size_tenths % 10);
            append(&mut out, digit.as_slice());
        }
        string_of(out.as_slice())
    }

    /// The address under which the header image is loaded.
    pub fn header_uri(&self) -> (r: String)
        ensures
            r@ == file_uri(self@.header),
    {
        let mut out = chars_of("file://");
        let file = chars_of(self.header.as_str());
        append(&mut out, file.as_slice());
        string_of(out.as_slice())
    }

    /// The address that starts the title.
    pub fn launch_uri(&self) -> (r: String)
        ensures
            r@ == run_uri(self.appid),
    {
        let mut out = chars_of("steam://run/");
        let digits = render_i64(self.appid);
        append(&mut out, digits.as_slice());
        string_of(out.as_slice())
    }

    /// Reads the record of a title from the text of its manifest, for the
    /// installation root and the image cache of `config`.
    ///
    /// A manifest fails at its first `appid` or `SizeOnDisk` field whose
    /// value is no number. Otherwise each known field sets its part of the
    /// record, a later one replacing an earlier one, and the three image
    /// files follow from the number.
    pub fn from_manifest(contents: &str, config: &Config) -> (r: Result<Game, ManifestError>)
        ensures
            outcome_view(r) == parsed_manifest(contents@, config@),
    {
        let root = chars_of(config.steam_path.as_str());
        let cache = chars_of(config.steam_game_cache_path.as_str());
        let text = chars_of(contents);
        let body = trim(text.as_slice(), CharClass::Exactly('"'));
        let mut feed: Vec<char> = Vec::new();
        feed.push('\n');
        assert(feed@ == seq!['\n']);
        let lines = split(body.as_slice(), feed.as_slice());
        let appid_key = chars_of("appid");
        let size_key = chars_of("SizeOnDisk");
        let name_key = chars_of("name");
        let dir_key = chars_of("installdir");
        let common = chars_of("common");

        let mut appid: i64 = 0;
        let mut size_tenths: u64 = 0;
        let mut name: Vec<char> = Vec::new();
        let mut path: Vec<char> = Vec::new();
        let ghost all = views(lines@);
        let ghost mut game = blank();
        let mut i: usize = 0;
        assert(all.skip(0) == all);
        while i < lines.len()
            invariant
                i <= lines.len(),
                all == views(lines@),
                all == manifest_lines(contents@),
                root@ == config@.steam_path,
                appid_key@ == "appid"@,
                size_key@ == "SizeOnDisk"@,
                name_key@ == "name"@,
                dir_key@ == "installdir"@,
                common@ == "common"@,
                game == (GameView { appid, size_tenths, name: name@, path: path@, ..blank() }),
                with_lines(blank(), root@, all) == with_lines(game, root@, all.skip(i as int)),
            decreases lines.len() - i,
        {
            let ghost rest = all.skip(i as int);
            assert(rest[0] == lines@[i as int]@);
            assert(rest.drop_first() == all.skip(i + 1));
            match field(lines[i].as_slice()) {
                Some((key, value)) => {
                    if equal(key.as_slice(), appid_key.as_slice()) {
                        match parse_i64(value.as_slice()) {
                            Some(v) => {
                                appid = v;
                            },
                            None => {
                                return Err(ManifestError::AppId);
                            },
                        }
                    } else if equal(key.as_slice(), size_key.as_slice()) {
                        match parse_u64(value.as_slice()) {
                            Some(bytes) => {
                                size_tenths = size_in_tenths(bytes);
                            },
                            None => {
                                return Err(ManifestError::Size);
                            },
                        }
                    } else if equal(key.as_slice(), name_key.as_slice()) {
                        name = value;
                    } else if equal(key.as_slice(), dir_key.as_slice()) {
                        let mut p: Vec<char> = Vec::new();
                        append(&mut p, root.as_slice());
                        p.push('\\');
                        append(&mut p, common.as_slice());
                        p.push('\\');
                        append(&mut p, value.as_slice());
                        assert(p@ == install_path(root@, value@));
                        path = p;
                    }
                },
                None => {},
            }
            proof {
                game = GameView { appid, size_tenths, name: name@, path: path@, ..blank() };
            }
            i += 1;
        }
        Ok(
            Game {
                appid,
                size_tenths,
                name: string_of(name.as_slice()),
                path: string_of(path.as_slice()),
                icon: image_file(cache.as_slice(), appid, "_icon.jpg"),
                logo: image_file(cache.as_slice(), appid, "_logo.jpg"),
                header: image_file(cache.as_slice(), appid, "_library_hero.jpg"),
            },
        )
    }
}

} // verus!
