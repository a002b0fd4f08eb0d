//! The launcher's configuration and the text it is kept in.
//!
//! The text holds the installation path on its first line and the path of
//! the image cache on its second; the two lines are separated by a carriage
//! return and a line feed. A text of one line holds the installation path
//! alone.

use crate::text::laws::{
    all_of, lemma_first_match_at, lemma_first_match_is_first, lemma_trimmed_of_padded,
    lemma_trimmed_unchanged,
};
use crate::text::{
    append, chars_of, first_match, lemma_pieces_nonempty, occurs_at, pieces, split, string_of,
    trim, trimmed, views, CharClass,
};
use vstd::prelude::*;

verus! {

/// Where the titles are installed and where their images are cached.
#[derive(Debug, PartialEq, Eq)]
pub struct Config {
    /// The directory that holds one manifest file for each installed title.
    pub steam_path: String,
    /// The directory that holds the images of the titles.
    pub steam_game_cache_path: String,
}

/// What a [`Config`] holds.
pub ghost struct ConfigView {
    pub steam_path: Seq<char>,
    pub steam_game_cache_path: Seq<char>,
}

impl View for Config {
    type V = ConfigView;

    open spec fn view(&self) -> ConfigView {
        ConfigView {
            steam_path: self.steam_path@,
            steam_game_cache_path: self.steam_game_cache_path@,
        }
    }
}

/// The separator of the two lines of a configuration text.
pub open spec fn line_break() -> Seq<char> {
    seq!['\r', '\n']
}

/// The configuration that the text `text` holds: its lines, white space at
/// either end of the text left aside. A missing line stands for an empty
/// path, and lines after the second are not read.
pub open spec fn loaded(text: Seq<char>) -> ConfigView {
    let lines = pieces(trimmed(text, CharClass::Whitespace), line_break());
    ConfigView {
        steam_path: lines[0],
        steam_game_cache_path: if lines.len() >= 2 {
            lines[1]
        } else {
            Seq::empty()
        },
    }
}

/// The text that holds the configuration `config`.
pub open spec fn saved(config: ConfigView) -> Seq<char> {
    config.steam_path + line_break() + config.steam_game_cache_path
}

impl Default for Config {
    /// The configuration with two empty paths.
    fn default() -> (r: Config)
        ensures
            r@.steam_path == Seq::<char>::empty(),
            r@.steam_game_cache_path == Seq::<char>::empty(),
    {
        Config { steam_path: String::new(), steam_game_cache_path: String::new() }
    }
}

impl Clone for Config {
    fn clone(&self) -> (r: Config)
        ensures
            r@ == self@,
    {
        Config {
            steam_path: self.steam_path.clone(),
            steam_game_cache_path: self.steam_game_cache_path.clone(),
        }
    }
}

impl Config {
    /// Reads a configuration from the text of its file. An empty text gives
    /// the configuration with two empty paths.
    pub fn load(text: &str) -> (r: Config)
        ensures
            r@ == loaded(text@),
    {
        let chars = chars_of(text);
        let body = trim(chars.as_slice(), CharClass::Whitespace);
        let mut separator: Vec<char> = Vec::new();
        separator.push('\r');
        separator.push('\n');
        assert(separator@ == line_break());
        let lines = split(body.as_slice(), separator.as_slice());
        proof {
            lemma_pieces_nonempty(body@, separator@);
            assert(views(lines@).len() == lines@.len());
            assert(views(lines@)[0] == lines@[0]@);
        }
        let steam_path = string_of(lines[0].as_slice());
        let steam_game_cache_path = if lines.len() >= 2 {
            assert(views(lines@)[1] == lines@[1]@);
            string_of(lines[1].as_slice())
        } else {
            String::new()
        };
        Config { steam_path, steam_game_cache_path }
    }

    /// Writes the configuration as the text of its file.
    pub fn save(&self) -> (r: String)
        ensures
            r@ == saved(self@),
    {
        let mut out = chars_of(self.steam_path.as_str());
        out.push('\r');
        out.push('\n');
        let cache = chars_of(self.steam_game_cache_path.as_str());
        append(&mut out, cache.as_slice());
        assert(out@ == saved(self@));
        string_of(out.as_slice())
    }
}

/// Whether `path` can be kept as a line of a configuration text: it neither
/// starts nor ends with white space, and it holds no line separator.
pub open spec fn is_line(path: Seq<char>) -> bool {
    &&& trimmed(path, CharClass::Whitespace) == path
    &&& first_match(path, line_break()) is None
}

/// A text of white space alone, and so the empty text, holds the
/// configuration with two empty paths.
pub proof fn lemma_load_blank(text: Seq<char>)
    requires
        all_of(text, CharClass::Whitespace),
    ensures
        loaded(text).steam_path == Seq::<char>::empty(),
        loaded(text).steam_game_cache_path == Seq::<char>::empty(),
{
    let none = Seq::<char>::empty();
    assert(text == none + none + text);
    assert(trimmed(none, CharClass::Whitespace) == none);
    lemma_trimmed_of_padded(none, none, text, CharClass::Whitespace);
    assert(pieces(none, line_break()) == seq![none]);
}

/// The line separator stands behind a first line and nowhere before.
proof fn lemma_separator_after_line(a: Seq<char>, b: Seq<char>)
    requires
        is_line(a),
    ensures
        first_match(a + line_break() + b, line_break()) == Some(a.len() as int),
{
    let pat = line_break();
    let text = a + pat + b;
    let n = a.len() as int;
    assert(occurs_at(text, pat, n)) by {
        assert(text.subrange(n, n + 2) == pat);
    }
    assert(n > 0 ==> a[n - 1] != '\r') by {
        lemma_trimmed_unchanged(a, CharClass::Whitespace);
    }
    assert forall|j: int| 0 <= j < n implies !occurs_at(text, pat, j) by {
        if occurs_at(text, pat, j) {
            let found = text.subrange(j, j + 2);
            assert(found[0] == '\r');
            assert(text[j] == a[j]);
            if j + 2 <= n {
                assert(a.subrange(j, j + 2) == found);
                assert(occurs_at(a, pat, j));
                lemma_first_match_is_first(a, pat);
            }
        }
    }
    lemma_first_match_at(text, pat, n);
}

/// Loading what was saved gives the configuration back, where both paths
/// can be kept as lines and the second is empty if the first is.
pub proof fn lemma_load_saved(config: ConfigView)
    requires
        is_line(config.steam_path),
        is_line(config.steam_game_cache_path),
        config.steam_path.len() == 0 ==> config.steam_game_cache_path.len() == 0,
    ensures
        loaded(saved(config)) == config,
{
    let a = config.steam_path;
    let b = config.steam_game_cache_path;
    let pat = line_break();
    let white = CharClass::Whitespace;
    let text = a + pat + b;
    if b.len() > 0 {
        assert(trimmed(text, white) == text) by {
            lemma_trimmed_unchanged(a, white);
            lemma_trimmed_unchanged(b, white);
            assert(text[0] == a[0]);
            assert(text.last() == b.last());
            lemma_trimmed_unchanged(text, white);
        }
        lemma_separator_after_line(a, b);
        assert(text.take(a.len() as int) == a);
        assert(text.skip(a.len() as int + 2) == b);
        assert(pieces(b, pat) == seq![b]);
        assert(pieces(text, pat) == seq![a] + seq![b]);
    } else {
        assert(trimmed(text, white) == a) by {
            assert(all_of(pat, white));
            assert(text == Seq::<char>::empty() + a + pat);
            lemma_trimmed_of_padded(Seq::empty(), a, pat, white);
        }
        assert(pieces(a, pat) == seq![a]);
        assert(b == Seq::<char>::empty());
    }
}

} // verus!
