//! What reading a manifest means: when it gives a record, what the record
//! holds, and which lines have no part in it.

use crate::config::ConfigView;
use crate::decimal::{parsed_i64, parsed_u64};
use crate::manifest::{
    blank, field_of, image_path, install_path, manifest_lines, parsed_manifest, quote,
    tenths_of_gib, with_field, with_line, with_lines, GameView, ManifestError,
};
use crate::text::laws::{
    all_of, is_word, lemma_pieces_of_joined, lemma_trimmed_end, lemma_trimmed_end_after,
    lemma_trimmed_of_padded, lemma_trimmed_start, lemma_trimmed_start_before,
    lemma_words_around_gap, lemma_words_of_one_word, lemma_words_of_padded, single_spaced,
};
use crate::text::{joined, lemma_joined_push, trimmed, trimmed_end, trimmed_start, words, CharClass};
use vstd::prelude::*;

verus! {

/// The size that is kept is within half a tenth of a gigabyte of the size
/// in bytes, and the greater one where two are equally near.
pub proof fn lemma_tenths_is_nearest(bytes: nat)
    ensures
        tenths_of_gib(bytes) * 0x4000_0000 - 0x2000_0000 <= bytes * 10 < tenths_of_gib(bytes)
            * 0x4000_0000 + 0x2000_0000,
{
}

/// The size of any number of bytes that 64 bits hold is kept in 64 bits.
pub proof fn lemma_tenths_fit(bytes: u64)
    ensures
        tenths_of_gib(bytes as nat) <= u64::MAX,
{
}

/// The four known keys differ from each other.
pub proof fn lemma_keys_differ()
    ensures
        "appid"@ != "SizeOnDisk"@,
        "appid"@ != "name"@,
        "appid"@ != "installdir"@,
        "SizeOnDisk"@ != "name"@,
        "SizeOnDisk"@ != "installdir"@,
        "name"@ != "installdir"@,
{
    reveal_strlit("appid");
    reveal_strlit("SizeOnDisk");
    reveal_strlit("name");
    reveal_strlit("installdir");
    assert("appid"@.len() == 5);
    assert("name"@.len() == 4);
    assert("SizeOnDisk"@.len() == 10);
    assert("SizeOnDisk"@[0] == 'S');
    assert("installdir"@[0] == 'i');
}

/// Whether `line` says nothing: it is no field, or a field whose key is none
/// of the four that are known.
pub open spec fn says_nothing(line: Seq<char>) -> bool {
    match field_of(line) {
        Some((key, _)) => {
            &&& key != "appid"@
            &&& key != "SizeOnDisk"@
            &&& key != "name"@
            &&& key != "installdir"@
        },
        None => true,
    }
}

/// A field with an unknown key leaves the record as it is.
pub proof fn lemma_unknown_key_keeps_record(
    game: GameView,
    root: Seq<char>,
    key: Seq<char>,
    value: Seq<char>,
)
    requires
        key != "appid"@,
        key != "SizeOnDisk"@,
        key != "name"@,
        key != "installdir"@,
    ensures
        with_field(game, root, key, value) == Ok::<GameView, ManifestError>(game),
{
}

/// A line that says nothing leaves the record as it is.
pub proof fn lemma_silent_line_keeps_record(game: GameView, root: Seq<char>, line: Seq<char>)
    requires
        says_nothing(line),
    ensures
        with_line(game, root, line) == Ok::<GameView, ManifestError>(game),
{
}

/// A line that says nothing can be left out: the lines give the same with
/// it and without it.
pub proof fn lemma_silent_line_can_be_left_out(
    game: GameView,
    root: Seq<char>,
    lines: Seq<Seq<char>>,
    i: int,
)
    requires
        0 <= i < lines.len(),
        says_nothing(lines[i]),
    ensures
        with_lines(game, root, lines.remove(i)) == with_lines(game, root, lines),
    decreases lines.len(),
{
    if i == 0 {
        assert(lines.remove(0) == lines.drop_first());
    } else {
        assert(lines.remove(i)[0] == lines[0]);
        assert(lines.remove(i).drop_first() == lines.drop_first().remove(i - 1));
        match with_line(game, root, lines[0]) {
            Ok(next) => {
                lemma_silent_line_can_be_left_out(next, root, lines.drop_first(), i - 1);
            },
            Err(_) => {},
        }
    }
}

/// The failure of `line`, if it is a field that fails.
pub open spec fn line_failure(line: Seq<char>) -> Option<ManifestError> {
    match field_of(line) {
        Some((key, value)) => if key == "appid"@ && parsed_i64(value) is None {
            Some(ManifestError::AppId)
        } else if key == "SizeOnDisk"@ && parsed_u64(value) is None {
            Some(ManifestError::Size)
        } else {
            None
        },
        None => None,
    }
}

/// Whether a line fails, and how, depends on the line alone.
pub proof fn lemma_line_fails_by_itself(game: GameView, root: Seq<char>, line: Seq<char>)
    ensures
        match line_failure(line) {
            Some(e) => with_line(game, root, line) == Err::<GameView, ManifestError>(e),
            None => with_line(game, root, line) is Ok,
        },
{
    lemma_keys_differ();
}

/// Lines give a record if and only if none of them fails; otherwise they
/// give the failure of the first line that fails.
pub proof fn lemma_lines_fail_at_first_failure(
    game: GameView,
    root: Seq<char>,
    lines: Seq<Seq<char>>,
)
    ensures
        match with_lines(game, root, lines) {
            Ok(_) => forall|i: int|
                0 <= i < lines.len() ==> line_failure(#[trigger] lines[i]) is None,
            Err(e) => exists|i: int|
                {
                    &&& 0 <= i < lines.len()
                    &&& line_failure(#[trigger] lines[i]) == Some(e)
                    &&& forall|j: int| 0 <= j < i ==> line_failure(#[trigger] lines[j]) is None
                },
        },
    decreases lines.len(),
{
    if lines.len() > 0 {
        lemma_line_fails_by_itself(game, root, lines[0]);
        let rest = lines.drop_first();
        match with_line(game, root, lines[0]) {
            Ok(next) => {
                lemma_lines_fail_at_first_failure(next, root, rest);
                match with_lines(next, root, rest) {
                    Ok(_) => {
                        assert forall|i: int| 0 <= i < lines.len() implies line_failure(
                            #[trigger] lines[i],
                        ) is None by {
                            if i > 0 {
                                assert(lines[i] == rest[i - 1]);
                            }
                        }
                    },
                    Err(e) => {
                        let k = choose|i: int|
                            {
                                &&& 0 <= i < rest.len()
                                &&& line_failure(#[trigger] rest[i]) == Some(e)
                                &&& forall|j: int|
                                    0 <= j < i ==> line_failure(#[trigger] rest[j]) is None
                            };
                        assert(lines[k + 1] == rest[k]);
                        assert forall|j: int| 0 <= j < k + 1 implies line_failure(
                            #[trigger] lines[j],
                        ) is None by {
                            if j > 0 {
                                assert(lines[j] == rest[j - 1]);
                            }
                        }
                    },
                }
            },
            Err(e) => {
                assert(line_failure(lines[0]) == Some(e));
            },
        }
    }
}

/// A manifest gives a record if and only if none of its lines fails, and
/// the three image files of the record follow from its number.
pub proof fn lemma_manifest_outcome(contents: Seq<char>, config: ConfigView)
    ensures
        parsed_manifest(contents, config) is Ok <==> forall|i: int|
            0 <= i < manifest_lines(contents).len() ==> line_failure(
                #[trigger] manifest_lines(contents)[i],
            ) is None,
        parsed_manifest(contents, config) matches Ok(game) ==> {
            let cache = config.steam_game_cache_path;
            &&& game.icon == image_path(cache, game.appid, "_icon.jpg"@)
            &&& game.logo == image_path(cache, game.appid, "_logo.jpg"@)
            &&& game.header == image_path(cache, game.appid, "_library_hero.jpg"@)
        },
{
    lemma_lines_fail_at_first_failure(blank(), config.steam_path, manifest_lines(contents));
}

/// The value of the last field of key `key` among `lines`, if there is one.
pub open spec fn last_value(lines: Seq<Seq<char>>, key: Seq<char>) -> Option<Seq<char>>
    decreases lines.len(),
{
    if lines.len() == 0 {
        None
    } else {
        match last_value(lines.drop_first(), key) {
            Some(value) => Some(value),
            None => match field_of(lines[0]) {
                Some((k, value)) => if k == key {
                    Some(value)
                } else {
                    None
                },
                None => None,
            },
        }
    }
}

/// Where lines give a record, each part of it follows from the last field
/// of its key, whatever the order of the fields, and stays as it was where
/// no field has that key. The image files are not touched.
pub proof fn lemma_record_of_last_values(game: GameView, root: Seq<char>, lines: Seq<Seq<char>>)
    ensures
        with_lines(game, root, lines) matches Ok(record) ==> {
            &&& match last_value(lines, "appid"@) {
                Some(value) => parsed_i64(value) == Some(record.appid),
                None => record.appid == game.appid,
            }
            &&& match last_value(lines, "SizeOnDisk"@) {
                Some(value) => parsed_u64(value) matches Some(bytes) && record.size_tenths
                    == tenths_of_gib(bytes as nat),
                None => record.size_tenths == game.size_tenths,
            }
            &&& record.name == match last_value(lines, "name"@) {
                Some(value) => value,
                None => game.name,
            }
            &&& record.path == match last_value(lines, "installdir"@) {
                Some(value) => install_path(root, value),
                None => game.path,
            }
            &&& record.icon == game.icon
            &&& record.logo == game.logo
            &&& record.header == game.header
        },
    decreases lines.len(),
{
    if lines.len() > 0 {
        lemma_keys_differ();
        match with_line(game, root, lines[0]) {
            Ok(next) => {
                lemma_record_of_last_values(next, root, lines.drop_first());
                if let Some((key, value)) = field_of(lines[0]) {
                    if key == "SizeOnDisk"@ {
                        let bytes = parsed_u64(value)->0;
                        lemma_tenths_fit(bytes);
                    }
                }
            },
            Err(_) => {},
        }
    }
}

/// Where a manifest gives a record, each part of the record follows from
/// the last field of its key among the lines of the manifest, and the parts
/// without a field are zero or empty.
pub proof fn lemma_manifest_record(contents: Seq<char>, config: ConfigView)
    ensures
        parsed_manifest(contents, config) matches Ok(record) ==> {
            let lines = manifest_lines(contents);
            &&& match last_value(lines, "appid"@) {
                Some(value) => parsed_i64(value) == Some(record.appid),
                None => record.appid == 0,
            }
            &&& match last_value(lines, "SizeOnDisk"@) {
                Some(value) => parsed_u64(value) matches Some(bytes) && record.size_tenths
                    == tenths_of_gib(bytes as nat),
                None => record.size_tenths == 0,
            }
            &&& record.name == match last_value(lines, "name"@) {
                Some(value) => value,
                None => Seq::empty(),
            }
            &&& record.path == match last_value(lines, "installdir"@) {
                Some(value) => install_path(config.steam_path, value),
                None => Seq::empty(),
            }
        },
{
    lemma_record_of_last_values(blank(), config.steam_path, manifest_lines(contents));
}

/// The text `s` between two quotation marks.
pub open spec fn quoted(s: Seq<char>) -> Seq<char> {
    seq!['"'] + s + seq!['"']
}

/// A line that holds a key and a value, each between quotation marks, is
/// read as the field of that key and that value. White space may stand
/// before the key and after the value, and has to stand between the two.
/// The key holds no white space, the value holds its words one space apart,
/// and neither starts or ends with a quotation mark of its own.
pub proof fn lemma_quoted_field_is_read(
    before: Seq<char>,
    key: Seq<char>,
    gap: Seq<char>,
    value: Seq<char>,
    after: Seq<char>,
)
    requires
        all_of(before, CharClass::Whitespace),
        all_of(gap, CharClass::Whitespace),
        all_of(after, CharClass::Whitespace),
        gap.len() > 0,
        is_word(quoted(key)),
        single_spaced(quoted(value)),
        trimmed(key, quote()) == key,
        trimmed(value, quote()) == value,
    ensures
        field_of(before + quoted(key) + gap + quoted(value) + after) == Some((key, value)),
{
    let mark = seq!['"'];
    let k = quoted(key);
    let v = quoted(value);
    let line = before + k + gap + v + after;
    let inner = k + gap + v;
    assert(line == before + inner + after);
    lemma_words_of_padded(before, inner, after);
    lemma_words_around_gap(k, gap, v);
    lemma_words_of_one_word(k);
    let w = words(line);
    assert(w == seq![k] + words(v));
    assert(words(v).len() > 0) by {
        if words(v).len() == 0 {
            assert(joined(words(v), seq![' ']).len() == 0);
            assert(v.len() > 0);
        }
    }
    assert(w[0] == k);
    assert(w.skip(1) == words(v));
    assert(all_of(mark, quote()));
    lemma_trimmed_of_padded(mark, key, mark, quote());
    lemma_trimmed_of_padded(mark, value, mark, quote());
}

/// The lines `lines` without the quotation marks at the start of the first
/// and at the end of the last.
pub open spec fn without_outer_quotes(lines: Seq<Seq<char>>) -> Seq<Seq<char>> {
    if lines.len() == 0 {
        lines
    } else {
        let first = lines.update(0, trimmed_start(lines[0], quote()));
        first.update(lines.len() - 1, trimmed_end(first.last(), quote()))
    }
}

/// The lines of a manifest written as one or more lines with a line feed
/// between each two are those lines, but for the quotation marks at the
/// start of the first and at the end of the last. No line holds a line feed
/// of its own.
pub proof fn lemma_lines_of_manifest(lines: Seq<Seq<char>>)
    requires
        lines.len() > 0,
        forall|k: int| 0 <= k < lines.len() ==> !(#[trigger] lines[k]).contains('\n'),
    ensures
        manifest_lines(joined(lines, seq!['\n'])) == without_outer_quotes(lines),
{
    let feed = seq!['\n'];
    let text = joined(lines, feed);
    let n = lines.len() as int;
    let start = trimmed_start(lines[0], quote());
    let first = lines.update(0, start);
    let end = trimmed_end(first.last(), quote());
    let both = first.update(n - 1, end);
    let a = lemma_trimmed_start(lines[0], quote());
    let b = lemma_trimmed_end(first.last(), quote());
    assert forall|k: int| 0 <= k < n implies !(#[trigger] first[k]).contains('\n') by {
        if k > 0 {
            assert(first[k] == lines[k]);
        } else if first[0].contains('\n') {
            let i = choose|i: int| 0 <= i < first[0].len() && first[0][i] == '\n';
            assert(lines[0][a + i] == '\n');
        }
    }
    assert forall|k: int| 0 <= k < n implies !(#[trigger] both[k]).contains('\n') by {
        if k < n - 1 {
            assert(both[k] == first[k]);
        } else if both[k].contains('\n') {
            let i = choose|i: int| 0 <= i < both[k].len() && both[k][i] == '\n';
            assert(first[k][i] == '\n');
        }
    }
    assert(trimmed(text, quote()) == joined(both, feed)) by {
        if n == 1 {
            assert(lines == seq![lines[0]]);
            assert(both == seq![end]);
        } else {
            let tail = joined(lines.drop_first(), feed);
            assert(text == lines[0] + (feed + tail));
            lemma_trimmed_start_before(lines[0], feed + tail, quote());
            assert(first.drop_first() == lines.drop_first());
            assert(joined(first, feed) == start + (feed + tail));
            let init = first.drop_last();
            assert(first == init.push(first.last()));
            lemma_joined_push(init, first.last(), feed);
            let head = joined(init, feed) + feed;
            assert(joined(first, feed) == head + first.last());
            assert(head.last() == '\n');
            lemma_trimmed_end_after(head, first.last(), quote());
            assert(both == init.push(end));
            lemma_joined_push(init, end, feed);
            assert(joined(both, feed) == head + end);
        }
    }
    lemma_pieces_of_joined(both, '\n');
}

} // verus!
