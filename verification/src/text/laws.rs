//! What trimming, matching, parting and the words of a text mean: the laws
//! that the specifications of the text functions obey.

use crate::text::{
    first_match, joined, lemma_word_len_bounds, lemma_word_len_is, occurs_at, pieces,
    spec_is_whitespace, trimmed, trimmed_end, trimmed_start, word_len, words, CharClass,
};
use vstd::prelude::*;

verus! {

/// The first match is the least position at which the pattern stands, and
/// there is none only where the pattern is empty or stands nowhere.
pub proof fn lemma_first_match_is_first(s: Seq<char>, pat: Seq<char>)
    ensures
        match first_match(s, pat) {
            Some(i) => {
                &&& pat.len() > 0
                &&& occurs_at(s, pat, i)
                &&& forall|j: int| 0 <= j < i ==> !occurs_at(s, pat, j)
            },
            None => pat.len() == 0 || forall|j: int| !occurs_at(s, pat, j),
        },
    decreases s.len(),
{
    if pat.len() == 0 || s.len() == 0 {
    } else if occurs_at(s, pat, 0) {
    } else {
        let t = s.drop_first();
        lemma_first_match_is_first(t, pat);
        assert forall|j: int| occurs_at(s, pat, j + 1) == occurs_at(t, pat, j) by {
            if 0 <= j && j + 1 + pat.len() <= s.len() {
                assert(s.subrange(j + 1, j + 1 + pat.len()) == t.subrange(j, j + pat.len()));
            }
        }
        match first_match(t, pat) {
            Some(i) => {
                assert(occurs_at(s, pat, i + 1) == occurs_at(t, pat, i));
                assert forall|j: int| 0 <= j < i + 1 implies !occurs_at(s, pat, j) by {
                    if j > 0 {
                        assert(occurs_at(s, pat, (j - 1) + 1) == occurs_at(t, pat, j - 1));
                    }
                }
            },
            None => {
                assert forall|j: int| !occurs_at(s, pat, j) by {
                    if j > 0 {
                        assert(occurs_at(s, pat, (j - 1) + 1) == occurs_at(t, pat, j - 1));
                    }
                }
            },
        }
    }
}

/// The least position at which a pattern that is not empty stands is the
/// first match.
pub proof fn lemma_first_match_at(s: Seq<char>, pat: Seq<char>, i: int)
    requires
        pat.len() > 0,
        occurs_at(s, pat, i),
        forall|j: int| 0 <= j < i ==> !occurs_at(s, pat, j),
    ensures
        first_match(s, pat) == Some(i),
{
    lemma_first_match_is_first(s, pat);
}

/// A pattern that stands nowhere has no first match.
pub proof fn lemma_first_match_nowhere(s: Seq<char>, pat: Seq<char>)
    requires
        forall|j: int| !occurs_at(s, pat, j),
    ensures
        first_match(s, pat) is None,
{
    lemma_first_match_is_first(s, pat);
}

/// Whether every character of `s` belongs to `class`.
pub open spec fn all_of(s: Seq<char>, class: CharClass) -> bool {
    forall|k: int| 0 <= k < s.len() ==> class.spec_contains(#[trigger] s[k])
}

/// What is trimmed at the start is a prefix made of characters of the
/// class, and what is left does not start with one. The result is the
/// length of that prefix.
pub proof fn lemma_trimmed_start(s: Seq<char>, class: CharClass) -> (a: int)
    ensures
        0 <= a <= s.len(),
        trimmed_start(s, class) == s.skip(a),
        forall|k: int| 0 <= k < a ==> class.spec_contains(#[trigger] s[k]),
        a < s.len() ==> !class.spec_contains(s[a]),
    decreases s.len(),
{
    if s.len() > 0 && class.spec_contains(s[0]) {
        let t = s.drop_first();
        let b = lemma_trimmed_start(t, class);
        assert(t.skip(b) == s.skip(b + 1));
        assert forall|k: int| 0 <= k < b + 1 implies class.spec_contains(#[trigger] s[k]) by {
            if k > 0 {
                assert(s[k] == t[k - 1]);
            }
        }
        if b + 1 < s.len() {
            assert(s[b + 1] == t[b]);
        }
        b + 1
    } else {
        assert(s.skip(0) == s);
        0
    }
}

/// What is trimmed at the end is a suffix made of characters of the class,
/// and what is left does not end with one. The result is the length of what
/// is left.
pub proof fn lemma_trimmed_end(s: Seq<char>, class: CharClass) -> (b: int)
    ensures
        0 <= b <= s.len(),
        trimmed_end(s, class) == s.take(b),
        forall|k: int| b <= k < s.len() ==> class.spec_contains(#[trigger] s[k]),
        0 < b ==> !class.spec_contains(s[b - 1]),
    decreases s.len(),
{
    if s.len() > 0 && class.spec_contains(s.last()) {
        let t = s.drop_last();
        let b = lemma_trimmed_end(t, class);
        assert(t.take(b) == s.take(b));
        assert forall|k: int| b <= k < s.len() implies class.spec_contains(#[trigger] s[k]) by {
            if k < s.len() - 1 {
                assert(s[k] == t[k]);
            }
        }
        if 0 < b {
            assert(s[b - 1] == t[b - 1]);
        }
        b
    } else {
        assert(s.take(s.len() as int) == s);
        s.len() as int
    }
}

/// A trimmed text is the part of the text between two positions: before the
/// first and from the second on stand characters of the class only, and the
/// part neither starts nor ends with one.
pub proof fn lemma_trimmed(s: Seq<char>, class: CharClass) -> (r: (int, int))
    ensures
        0 <= r.0 <= r.1 <= s.len(),
        trimmed(s, class) == s.subrange(r.0, r.1),
        forall|k: int| 0 <= k < r.0 ==> class.spec_contains(#[trigger] s[k]),
        forall|k: int| r.1 <= k < s.len() ==> class.spec_contains(#[trigger] s[k]),
        r.0 < r.1 ==> !class.spec_contains(s[r.0]) && !class.spec_contains(s[r.1 - 1]),
{
    let a = lemma_trimmed_start(s, class);
    let t = s.skip(a);
    let b = lemma_trimmed_end(t, class);
    assert(t.take(b) == s.subrange(a, a + b));
    assert forall|k: int| a + b <= k < s.len() implies class.spec_contains(#[trigger] s[k]) by {
        assert(s[k] == t[k - a]);
    }
    if 0 < b {
        assert(t[b - 1] == s[a + b - 1]);
    }
    (a, a + b)
}

/// Trimming changes a text if and only if the text starts or ends with a
/// character of the class.
pub proof fn lemma_trimmed_unchanged(s: Seq<char>, class: CharClass)
    ensures
        trimmed(s, class) == s <==> s.len() == 0 || (!class.spec_contains(s[0])
            && !class.spec_contains(s.last())),
{
    if s.len() > 0 {
        if !class.spec_contains(s[0]) && !class.spec_contains(s.last()) {
            assert(trimmed_start(s, class) == s);
            assert(trimmed_end(s, class) == s);
        }
        if trimmed(s, class) == s {
            let a = lemma_trimmed_start(s, class);
            let t = s.skip(a);
            let b = lemma_trimmed_end(t, class);
            assert(t.take(b).len() == b);
            assert(a == 0 && b == s.len());
            assert(t == s);
        }
    }
}

/// Trimming a trimmed text changes nothing.
pub proof fn lemma_trimmed_twice(s: Seq<char>, class: CharClass)
    ensures
        trimmed(trimmed(s, class), class) == trimmed(s, class),
{
    let (a, b) = lemma_trimmed(s, class);
    let t = trimmed(s, class);
    lemma_trimmed_unchanged(t, class);
    if a < b {
        assert(t[0] == s[a]);
        assert(t.last() == s[b - 1]);
    }
}

/// Characters of the class in front of a text are trimmed away.
pub proof fn lemma_trimmed_start_of_padded(before: Seq<char>, rest: Seq<char>, class: CharClass)
    requires
        all_of(before, class),
    ensures
        trimmed_start(before + rest, class) == trimmed_start(rest, class),
    decreases before.len(),
{
    if before.len() == 0 {
        assert(before + rest == rest);
    } else {
        let s = before + rest;
        assert(s[0] == before[0]);
        assert(s.drop_first() == before.drop_first() + rest);
        assert forall|k: int| 0 <= k < before.drop_first().len() implies class.spec_contains(
            #[trigger] before.drop_first()[k],
        ) by {
            assert(before.drop_first()[k] == before[k + 1]);
        }
        lemma_trimmed_start_of_padded(before.drop_first(), rest, class);
    }
}

/// Characters of the class behind a text are trimmed away.
pub proof fn lemma_trimmed_end_of_padded(rest: Seq<char>, after: Seq<char>, class: CharClass)
    requires
        all_of(after, class),
    ensures
        trimmed_end(rest + after, class) == trimmed_end(rest, class),
    decreases after.len(),
{
    if after.len() == 0 {
        assert(rest + after == rest);
    } else {
        let s = rest + after;
        assert(s.last() == after.last());
        assert(s.drop_last() == rest + after.drop_last());
        assert forall|k: int| 0 <= k < after.drop_last().len() implies class.spec_contains(
            #[trigger] after.drop_last()[k],
        ) by {
            assert(after.drop_last()[k] == after[k]);
        }
        lemma_trimmed_end_of_padded(rest, after.drop_last(), class);
    }
}

/// Trimming takes away what stands around a text, where that is made of
/// characters of the class and the text neither starts nor ends with one.
pub proof fn lemma_trimmed_of_padded(
    before: Seq<char>,
    core: Seq<char>,
    after: Seq<char>,
    class: CharClass,
)
    requires
        all_of(before, class),
        all_of(after, class),
        trimmed(core, class) == core,
    ensures
        trimmed(before + core + after, class) == core,
{
    lemma_trimmed_unchanged(core, class);
    assert(before + core + after == before + (core + after));
    lemma_trimmed_start_of_padded(before, core + after, class);
    if core.len() == 0 {
        assert(core + after == after + core);
        lemma_trimmed_start_of_padded(after, core, class);
    } else {
        assert((core + after)[0] == core[0]);
        assert(trimmed_start(core + after, class) == core + after);
        lemma_trimmed_end_of_padded(core, after, class);
    }
}

/// Trimming the start of a text that goes on with a character outside the
/// class trims the start of what stands before that character.
pub proof fn lemma_trimmed_start_before(a: Seq<char>, rest: Seq<char>, class: CharClass)
    requires
        rest.len() > 0,
        !class.spec_contains(rest[0]),
    ensures
        trimmed_start(a + rest, class) == trimmed_start(a, class) + rest,
    decreases a.len(),
{
    let s = a + rest;
    if a.len() == 0 {
        assert(s == rest);
        assert(trimmed_start(a, class) + rest == rest);
    } else {
        assert(s[0] == a[0]);
        if class.spec_contains(a[0]) {
            assert(s.drop_first() == a.drop_first() + rest);
            lemma_trimmed_start_before(a.drop_first(), rest, class);
        }
    }
}

/// Trimming the end of a text that follows a character outside the class
/// trims the end of what stands behind that character.
pub proof fn lemma_trimmed_end_after(rest: Seq<char>, b: Seq<char>, class: CharClass)
    requires
        rest.len() > 0,
        !class.spec_contains(rest.last()),
    ensures
        trimmed_end(rest + b, class) == rest + trimmed_end(b, class),
    decreases b.len(),
{
    let s = rest + b;
    if b.len() == 0 {
        assert(s == rest);
        assert(rest + trimmed_end(b, class) == rest);
    } else {
        assert(s.last() == b.last());
        if class.spec_contains(b.last()) {
            assert(s.drop_last() == rest + b.drop_last());
            lemma_trimmed_end_after(rest, b.drop_last(), class);
        }
    }
}

/// Joining the parts of a text with the separator they were parted at gives
/// the text back.
pub proof fn lemma_joined_pieces(s: Seq<char>, pat: Seq<char>)
    ensures
        joined(pieces(s, pat), pat) == s,
    decreases s.len(),
{
    match first_match(s, pat) {
        Some(i) => {
            lemma_first_match_is_first(s, pat);
            let rest = s.skip(i + pat.len());
            lemma_joined_pieces(rest, pat);
            let parts = seq![s.take(i)] + pieces(rest, pat);
            assert(parts.len() >= 2);
            assert(parts[0] == s.take(i));
            assert(parts.drop_first() == pieces(rest, pat));
            assert(s.take(i) + pat + rest == s);
        },
        None => {},
    }
}

/// The separator stands in no part.
pub proof fn lemma_pieces_hold_no_separator(s: Seq<char>, pat: Seq<char>)
    ensures
        forall|k: int|
            0 <= k < pieces(s, pat).len() ==> first_match(
                #[trigger] pieces(s, pat)[k],
                pat,
            ) is None,
    decreases s.len(),
{
    match first_match(s, pat) {
        Some(i) => {
            lemma_first_match_is_first(s, pat);
            let head = s.take(i);
            let rest = s.skip(i + pat.len());
            lemma_pieces_hold_no_separator(rest, pat);
            lemma_first_match_is_first(head, pat);
            if let Some(j) = first_match(head, pat) {
                assert(head.subrange(j, j + pat.len()) == s.subrange(j, j + pat.len()));
                assert(occurs_at(s, pat, j));
            }
            assert forall|k: int| 0 <= k < pieces(s, pat).len() implies first_match(
                #[trigger] pieces(s, pat)[k],
                pat,
            ) is None by {
                if k == 0 {
                    assert(pieces(s, pat)[0] == head);
                } else {
                    assert(pieces(s, pat)[k] == pieces(rest, pat)[k - 1]);
                }
            }
        },
        None => {},
    }
}

/// Parting a joined text gives the parts back, where the separator is one
/// character that stands in none of the parts and there is a part at all.
pub proof fn lemma_pieces_of_joined(parts: Seq<Seq<char>>, sep: char)
    requires
        parts.len() > 0,
        forall|k: int| 0 <= k < parts.len() ==> !(#[trigger] parts[k]).contains(sep),
    ensures
        pieces(joined(parts, seq![sep]), seq![sep]) == parts,
    decreases parts.len(),
{
    let pat = seq![sep];
    let first = parts[0];
    if parts.len() == 1 {
        lemma_first_match_is_first(first, pat);
        if let Some(i) = first_match(first, pat) {
            assert(first.subrange(i, i + 1)[0] == sep);
            assert(first[i] == sep);
        }
        assert(parts == seq![first]);
    } else {
        let tail = parts.drop_first();
        assert forall|k: int| 0 <= k < tail.len() implies !(#[trigger] tail[k]).contains(sep) by {
            assert(tail[k] == parts[k + 1]);
        }
        lemma_pieces_of_joined(tail, sep);
        let rest = joined(tail, pat);
        let s = first + pat + rest;
        lemma_first_match_is_first(s, pat);
        let n = first.len() as int;
        assert(s.subrange(n, n + 1) == pat);
        assert(occurs_at(s, pat, n));
        match first_match(s, pat) {
            Some(i) => {
                if i < n {
                    assert(s.subrange(i, i + 1)[0] == sep);
                    assert(first[i] == sep);
                }
                assert(i == n);
                assert(s.take(n) == first);
                assert(s.skip(n + 1) == rest);
                assert(seq![first] + tail == parts);
            },
            None => {},
        }
    }
}

/// Whether `w` is not empty and holds no white space.
pub open spec fn is_word(w: Seq<char>) -> bool {
    &&& w.len() > 0
    &&& forall|k: int| 0 <= k < w.len() ==> !spec_is_whitespace(#[trigger] w[k])
}

/// The characters of the first word are not white space.
proof fn lemma_word_run(s: Seq<char>, n: int)
    requires
        n == word_len(s),
    ensures
        n <= s.len(),
        forall|k: int| 0 <= k < n ==> !spec_is_whitespace(#[trigger] s[k]),
        n < s.len() ==> spec_is_whitespace(s[n]),
    decreases s.len(),
{
    if s.len() > 0 && !spec_is_whitespace(s[0]) {
        let t = s.drop_first();
        lemma_word_run(t, n - 1);
        assert forall|k: int| 0 <= k < n implies !spec_is_whitespace(#[trigger] s[k]) by {
            if k > 0 {
                assert(s[k] == t[k - 1]);
            }
        }
        if n < s.len() {
            assert(s[n] == t[n - 1]);
        }
    }
}

/// No word is empty, and no word holds white space.
pub proof fn lemma_words_hold_no_whitespace(s: Seq<char>)
    ensures
        forall|i: int| 0 <= i < words(s).len() ==> is_word(#[trigger] words(s)[i]),
    decreases s.len(),
{
    if s.len() == 0 {
        assert(words(s).len() == 0);
    } else if spec_is_whitespace(s[0]) {
        lemma_words_hold_no_whitespace(s.drop_first());
        assert(words(s) == words(s.drop_first()));
    } else {
        lemma_word_len_bounds(s);
        let n = word_len(s) as int;
        let first = s.take(n);
        let rest = words(s.skip(n));
        lemma_word_run(s, n);
        assert(is_word(first)) by {
            assert forall|k: int| 0 <= k < first.len() implies !spec_is_whitespace(
                #[trigger] first[k],
            ) by {
                assert(first[k] == s[k]);
            }
        }
        lemma_words_hold_no_whitespace(s.skip(n));
        assert(words(s) == seq![first] + rest);
        assert forall|i: int| 0 <= i < words(s).len() implies is_word(#[trigger] words(s)[i]) by {
            if i == 0 {
                assert(words(s)[0] == first);
            } else {
                assert(words(s)[i] == rest[i - 1]);
            }
        }
    }
}

/// A text without white space is its own single word, unless it is empty.
pub proof fn lemma_words_of_one_word(s: Seq<char>)
    requires
        forall|k: int| 0 <= k < s.len() ==> !spec_is_whitespace(#[trigger] s[k]),
    ensures
        words(s) == if s.len() == 0 {
            Seq::<Seq<char>>::empty()
        } else {
            seq![s]
        },
{
    if s.len() > 0 {
        lemma_word_len_is(s, s.len());
        assert(s.take(s.len() as int) == s);
        assert(s.skip(s.len() as int).len() == 0);
        assert(words(s.skip(s.len() as int)) == Seq::<Seq<char>>::empty());
    }
}

/// The length of the first word of a text that goes on after white space is
/// the length of the first word of what stands before the white space.
proof fn lemma_word_len_before_whitespace(a: Seq<char>, c: char, b: Seq<char>)
    requires
        spec_is_whitespace(c),
    ensures
        word_len(a + seq![c] + b) == word_len(a),
    decreases a.len(),
{
    let s = a + seq![c] + b;
    if a.len() == 0 {
        assert(s[0] == c);
    } else {
        assert(s[0] == a[0]);
        if !spec_is_whitespace(a[0]) {
            assert(s.drop_first() == a.drop_first() + seq![c] + b);
            lemma_word_len_before_whitespace(a.drop_first(), c, b);
        }
    }
}

/// A white space character parts a text: the words of the whole are the
/// words before it, then the words after it.
pub proof fn lemma_words_around_whitespace(a: Seq<char>, c: char, b: Seq<char>)
    requires
        spec_is_whitespace(c),
    ensures
        words(a + seq![c] + b) == words(a) + words(b),
    decreases a.len(),
{
    let s = a + seq![c] + b;
    if a.len() == 0 {
        assert(s[0] == c);
        assert(s.drop_first() == b);
        assert(words(a) == Seq::<Seq<char>>::empty());
        assert(words(a) + words(b) == words(b));
    } else {
        assert(s[0] == a[0]);
        if spec_is_whitespace(a[0]) {
            assert(s.drop_first() == a.drop_first() + seq![c] + b);
            lemma_words_around_whitespace(a.drop_first(), c, b);
        } else {
            lemma_word_len_before_whitespace(a, c, b);
            lemma_word_len_bounds(a);
            let n = word_len(a) as int;
            assert(s.take(n) == a.take(n));
            assert(s.skip(n) == a.skip(n) + seq![c] + b);
            lemma_words_around_whitespace(a.skip(n), c, b);
            assert(seq![a.take(n)] + (words(a.skip(n)) + words(b)) == (seq![a.take(n)] + words(
                a.skip(n),
            )) + words(b));
        }
    }
}


/// White space alone holds no word.
pub proof fn lemma_words_of_whitespace(s: Seq<char>)
    requires
        all_of(s, CharClass::Whitespace),
    ensures
        words(s) == Seq::<Seq<char>>::empty(),
    decreases s.len(),
{
    if s.len() > 0 {
        assert(spec_is_whitespace(s[0]));
        assert forall|k: int| 0 <= k < s.drop_first().len() implies spec_is_whitespace(
            #[trigger] s.drop_first()[k],
        ) by {
            assert(s.drop_first()[k] == s[k + 1]);
        }
        lemma_words_of_whitespace(s.drop_first());
    }
}

/// A run of white space parts a text: the words of the whole are the words
/// before the run, then the words after it.
pub proof fn lemma_words_around_gap(a: Seq<char>, gap: Seq<char>, b: Seq<char>)
    requires
        all_of(gap, CharClass::Whitespace),
        gap.len() > 0,
    ensures
        words(a + gap + b) == words(a) + words(b),
    decreases gap.len(),
{
    let c = gap[0];
    let rest = gap.drop_first();
    assert(spec_is_whitespace(c));
    assert(a + gap + b == a + seq![c] + (rest + b));
    lemma_words_around_whitespace(a, c, rest + b);
    if rest.len() == 0 {
        assert(rest + b == b);
    } else {
        assert forall|k: int| 0 <= k < rest.len() implies spec_is_whitespace(
            #[trigger] rest[k],
        ) by {
            assert(rest[k] == gap[k + 1]);
        }
        let none = Seq::<char>::empty();
        assert(rest + b == none + rest + b);
        lemma_words_around_gap(none, rest, b);
        assert(words(none) + words(b) == words(b));
    }
}

/// White space around a text changes nothing about its words.
pub proof fn lemma_words_of_padded(before: Seq<char>, s: Seq<char>, after: Seq<char>)
    requires
        all_of(before, CharClass::Whitespace),
        all_of(after, CharClass::Whitespace),
    ensures
        words(before + s + after) == words(s),
{
    let none = Seq::<char>::empty();
    let inner = s + after;
    assert(words(none) == Seq::<Seq<char>>::empty());
    assert(words(inner) == words(s)) by {
        if after.len() == 0 {
            assert(inner == s);
        } else {
            assert(inner == s + after + none);
            lemma_words_around_gap(s, after, none);
            assert(words(s) + words(none) == words(s));
        }
    }
    assert(before + s + after == before + inner);
    if before.len() == 0 {
        assert(before + inner == inner);
    } else {
        assert(before + inner == none + before + inner);
        lemma_words_around_gap(none, before, inner);
        assert(words(none) + words(inner) == words(inner));
    }
}

/// Whether the words of `s` stand in `s` with one space between each two
/// and nothing else around them.
pub open spec fn single_spaced(s: Seq<char>) -> bool {
    joined(words(s), seq![' ']) == s
}

/// A word is single-spaced.
pub proof fn lemma_word_is_single_spaced(w: Seq<char>)
    requires
        is_word(w),
    ensures
        single_spaced(w),
{
    lemma_words_of_one_word(w);
}

/// A single-spaced text that is not empty stays single-spaced when a space
/// and a word are added at its end.
pub proof fn lemma_single_spaced_extend(s: Seq<char>, w: Seq<char>)
    requires
        single_spaced(s),
        s.len() > 0,
        is_word(w),
    ensures
        single_spaced(s + seq![' '] + w),
{
    lemma_words_around_whitespace(s, ' ', w);
    lemma_words_of_one_word(w);
    assert(words(s) + seq![w] == words(s).push(w));
    crate::text::lemma_joined_push(words(s), w, seq![' ']);
}

} // verus!
