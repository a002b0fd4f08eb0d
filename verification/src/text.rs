//! Texts as sequences of characters: classifying, trimming, searching,
//! splitting and joining.
//!
//! Every executable function here works on a slice of `char` and is specified
//! over `Seq<char>`. [`chars_of`] and [`string_of`] lead from and to strings.
//! What the specifications mean is stated and proved in [`laws`].

pub mod laws;

use vstd::prelude::*;

verus! {

/// `String::push` of the standard library: the string afterwards is the string
/// before with `ch` added at its end.
pub assume_specification[ String::push ](s: &mut String, ch: char)
    ensures
        final(s)@ == old(s)@.push(ch),
;

/// Whether `c` is one of the 25 characters with the Unicode property
/// `White_Space`.
pub open spec fn spec_is_whitespace(c: char) -> bool {
    let n = c as u32;
    ||| 0x09 <= n <= 0x0D
    ||| n == 0x20
    ||| n == 0x85
    ||| n == 0xA0
    ||| n == 0x1680
    ||| 0x2000 <= n <= 0x200A
    ||| n == 0x2028
    ||| n == 0x2029
    ||| n == 0x202F
    ||| n == 0x205F
    ||| n == 0x3000
}

/// Whether `c` is white space.
#[verifier::when_used_as_spec(spec_is_whitespace)]
pub fn is_whitespace(c: char) -> (b: bool)
    ensures
        b == spec_is_whitespace(c),
{
    let n: u32 = c as u32;
    (0x09 <= n && n <= 0x0D) || n == 0x20 || n == 0x85 || n == 0xA0 || n == 0x1680 || (0x2000 <= n
        && n <= 0x200A) || n == 0x2028 || n == 0x2029 || n == 0x202F || n == 0x205F || n == 0x3000
}

/// A set of characters that trimming removes from the ends of a text.
#[derive(Clone, Copy, Debug, PartialEq, Eq, Structural)]
pub enum CharClass {
    /// Every white space character.
    Whitespace,
    /// The one character given.
    Exactly(char),
}

impl CharClass {
    /// Whether `c` belongs to the class.
    pub open spec fn spec_contains(self, c: char) -> bool {
        match self {
            CharClass::Whitespace => spec_is_whitespace(c),
            CharClass::Exactly(d) => c == d,
        }
    }

    /// Whether `c` belongs to the class.
    #[verifier::when_used_as_spec(spec_contains)]
    pub fn contains(self, c: char) -> (b: bool)
        ensures
            b == self.spec_contains(c),
    {
        match self {
            CharClass::Whitespace => is_whitespace(c),
            CharClass::Exactly(d) => c == d,
        }
    }
}

/// `s` without its longest prefix of characters of `class`.
pub open spec fn trimmed_start(s: Seq<char>, class: CharClass) -> Seq<char>
    decreases s.len(),
{
    if s.len() > 0 && class.spec_contains(s[0]) {
        trimmed_start(s.drop_first(), class)
    } else {
        s
    }
}

/// `s` without its longest suffix of characters of `class`.
pub open spec fn trimmed_end(s: Seq<char>, class: CharClass) -> Seq<char>
    decreases s.len(),
{
    if s.len() > 0 && class.spec_contains(s.last()) {
        trimmed_end(s.drop_last(), class)
    } else {
        s
    }
}

/// `s` without the characters of `class` at either end.
pub open spec fn trimmed(s: Seq<char>, class: CharClass) -> Seq<char> {
    trimmed_end(trimmed_start(s, class), class)
}

/// Whether `pat` stands in `s` at position `i`.
pub open spec fn occurs_at(s: Seq<char>, pat: Seq<char>, i: int) -> bool {
    &&& 0 <= i
    &&& i + pat.len() <= s.len()
    &&& s.subrange(i, i + pat.len()) == pat
}

/// The position of the first occurrence of `pat` in `s`. An empty `pat`
/// occurs nowhere.
pub open spec fn first_match(s: Seq<char>, pat: Seq<char>) -> Option<int>
    decreases s.len(),
{
    if pat.len() == 0 || s.len() == 0 {
        None
    } else if occurs_at(s, pat, 0) {
        Some(0)
    } else {
        match first_match(s.drop_first(), pat) {
            Some(i) => Some(i + 1),
            None => None,
        }
    }
}

/// The parts of `s` between the occurrences of the separator `pat`, which
/// are looked for from left to right and do not overlap. There is one part
/// more than there are separators; a part may be empty.
pub open spec fn pieces(s: Seq<char>, pat: Seq<char>) -> Seq<Seq<char>>
    decreases s.len(),
{
    match first_match(s, pat) {
        Some(i) => {
            proof {
                lemma_first_match_bounds(s, pat);
            }
            seq![s.take(i)] + pieces(s.skip(i + pat.len()), pat)
        },
        None => seq![s],
    }
}

/// The texts of `parts` in order, with `sep` between each two neighbours.
pub open spec fn joined(parts: Seq<Seq<char>>, sep: Seq<char>) -> Seq<char>
    decreases parts.len(),
{
    if parts.len() == 0 {
        Seq::empty()
    } else if parts.len() == 1 {
        parts[0]
    } else {
        parts[0] + sep + joined(parts.drop_first(), sep)
    }
}

/// The length of the longest prefix of `s` that holds no white space.
pub open spec fn word_len(s: Seq<char>) -> nat
    decreases s.len(),
{
    if s.len() > 0 && !spec_is_whitespace(s[0]) {
        1 + word_len(s.drop_first())
    } else {
        0
    }
}

/// The words of `s`: its longest runs of characters that are not white
/// space, from left to right.
pub open spec fn words(s: Seq<char>) -> Seq<Seq<char>>
    decreases s.len(),
{
    if s.len() == 0 {
        Seq::empty()
    } else if spec_is_whitespace(s[0]) {
        words(s.drop_first())
    } else {
        proof {
            lemma_word_len_bounds(s);
        }
        seq![s.take(word_len(s) as int)] + words(s.skip(word_len(s) as int))
    }
}

/// The texts that a vector of character vectors holds.
pub open spec fn views(v: Seq<Vec<char>>) -> Seq<Seq<char>> {
    Seq::new(v.len(), |i: int| v[i]@)
}

/// A first match lies inside the text.
pub proof fn lemma_first_match_bounds(s: Seq<char>, pat: Seq<char>)
    ensures
        first_match(s, pat) matches Some(i) ==> 0 <= i && 0 < pat.len() && i + pat.len() <= s.len(),
    decreases s.len(),
{
    if pat.len() == 0 || s.len() == 0 {
    } else if occurs_at(s, pat, 0) {
    } else {
        lemma_first_match_bounds(s.drop_first(), pat);
    }
}

/// A word is no longer than the text it starts, and not empty where the text
/// starts with a character that is not white space.
pub proof fn lemma_word_len_bounds(s: Seq<char>)
    ensures
        word_len(s) <= s.len(),
        s.len() > 0 && !spec_is_whitespace(s[0]) ==> word_len(s) >= 1,
    decreases s.len(),
{
    if s.len() > 0 && !spec_is_whitespace(s[0]) {
        lemma_word_len_bounds(s.drop_first());
    }
}

/// A text has at least one part, whatever the separator.
pub proof fn lemma_pieces_nonempty(s: Seq<char>, pat: Seq<char>)
    ensures
        pieces(s, pat).len() >= 1,
{
}

/// The characters of `s`, in order.
pub fn chars_of(s: &str) -> (v: Vec<char>)
    ensures
        v@ == s@,
{
    let mut v: Vec<char> = Vec::new();
    for c in it: s.chars()
        invariant
            it.seq() == s@,
            v@ == s@.take(it.index() as int),
    {
        v.push(c);
    }
    v
}

/// The string made of the characters of `s`, in order.
pub fn string_of(s: &[char]) -> (r: String)
    ensures
        r@ == s@,
{
    let mut r = String::new();
    let mut i: usize = 0;
    while i < s.len()
        invariant
            i <= s.len(),
            r@ == s@.take(i as int),
        decreases s.len() - i,
    {
        r.push(s[i]);
        i += 1;
    }
    r
}

/// The characters of `s` from position `from` up to, not including, `to`.
fn copy_range(s: &[char], from: usize, to: usize) -> (r: Vec<char>)
    requires
        from <= to <= s.len(),
    ensures
        r@ == s@.subrange(from as int, to as int),
{
    let mut r: Vec<char> = Vec::new();
    let mut i: usize = from;
    while i < to
        invariant
            from <= i <= to <= s.len(),
            r@ == s@.subrange(from as int, i as int),
        decreases to - i,
    {
        r.push(s[i]);
        i += 1;
    }
    r
}

/// Adds the characters of `src` at the end of `dst`.
pub fn append(dst: &mut Vec<char>, src: &[char])
    ensures
        final(dst)@ == old(dst)@ + src@,
{
    let mut i: usize = 0;
    while i < src.len()
        invariant
            i <= src.len(),
            dst@ == old(dst)@ + src@.take(i as int),
        decreases src.len() - i,
    {
        dst.push(src[i]);
        i += 1;
    }
}

/// Whether `a` and `b` hold the same characters in the same order.
pub fn equal(a: &[char], b: &[char]) -> (r: bool)
    ensures
        r == (a@ == b@),
{
    if a.len() != b.len() {
        return false;
    }
    let mut i: usize = 0;
    while i < a.len()
        invariant
            i <= a.len(),
            a.len() == b.len(),
            a@.take(i as int) == b@.take(i as int),
        decreases a.len() - i,
    {
        if a[i] != b[i] {
            return false;
        }
        assert(a@.take(i + 1) == a@.take(i as int).push(a@[i as int]));
        assert(b@.take(i + 1) == b@.take(i as int).push(b@[i as int]));
        i += 1;
    }
    assert(a@ == a@.take(a.len() as int));
    assert(b@ == b@.take(b.len() as int));
    true
}

/// `s` without the characters of `class` at either end.
pub fn trim(s: &[char], class: CharClass) -> (r: Vec<char>)
    ensures
        r@ == trimmed(s@, class),
{
    let mut start: usize = 0;
    assert(s@.skip(0) == s@);
    while start < s.len() && class.contains(s[start])
        invariant
            start <= s.len(),
            trimmed_start(s@, class) == trimmed_start(s@.skip(start as int), class),
        decreases s.len() - start,
    {
        assert(s@.skip(start as int).drop_first() == s@.skip(start + 1));
        start += 1;
    }
    assert(trimmed_start(s@, class) == s@.skip(start as int));
    let mut end: usize = s.len();
    assert(s@.skip(start as int) == s@.subrange(start as int, end as int));
    while end > start && class.contains(s[end - 1])
        invariant
            start <= end <= s.len(),
            trimmed(s@, class) == trimmed_end(s@.subrange(start as int, end as int), class),
        decreases end - start,
    {
        assert(s@.subrange(start as int, end as int).drop_last() == s@.subrange(
            start as int,
            end - 1,
        ));
        end -= 1;
    }
    copy_range(s, start, end)
}

/// Whether `pat` stands in `s` at position `at`.
fn starts_with_at(s: &[char], at: usize, pat: &[char]) -> (r: bool)
    requires
        at <= s.len(),
    ensures
        r == occurs_at(s@, pat@, at as int),
{
    if pat.len() > s.len() - at {
        return false;
    }
    let mut i: usize = 0;
    while i < pat.len()
        invariant
            i <= pat.len(),
            at + pat.len() <= s.len(),
            pat@.take(i as int) == s@.subrange(at as int, at + i),
        decreases pat.len() - i,
    {
        if s[at + i] != pat[i] {
            assert(s@.subrange(at as int, at + pat.len())[i as int] != pat@[i as int]);
            return false;
        }
        assert(pat@.take(i + 1) == pat@.take(i as int).push(pat@[i as int]));
        assert(s@.subrange(at as int, at + i + 1) == s@.subrange(at as int, at + i).push(
            s@[at + i],
        ));
        i += 1;
    }
    assert(pat@ == pat@.take(pat.len() as int));
    true
}

/// `m` moved to the right by `by`.
spec fn shifted(m: Option<int>, by: int) -> Option<int> {
    match m {
        Some(i) => Some(i + by),
        None => None,
    }
}

/// The position of the first occurrence of `pat` in `s` at or after `from`.
fn find_from(s: &[char], from: usize, pat: &[char]) -> (r: Option<usize>)
    requires
        from <= s.len(),
    ensures
        match r {
            Some(i) => first_match(s@.skip(from as int), pat@) == Some(i - from),
            None => first_match(s@.skip(from as int), pat@) is None,
        },
{
    if pat.len() == 0 {
        return None;
    }
    let mut i: usize = from;
    while i < s.len()
        invariant
            from <= i <= s.len(),
            pat.len() > 0,
            first_match(s@.skip(from as int), pat@) == shifted(
                first_match(s@.skip(i as int), pat@),
                i - from,
            ),
        decreases s.len() - i,
    {
        let ghost here = s@.skip(i as int);
        assert(i + pat.len() <= s.len() ==> here.subrange(0, pat.len() as int) == s@.subrange(
            i as int,
            i + pat.len(),
        ));
        if starts_with_at(s, i, pat) {
            return Some(i);
        }
        assert(here.drop_first() == s@.skip(i + 1));
        i += 1;
    }
    None
}

/// The position of the first occurrence of `pat` in `s`.
pub fn find(s: &[char], pat: &[char]) -> (r: Option<usize>)
    ensures
        match r {
            Some(i) => first_match(s@, pat@) == Some(i as int),
            None => first_match(s@, pat@) is None,
        },
{
    assert(s@.skip(0) == s@);
    find_from(s, 0, pat)
}

/// The parts of `s` between the occurrences of the separator `pat`.
pub fn split(s: &[char], pat: &[char]) -> (r: Vec<Vec<char>>)
    ensures
        views(r@) == pieces(s@, pat@),
{
    let mut out: Vec<Vec<char>> = Vec::new();
    let mut start: usize = 0;
    assert(s@.skip(0) == s@);
    loop
        invariant
            start <= s.len(),
            pieces(s@, pat@) == views(out@) + pieces(s@.skip(start as int), pat@),
        decreases s.len() - start,
    {
        let ghost rest = s@.skip(start as int);
        match find_from(s, start, pat) {
            Some(i) => {
                proof {
                    lemma_first_match_bounds(rest, pat@);
                    assert(rest.take(i - start) == s@.subrange(start as int, i as int));
                    assert(rest.skip(i - start + pat.len()) == s@.skip(i + pat.len()));
                }
                let piece = copy_range(s, start, i);
                let ghost before = views(out@);
                out.push(piece);
                assert(views(out@) == before + seq![piece@]);
                start = i + pat.len();
            },
            None => {
                let piece = copy_range(s, start, s.len());
                let ghost before = views(out@);
                out.push(piece);
                assert(views(out@) == before + seq![piece@]);
                return out;
            },
        }
    }
}

/// The texts of `parts` in order, with `sep` between each two neighbours.
pub fn join(parts: &[Vec<char>], sep: &[char]) -> (r: Vec<char>)
    ensures
        r@ == joined(views(parts@), sep@),
{
    let mut out: Vec<char> = Vec::new();
    let mut i: usize = 0;
    while i < parts.len()
        invariant
            i <= parts.len(),
            out@ == joined(views(parts@).take(i as int), sep@),
        decreases parts.len() - i,
    {
        proof {
            lemma_joined_push(views(parts@).take(i as int), parts@[i as int]@, sep@);
            assert(views(parts@).take(i + 1) == views(parts@).take(i as int).push(
                parts@[i as int]@,
            ));
        }
        if i > 0 {
            append(&mut out, sep);
        }
        append(&mut out, parts[i].as_slice());
        i += 1;
    }
    assert(views(parts@).take(parts.len() as int) == views(parts@));
    out
}

/// The words of `s`: its longest runs of characters that are not white
/// space, from left to right.
pub fn split_whitespace(s: &[char]) -> (r: Vec<Vec<char>>)
    ensures
        views(r@) == words(s@),
{
    let mut out: Vec<Vec<char>> = Vec::new();
    let mut i: usize = 0;
    assert(s@.skip(0) == s@);
    while i < s.len()
        invariant
            i <= s.len(),
            words(s@) == views(out@) + words(s@.skip(i as int)),
        decreases s.len() - i,
    {
        let ghost rest = s@.skip(i as int);
        if is_whitespace(s[i]) {
            assert(rest.drop_first() == s@.skip(i + 1));
            i += 1;
        } else {
            let mut j: usize = i + 1;
            while j < s.len() && !is_whitespace(s[j])
                invariant
                    i < j <= s.len(),
                    forall|k: int| i <= k < j ==> !spec_is_whitespace(s@[k]),
                decreases s.len() - j,
            {
                j += 1;
            }
            proof {
                lemma_word_len_is(rest, (j - i) as nat);
                assert(rest.take(j - i) == s@.subrange(i as int, j as int));
                assert(rest.skip(j - i) == s@.skip(j as int));
            }
            let word = copy_range(s, i, j);
            let ghost before = views(out@);
            out.push(word);
            assert(views(out@) == before + seq![word@]);
            i = j;
        }
    }
    out
}

/// Adding a part at the end of a joined text adds the separator, unless the
/// part is the first, and then the part.
pub proof fn lemma_joined_push(parts: Seq<Seq<char>>, last: Seq<char>, sep: Seq<char>)
    ensures
        joined(parts.push(last), sep) == if parts.len() == 0 {
            last
        } else {
            joined(parts, sep) + sep + last
        },
    decreases parts.len(),
{
    if parts.len() == 0 {
    } else {
        assert(parts.push(last).drop_first() == parts.drop_first().push(last));
        lemma_joined_push(parts.drop_first(), last, sep);
    }
}

/// A run of `n` characters that are not white space, followed by white space
/// or by the end of the text, is the first word.
pub proof fn lemma_word_len_is(s: Seq<char>, n: nat)
    requires
        n <= s.len(),
        forall|k: int| 0 <= k < n ==> !spec_is_whitespace(#[trigger] s[k]),
        n == s.len() || spec_is_whitespace(s[n as int]),
    ensures
        word_len(s) == n,
    decreases n,
{
    if n > 0 {
        let t = s.drop_first();
        assert forall|k: int| 0 <= k < n - 1 implies !spec_is_whitespace(#[trigger] t[k]) by {
            assert(t[k] == s[k + 1]);
        }
        lemma_word_len_is(t, (n - 1) as nat);
    }
}

} // verus!
