//! Checking a generated line against what speech recognition heard in it:
//! accent folding, token normalisation, longest common subsequences and the
//! verdict on an attempt.
use vstd::prelude::*;
use crate::strings::{chars_of, split_words, join_strings, views, words, join};
use crate::segments::{replace_each, replace_text};
use crate::text::pair_views;
use crate::tags::{utf8_len, utf8_len_of};
use crate::strings::same_chars;

verus! {

/// What `char::to_lowercase` yields for `c`.
pub uninterp spec fn lowercase_chars(c: char) -> Seq<char>;

/// Calls `char::to_lowercase` and collects what it yields. Claimed: the
/// result depends on the character alone and is named `lowercase_chars` of
/// it, and, as the documentation says, it is one or more characters.
#[verifier::external_body]
fn char_to_lowercase(c: char) -> (r: Vec<char>)
    ensures
        r@ == lowercase_chars(c),
        r@.len() >= 1,
{
    c.to_lowercase().collect()
}

/// The first character of the lowercase mapping of `c`.
pub open spec fn lowercase_first(c: char) -> char {
    lowercase_chars(c)[0]
}

pub open spec fn is_ascii_alnum(c: char) -> bool {
    ('a' <= c && c <= 'z') || ('A' <= c && c <= 'Z') || ('0' <= c && c <= '9')
}

/// The plain letter behind an accented lowercase Latin letter.
pub open spec fn accent_base(c: char) -> Option<char> {
    if c == '\u{e1}' || c == '\u{e0}' || c == '\u{e2}' || c == '\u{e3}' || c == '\u{e4}' || c
        == '\u{e5}' {
        Some('a')
    } else if c == '\u{e9}' || c == '\u{e8}' || c == '\u{ea}' || c == '\u{eb}' {
        Some('e')
    } else if c == '\u{ed}' || c == '\u{ec}' || c == '\u{ee}' || c == '\u{ef}' {
        Some('i')
    } else if c == '\u{f3}' || c == '\u{f2}' || c == '\u{f4}' || c == '\u{f5}' || c == '\u{f6}' {
        Some('o')
    } else if c == '\u{fa}' || c == '\u{f9}' || c == '\u{fb}' || c == '\u{fc}' {
        Some('u')
    } else if c == '\u{e7}' {
        Some('c')
    } else if c == '\u{f1}' {
        Some('n')
    } else {
        None
    }
}

/// A lowercased character kept when it is an ASCII letter or digit, folded to
/// its plain letter when it is an accented one, dropped otherwise.
pub open spec fn fold_lowered(lower: char) -> Option<char> {
    if is_ascii_alnum(lower) {
        Some(lower)
    } else {
        accent_base(lower)
    }
}

pub open spec fn folded_char(c: char) -> Option<char> {
    fold_lowered(lowercase_first(c))
}

pub open spec fn fold_or_space(c: char) -> char {
    match folded_char(c) {
        Some(f) => f,
        None => ' ',
    }
}

/// Every character folded, and every one that does not fold turned into a
/// space.
pub open spec fn folded_text(s: Seq<char>) -> Seq<char> {
    s.map_values(|c: char| fold_or_space(c))
}

/// Spellings of the palatal `t`/`d` that recognition writes, brought back to
/// the plain syllable.
pub open spec fn palatal_spellings() -> Seq<(Seq<char>, Seq<char>)> {
    seq![
        ("dchi"@, "di"@),
        ("dche"@, "de"@),
        ("tchi"@, "ti"@),
        ("tche"@, "te"@),
        ("chi"@, "ti"@),
        ("che"@, "te"@),
    ]
}

/// The words that the comparison works on.
pub open spec fn qc_tokens(s: Seq<char>) -> Seq<Seq<char>> {
    words(replace_each(folded_text(s), palatal_spellings(), 0))
}

pub open spec fn similarity_text(s: Seq<char>) -> Seq<char> {
    join(qc_tokens(s), seq![' '])
}

/// Folds one character for comparison: lowercase, accents removed, anything
/// but a letter or digit dropped.
pub fn fold_validation_char(character: char) -> (r: Option<char>)
    ensures
        r == folded_char(character),
{
    let lowered = char_to_lowercase(character);
    fold_lowered_char(lowered[0])
}

/// Folds a lower-cased character: ASCII letters and digits stay, accented
/// Latin letters lose their accent, anything else is dropped.
pub fn fold_lowered_char(lower: char) -> (r: Option<char>)
    ensures
        r == fold_lowered(lower),
{
    if ('a' <= lower && lower <= 'z') || ('A' <= lower && lower <= 'Z') || ('0' <= lower && lower
        <= '9') {
        return Some(lower);
    }
    if lower == '\u{e1}' || lower == '\u{e0}' || lower == '\u{e2}' || lower == '\u{e3}' || lower
        == '\u{e4}' || lower == '\u{e5}' {
        Some('a')
    } else if lower == '\u{e9}' || lower == '\u{e8}' || lower == '\u{ea}' || lower == '\u{eb}' {
        Some('e')
    } else if lower == '\u{ed}' || lower == '\u{ec}' || lower == '\u{ee}' || lower == '\u{ef}' {
        Some('i')
    } else if lower == '\u{f3}' || lower == '\u{f2}' || lower == '\u{f4}' || lower == '\u{f5}'
        || lower == '\u{f6}' {
        Some('o')
    } else if lower == '\u{fa}' || lower == '\u{f9}' || lower == '\u{fb}' || lower == '\u{fc}' {
        Some('u')
    } else if lower == '\u{e7}' {
        Some('c')
    } else if lower == '\u{f1}' {
        Some('n')
    } else {
        None
    }
}

fn palatal_spelling_table() -> (t: Vec<(&'static str, &'static str)>)
    ensures
        pair_views(t@) == palatal_spellings(),
{
    let mut t: Vec<(&'static str, &'static str)> = Vec::new();
    t.push(("dchi", "di"));
    t.push(("dche", "de"));
    t.push(("tchi", "ti"));
    t.push(("tche", "te"));
    t.push(("chi", "ti"));
    t.push(("che", "te"));
    assert(pair_views(t@) =~= palatal_spellings());
    t
}

/// The normalised words of a text: folded characters, palatal spellings
/// undone, split on whitespace.
pub fn normalized_qc_tokens(value: &str) -> (tokens: Vec<String>)
    ensures
        views(tokens@) == qc_tokens(value@),
{
    let chars = chars_of(value);
    let mut folded: Vec<char> = Vec::new();
    let mut i: usize = 0;
    while i < chars.len()
        invariant
            i <= chars.len(),
            chars@ == value@,
            folded@ == folded_text(chars@.take(i as int)),
        decreases chars.len() - i,
    {
        let c = chars[i];
        let f = match fold_validation_char(c) {
            Some(f) => f,
            None => ' ',
        };
        folded.push(f);
        i = i + 1;
        assert(folded_text(chars@.take(i as int)) =~= folded_text(chars@.take(i - 1)).push(
            fold_or_space(c),
        ));
    }
    assert(chars@.take(chars.len() as int) == chars@);
    let table = palatal_spelling_table();
    let ghost t = pair_views(table@);
    let mut current = folded;
    let mut k: usize = 0;
    while k < table.len()
        invariant
            k <= table.len(),
            t == pair_views(table@),
            t == palatal_spellings(),
            replace_each(folded_text(value@), t, 0) == replace_each(current@, t, k as int),
        decreases table.len() - k,
    {
        let (from, to) = table[k];
        assert(t[k as int] == (from@, to@));
        current = replace_text(&current, from, to);
        k = k + 1;
    }
    split_words(&current)
}

/// The normalised words joined by single spaces.
pub fn normalized_similarity_text(value: &str) -> (r: String)
    ensures
        r@ == similarity_text(value@),
{
    let tokens = normalized_qc_tokens(value);
    proof {
        reveal_strlit(" ");
        assert(" "@ =~= seq![' ']);
    }
    join_strings(&tokens, " ")
}


/// Length of a longest common subsequence of `a` and `b`, where two items
/// count as matching when `same` holds of them.
pub open spec fn lcs_with<T>(a: Seq<T>, b: Seq<T>, same: spec_fn(T, T) -> bool) -> nat
    decreases a.len() + b.len(),
{
    if a.len() == 0 || b.len() == 0 {
        0
    } else if same(a.last(), b.last()) {
        lcs_with(a.drop_last(), b.drop_last(), same) + 1
    } else {
        let skip_a = lcs_with(a.drop_last(), b, same);
        let skip_b = lcs_with(a, b.drop_last(), same);
        if skip_a >= skip_b {
            skip_a
        } else {
            skip_b
        }
    }
}

pub open spec fn same_char() -> spec_fn(char, char) -> bool {
    |x: char, y: char| x == y
}

pub proof fn lemma_lcs_bounded<T>(a: Seq<T>, b: Seq<T>, same: spec_fn(T, T) -> bool)
    ensures
        lcs_with(a, b, same) <= a.len(),
        lcs_with(a, b, same) <= b.len(),
    decreases a.len() + b.len(),
{
    if a.len() > 0 && b.len() > 0 {
        lemma_lcs_bounded(a.drop_last(), b.drop_last(), same);
        lemma_lcs_bounded(a.drop_last(), b, same);
        lemma_lcs_bounded(a, b.drop_last(), same);
    }
}

/// Length of a longest common subsequence of two character sequences.
pub fn lcs_char_count(left: &[char], right: &[char]) -> (n: usize)
    ensures
        n == lcs_with(left@, right@, same_char()),
{
    let m = right.len();
    let mut previous: Vec<usize> = Vec::new();
    previous.push(0);
    let mut z: usize = 0;
    while z < m
        invariant
            z <= m,
            m == right.len(),
            previous.len() == z + 1,
            forall|k: int| 0 <= k <= z ==> previous@[k] == 0,
        decreases m - z,
    {
        previous.push(0);
        z = z + 1;
    }
    assert forall|k: int| 0 <= k <= m implies previous@[k] == lcs_with(
        left@.take(0),
        right@.take(k),
        same_char(),
    ) by {}
    let mut i: usize = 0;
    while i < left.len()
        invariant
            i <= left.len(),
            m == right.len(),
            previous.len() == m + 1,
            forall|k: int|
                0 <= k <= m ==> previous@[k] == lcs_with(
                    left@.take(i as int),
                    right@.take(k),
                    same_char(),
                ),
        decreases left.len() - i,
    {
        let ghost a = left@.take(i + 1);
        assert(a.drop_last() == left@.take(i as int));
        assert(a.last() == left@[i as int]);
        let mut current: Vec<usize> = Vec::new();
        current.push(0);
        let mut j: usize = 0;
        while j < m
            invariant
                i < left.len(),
                j <= m,
                m == right.len(),
                a == left@.take(i + 1),
                a.drop_last() == left@.take(i as int),
                a.last() == left@[i as int],
                previous.len() == m + 1,
                current.len() == j + 1,
                forall|k: int|
                    0 <= k <= m ==> previous@[k] == lcs_with(
                        left@.take(i as int),
                        right@.take(k),
                        same_char(),
                    ),
                forall|k: int|
                    0 <= k <= j ==> current@[k] == lcs_with(a, right@.take(k), same_char()),
            decreases m - j,
        {
            let ghost b = right@.take(j + 1);
            assert(b.drop_last() == right@.take(j as int));
            assert(b.last() == right@[j as int]);
            proof {
                lemma_lcs_bounded(left@.take(i as int), right@.take(j as int), same_char());
            }
            let v = if left[i] == right[j] {
                previous[j] + 1
            } else if previous[j + 1] >= current[j] {
                previous[j + 1]
            } else {
                current[j]
            };
            current.push(v);
            j = j + 1;
        }
        previous = current;
        i = i + 1;
    }
    assert(left@.take(left.len() as int) == left@);
    assert(right@.take(m as int) == right@);
    previous[m]
}


/// Two words count as the same word when they are equal, or when both take
/// more than two bytes and their characters agree on at least 78% in the
/// sense of `2 * lcs / (len_a + len_b)`.
pub open spec fn tokens_equal(left: Seq<char>, right: Seq<char>) -> bool {
    ||| left == right
    ||| {
        &&& utf8_len(left) > 2
        &&& utf8_len(right) > 2
        &&& 200 * lcs_with(left, right, same_char()) >= 78 * (left.len() + right.len())
    }
}

pub open spec fn token_relation() -> spec_fn(Seq<char>, Seq<char>) -> bool {
    |l: Seq<char>, r: Seq<char>| tokens_equal(l, r)
}

/// Whether the text takes more than two bytes in UTF-8.
fn longer_than_two_bytes(chars: &Vec<char>) -> (r: bool)
    ensures
        r == (utf8_len(chars@) > 2),
{
    let mut total: usize = 0;
    let mut i: usize = 0;
    while i < chars.len()
        invariant
            i <= chars.len(),
            total == (if utf8_len(chars@.take(i as int)) > 3 {
                3
            } else {
                utf8_len(chars@.take(i as int))
            }),
        decreases chars.len() - i,
    {
        assert(chars@.take(i + 1).drop_last() == chars@.take(i as int));
        let add = utf8_len_of(chars[i]);
        total = if total + add > 3 {
            3
        } else {
            total + add
        };
        i = i + 1;
    }
    assert(chars@.take(chars.len() as int) == chars@);
    total > 2
}

/// Whether two words count as the same word (see `tokens_equal`).
pub fn tokens_look_equal(left: &str, right: &str) -> (r: bool)
    ensures
        r == tokens_equal(left@, right@),
{
    let left_chars = chars_of(left);
    let right_chars = chars_of(right);
    if same_chars(&left_chars, &right_chars) {
        return true;
    }
    if !longer_than_two_bytes(&left_chars) || !longer_than_two_bytes(&right_chars) {
        return false;
    }
    let matches = lcs_char_count(left_chars.as_slice(), right_chars.as_slice());
    let total = left_chars.len() as u128 + right_chars.len() as u128;
    200 * (matches as u128) >= 78 * total
}

/// Length of a longest common subsequence of two word lists, where words
/// match as `tokens_look_equal` says.
pub fn fuzzy_lcs_count(expected: &[String], heard: &[String]) -> (n: usize)
    ensures
        n == lcs_with(views(expected@), views(heard@), token_relation()),
{
    let ghost ev = views(expected@);
    let ghost hv = views(heard@);
    let m = heard.len();
    let mut previous: Vec<usize> = Vec::new();
    previous.push(0);
    let mut z: usize = 0;
    while z < m
        invariant
            z <= m,
            m == heard.len(),
            previous.len() == z + 1,
            forall|k: int| 0 <= k <= z ==> previous@[k] == 0,
        decreases m - z,
    {
        previous.push(0);
        z = z + 1;
    }
    assert forall|k: int| 0 <= k <= m implies previous@[k] == lcs_with(
        ev.take(0),
        hv.take(k),
        token_relation(),
    ) by {}
    let mut i: usize = 0;
    while i < expected.len()
        invariant
            i <= expected.len(),
            m == heard.len(),
            ev == views(expected@),
            hv == views(heard@),
            previous.len() == m + 1,
            forall|k: int|
                0 <= k <= m ==> previous@[k] == lcs_with(
                    ev.take(i as int),
                    hv.take(k),
                    token_relation(),
                ),
        decreases expected.len() - i,
    {
        let ghost a = ev.take(i + 1);
        assert(a.drop_last() == ev.take(i as int));
        assert(a.last() == expected@[i as int]@);
        let mut current: Vec<usize> = Vec::new();
        current.push(0);
        let mut j: usize = 0;
        while j < m
            invariant
                i < expected.len(),
                j <= m,
                m == heard.len(),
                ev == views(expected@),
                hv == views(heard@),
                a == ev.take(i + 1),
                a.drop_last() == ev.take(i as int),
                a.last() == expected@[i as int]@,
                previous.len() == m + 1,
                current.len() == j + 1,
                forall|k: int|
                    0 <= k <= m ==> previous@[k] == lcs_with(
                        ev.take(i as int),
                        hv.take(k),
                        token_relation(),
                    ),
                forall|k: int|
                    0 <= k <= j ==> current@[k] == lcs_with(a, hv.take(k), token_relation()),
            decreases m - j,
        {
            let ghost b = hv.take(j + 1);
            assert(b.drop_last() == hv.take(j as int));
            assert(b.last() == heard@[j as int]@);
            proof {
                lemma_lcs_bounded(ev.take(i as int), hv.take(j as int), token_relation());
            }
            let v = if tokens_look_equal(expected[i].as_str(), heard[j].as_str()) {
                previous[j] + 1
            } else if previous[j + 1] >= current[j] {
                previous[j + 1]
            } else {
                current[j]
            };
            current.push(v);
            j = j + 1;
        }
        previous = current;
        i = i + 1;
    }
    assert(ev.take(expected.len() as int) == ev);
    assert(hv.take(m as int) == hv);
    previous[m]
}


/// The last `n` items of `s` (all of them when it has fewer).
pub open spec fn last_n<T>(s: Seq<T>, n: int) -> Seq<T> {
    if s.len() <= n {
        s
    } else {
        s.skip(s.len() - n)
    }
}

/// The words that take more than two bytes.
pub open spec fn meaningful(tokens: Seq<Seq<char>>) -> Seq<Seq<char>>
    decreases tokens.len(),
{
    if tokens.len() == 0 {
        seq![]
    } else if utf8_len(tokens.last()) > 2 {
        meaningful(tokens.drop_last()).push(tokens.last())
    } else {
        meaningful(tokens.drop_last())
    }
}

/// The words whose presence at the end is checked: the last three
/// meaningful words, or the last three words when none is meaningful.
pub open spec fn final_tokens(expected: Seq<Seq<char>>) -> Seq<Seq<char>> {
    if meaningful(expected).len() == 0 {
        last_n(expected, 3)
    } else {
        last_n(meaningful(expected), 3)
    }
}

/// The end of what was heard in which they are looked for: the last eight
/// words, or three more than there are words to find.
pub open spec fn heard_window(heard: Seq<Seq<char>>, wanted: nat) -> Seq<Seq<char>> {
    last_n(heard, if wanted + 3 > 8 { wanted + 3 as int } else { 8 })
}

/// Whether the wanted words can be found in the window in order, each one
/// taken at the first place after the previous one where it matches.
pub open spec fn found_in_order(wanted: Seq<Seq<char>>, window: Seq<Seq<char>>) -> bool
    decreases window.len(),
{
    if wanted.len() == 0 {
        true
    } else if window.len() == 0 {
        false
    } else if tokens_equal(wanted[0], window[0]) {
        found_in_order(wanted.drop_first(), window.drop_first())
    } else {
        found_in_order(wanted, window.drop_first())
    }
}

pub open spec fn tail_present(expected: Seq<Seq<char>>, heard: Seq<Seq<char>>) -> bool {
    expected.len() == 0 || found_in_order(
        final_tokens(expected),
        heard_window(heard, final_tokens(expected).len()),
    )
}

fn take_last(list: &[String], n: usize) -> (r: Vec<String>)
    ensures
        views(r@) == last_n(views(list@), n as int),
        r.len() <= n,
{
    let start: usize = if list.len() <= n {
        0
    } else {
        list.len() - n
    };
    let mut r: Vec<String> = Vec::new();
    let mut i: usize = start;
    while i < list.len()
        invariant
            start <= i <= list.len(),
            views(r@) == views(list@).subrange(start as int, i as int),
        decreases list.len() - i,
    {
        let ghost before = r@;
        let item = list[i].clone();
        r.push(item);
        assert(views(r@) =~= views(before).push(list@[i as int]@));
        i = i + 1;
        assert(views(r@) =~= views(list@).subrange(start as int, i as int));
    }
    assert(views(list@).subrange(start as int, list.len() as int) =~= last_n(
        views(list@),
        n as int,
    ));
    r
}

/// Whether the last words that were expected are heard, in order, near the
/// end of what was heard.
pub fn expected_tail_is_present(expected_tokens: &[String], heard_tokens: &[String]) -> (r: bool)
    ensures
        r == tail_present(views(expected_tokens@), views(heard_tokens@)),
{
    if expected_tokens.len() == 0 {
        return true;
    }
    let ghost ev = views(expected_tokens@);
    let mut kept: Vec<String> = Vec::new();
    let mut i: usize = 0;
    while i < expected_tokens.len()
        invariant
            i <= expected_tokens.len(),
            ev == views(expected_tokens@),
            views(kept@) == meaningful(ev.take(i as int)),
        decreases expected_tokens.len() - i,
    {
        let ghost prefix = ev.take(i + 1);
        assert(ev.len() == expected_tokens@.len());
        assert(prefix.len() == i + 1);
        assert(prefix.drop_last() == ev.take(i as int));
        assert(prefix.last() == expected_tokens@[i as int]@);
        assert(meaningful(prefix) == (if utf8_len(prefix.last()) > 2 {
            meaningful(ev.take(i as int)).push(prefix.last())
        } else {
            meaningful(ev.take(i as int))
        }));
        let chars = chars_of(expected_tokens[i].as_str());
        if longer_than_two_bytes(&chars) {
            let ghost before = kept@;
            let item = expected_tokens[i].clone();
            kept.push(item);
            assert(views(kept@) =~= views(before).push(expected_tokens@[i as int]@));
        }
        i = i + 1;
    }
    assert(ev.take(expected_tokens.len() as int) == ev);
    let wanted = if kept.len() == 0 {
        take_last(expected_tokens, 3)
    } else {
        take_last(kept.as_slice(), 3)
    };
    let size: usize = if wanted.len() + 3 > 8 {
        wanted.len() + 3
    } else {
        8
    };
    let window = take_last(heard_tokens, size);
    let ghost wv = views(wanted@);
    let ghost hv = views(window@);
    assert(wv.skip(0) == wv);
    assert(hv.skip(0) == hv);
    let mut t: usize = 0;
    let mut position: usize = 0;
    while t < wanted.len() && position < window.len()
        invariant
            t <= wanted.len(),
            position <= window.len(),
            wv == views(wanted@),
            hv == views(window@),
            found_in_order(wv, hv) == found_in_order(wv.skip(t as int), hv.skip(position as int)),
        decreases window.len() - position,
    {
        assert(wv.skip(t as int)[0] == wanted@[t as int]@);
        assert(hv.skip(position as int)[0] == window@[position as int]@);
        assert(wv.skip(t as int).drop_first() =~= wv.skip(t + 1));
        assert(hv.skip(position as int).drop_first() =~= hv.skip(position + 1));
        if tokens_look_equal(wanted[t].as_str(), window[position].as_str()) {
            t = t + 1;
        }
        position = position + 1;
    }
    assert(wv.skip(0) == wv);
    assert(hv.skip(0) == hv);
    t == wanted.len()
}


/// What the comparison of an expected line with what was heard in it found.
/// The similarity of the two normalised texts is
/// `2 * similarity_matches / (expected_chars + heard_chars)`, the coverage is
/// `covered_tokens / expected_tokens.len()`.
pub struct V14TextMetrics {
    pub similarity_matches: usize,
    pub expected_chars: usize,
    pub heard_chars: usize,
    pub covered_tokens: usize,
    pub tail_ok: bool,
    pub expected_tokens: Vec<String>,
    pub heard_tokens: Vec<String>,
}

impl V14TextMetrics {
    /// The similarity is at least `percent` hundredths (two empty texts are
    /// fully similar).
    pub open spec fn similarity_reaches(&self, percent: nat) -> bool {
        200 * self.similarity_matches >= percent * (self.expected_chars + self.heard_chars)
    }

    /// The coverage is at least `percent` hundredths (nothing expected is
    /// fully covered).
    pub open spec fn coverage_reaches(&self, percent: nat) -> bool {
        self.expected_tokens.len() == 0 || 100 * self.covered_tokens >= percent
            * self.expected_tokens.len()
    }

    pub fn similarity_at_least(&self, percent: u8) -> (r: bool)
        ensures
            r == self.similarity_reaches(percent as nat),
    {
        let scale = percent as u128;
        let total = self.expected_chars as u128 + self.heard_chars as u128;
        assert(scale * total <= 255 * 0x2_0000_0000_0000_0000) by (nonlinear_arith)
            requires
                scale <= 255,
                total <= 0x2_0000_0000_0000_0000,
        ;
        200 * (self.similarity_matches as u128) >= scale * total
    }

    pub fn coverage_at_least(&self, percent: u8) -> (r: bool)
        ensures
            r == self.coverage_reaches(percent as nat),
    {
        let scale = percent as u128;
        let total = self.expected_tokens.len() as u128;
        assert(scale * total <= 255 * 0x1_0000_0000_0000_0000) by (nonlinear_arith)
            requires
                scale <= 255,
                total <= 0x1_0000_0000_0000_0000,
        ;
        self.expected_tokens.len() == 0 || 100 * (self.covered_tokens as u128) >= scale * total
    }
}

/// Compares the line that was meant to be spoken with what was heard.
pub fn v14_text_metrics(expected_text: &str, heard_text: &str) -> (m: V14TextMetrics)
    ensures
        m.similarity_matches == lcs_with(
            similarity_text(expected_text@),
            similarity_text(heard_text@),
            same_char(),
        ),
        m.expected_chars == similarity_text(expected_text@).len(),
        m.heard_chars == similarity_text(heard_text@).len(),
        views(m.expected_tokens@) == qc_tokens(expected_text@),
        views(m.heard_tokens@) == qc_tokens(heard_text@),
        m.covered_tokens == lcs_with(
            qc_tokens(expected_text@),
            qc_tokens(heard_text@),
            token_relation(),
        ),
        m.tail_ok == tail_present(qc_tokens(expected_text@), qc_tokens(heard_text@)),
{
    let expected_similarity = chars_of(normalized_similarity_text(expected_text).as_str());
    let heard_similarity = chars_of(normalized_similarity_text(heard_text).as_str());
    let similarity_matches = lcs_char_count(
        expected_similarity.as_slice(),
        heard_similarity.as_slice(),
    );
    let expected_tokens = normalized_qc_tokens(expected_text);
    let heard_tokens = normalized_qc_tokens(heard_text);
    let covered_tokens = fuzzy_lcs_count(expected_tokens.as_slice(), heard_tokens.as_slice());
    let tail_ok = expected_tail_is_present(expected_tokens.as_slice(), heard_tokens.as_slice());
    V14TextMetrics {
        similarity_matches,
        expected_chars: expected_similarity.len(),
        heard_chars: heard_similarity.len(),
        covered_tokens,
        tail_ok,
        expected_tokens,
        heard_tokens,
    }
}

/// The outcome of checking a generated attempt against the expected line.
#[derive(Debug, Clone, Copy, PartialEq, Eq, Structural)]
pub enum V14Verdict {
    Accepted,
    TextDiverged,
    MissingWords,
    IncompleteEnding,
}

pub open spec fn verdict_of(m: V14TextMetrics) -> V14Verdict {
    let similar = m.similarity_reaches(55);
    let covered = m.expected_tokens.len() <= 2 || m.coverage_reaches(70);
    if similar && covered && m.tail_ok {
        V14Verdict::Accepted
    } else if !similar {
        V14Verdict::TextDiverged
    } else if !covered {
        V14Verdict::MissingWords
    } else {
        V14Verdict::IncompleteEnding
    }
}

/// An attempt passes when its similarity reaches 0.55, its coverage 0.70
/// (unless at most two words were expected) and its last words are heard;
/// otherwise the first of these that fails names the rejection.
pub fn v14_verdict(metrics: &V14TextMetrics) -> (v: V14Verdict)
    ensures
        v == verdict_of(*metrics),
{
    let similar = metrics.similarity_at_least(55);
    let covered = metrics.expected_tokens.len() <= 2 || metrics.coverage_at_least(70);
    if similar && covered && metrics.tail_ok {
        V14Verdict::Accepted
    } else if !similar {
        V14Verdict::TextDiverged
    } else if !covered {
        V14Verdict::MissingWords
    } else {
        V14Verdict::IncompleteEnding
    }
}

/// The last `n` words joined by single spaces.
pub fn last_words(tokens: &[String], n: usize) -> (r: String)
    ensures
        r@ == join(last_n(views(tokens@), n as int), seq![' ']),
{
    let kept = take_last(tokens, n);
    proof {
        reveal_strlit(" ");
        assert(" "@ =~= seq![' ']);
    }
    join_strings(&kept, " ")
}

/// A sequence shares all of itself with itself, when matching is reflexive.
pub proof fn lemma_lcs_self<T>(a: Seq<T>, same: spec_fn(T, T) -> bool)
    requires
        forall|x: T| #[trigger] same(x, x),
    ensures
        lcs_with(a, a, same) == a.len(),
    decreases a.len(),
{
    if a.len() > 0 {
        assert(same(a.last(), a.last()));
        lemma_lcs_self(a.drop_last(), same);
    }
}

/// Hearing exactly the line that was meant gives full similarity and full
/// coverage.
pub proof fn law_identical_line_fully_matches(text: Seq<char>)
    ensures
        lcs_with(similarity_text(text), similarity_text(text), same_char())
            == similarity_text(text).len(),
        lcs_with(qc_tokens(text), qc_tokens(text), token_relation()) == qc_tokens(text).len(),
{
    assert forall|x: char| #[trigger] same_char()(x, x) by {}
    assert forall|x: Seq<char>| #[trigger] token_relation()(x, x) by {}
    lemma_lcs_self(similarity_text(text), same_char());
    lemma_lcs_self(qc_tokens(text), token_relation());
}

/// Matching is symmetric when the item relation is: the common subsequence
/// of `a` and `b` is as long as that of `b` and `a`.
pub proof fn lemma_lcs_symmetric<T>(a: Seq<T>, b: Seq<T>, same: spec_fn(T, T) -> bool)
    requires
        forall|x: T, y: T| #[trigger] same(x, y) == same(y, x),
    ensures
        lcs_with(a, b, same) == lcs_with(b, a, same),
    decreases a.len() + b.len(),
{
    if a.len() > 0 && b.len() > 0 {
        assert(same(a.last(), b.last()) == same(b.last(), a.last()));
        lemma_lcs_symmetric(a.drop_last(), b.drop_last(), same);
        lemma_lcs_symmetric(a.drop_last(), b, same);
        lemma_lcs_symmetric(a, b.drop_last(), same);
    }
}

/// The similarity of two lines does not depend on which one is the expected
/// one.
pub proof fn law_similarity_is_symmetric(expected: Seq<char>, heard: Seq<char>)
    ensures
        lcs_with(similarity_text(expected), similarity_text(heard), same_char()) == lcs_with(
            similarity_text(heard),
            similarity_text(expected),
            same_char(),
        ),
{
    assert forall|x: char, y: char| #[trigger] same_char()(x, y) == same_char()(y, x) by {}
    lemma_lcs_symmetric(similarity_text(expected), similarity_text(heard), same_char());
}

/// An attempt is accepted exactly when its similarity reaches 0.55, its
/// coverage 0.70 (unless at most two words were expected) and its expected
/// ending was heard. So an attempt whose ending was not heard is never
/// accepted: it is rejected as an incomplete ending when similarity and
/// coverage pass.
pub proof fn law_accepted_attempts_end_as_expected(m: V14TextMetrics)
    ensures
        (verdict_of(m) == V14Verdict::Accepted) <==> (200 * m.similarity_matches >= 55 * (
        m.expected_chars + m.heard_chars) && (m.expected_tokens.len() <= 2 || 100
            * m.covered_tokens >= 70 * m.expected_tokens.len()) && m.tail_ok),
        !m.tail_ok ==> verdict_of(m) != V14Verdict::Accepted,
        !m.tail_ok && 200 * m.similarity_matches >= 55 * (m.expected_chars + m.heard_chars) && (
        m.expected_tokens.len() <= 2 || 100 * m.covered_tokens >= 70 * m.expected_tokens.len())
            ==> verdict_of(m) == V14Verdict::IncompleteEnding,
        200 * m.similarity_matches < 55 * (m.expected_chars + m.heard_chars) ==> verdict_of(m)
            == V14Verdict::TextDiverged,
{
}

} // verus!
