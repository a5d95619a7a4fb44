//! Portuguese text adjustments applied to a translation before synthesis:
//! final punctuation taken from the source line, a comma before question
//! marks, pronunciation hints and palatalization of `t`/`d` endings.
use vstd::prelude::*;
use crate::strings::{
    is_space,
    chars_of, ends_with_char, has_suffix, join, join_strings, push_range, split_words_str,
    starts_with_char, string_from_chars, string_from_range, text_equals, trim, trim_bounds,
    trim_end, trim_end_len, views, words,
};

verus! {

/// `s` without the trailing characters that belong to `set`, as
/// `str::trim_end_matches` with a slice of characters returns it.
pub open spec fn strip_end_of(s: Seq<char>, set: Seq<char>) -> Seq<char>
    decreases s.len(),
{
    if s.len() > 0 && set.contains(s.last()) {
        strip_end_of(s.drop_last(), set)
    } else {
        s
    }
}

/// `s` without the leading characters that belong to `set`.
pub open spec fn strip_start_of(s: Seq<char>, set: Seq<char>) -> Seq<char>
    decreases s.len(),
{
    if s.len() > 0 && set.contains(s[0]) {
        strip_start_of(s.drop_first(), set)
    } else {
        s
    }
}

/// Trailing characters removed from the translated line before its final
/// punctuation is replaced.
pub open spec fn base_trailing_marks() -> Seq<char> {
    seq!['.', '?', '!', ';', ':', ',', '"', '\'', ' ', '\u{201d}', '\u{2019}']
}

/// Trailing characters ignored on the reference line when its final
/// punctuation is read.
pub open spec fn reference_trailing_marks() -> Seq<char> {
    seq!['"', '\'', ' ', '\u{201d}', '\u{2019}']
}

/// The translated line ending in the punctuation (`?`, `!` or `.`) that ends
/// the reference line; lines where either side is blank come back unchanged.
pub open spec fn synchronized_punctuation(base: Seq<char>, reference: Seq<char>) -> Seq<char> {
    if trim(base).len() == 0 || trim(reference).len() == 0 {
        base
    } else {
        let body = strip_end_of(trim(base), base_trailing_marks());
        let cue = strip_end_of(trim(reference), reference_trailing_marks());
        if ends_with_char(cue, '?') {
            body.push('?')
        } else if ends_with_char(cue, '!') {
            body.push('!')
        } else if ends_with_char(cue, '.') {
            body.push('.')
        } else {
            body
        }
    }
}

/// Text read left to right where each `?` that follows visible text not
/// already ending in a comma is written as `, ?` after the trailing
/// whitespace is dropped.
pub open spec fn comma_question(s: Seq<char>) -> Seq<char>
    decreases s.len(),
{
    if s.len() == 0 {
        seq![]
    } else {
        let prev = comma_question(s.drop_last());
        if s.last() == '?' {
            let body = trim_end(prev);
            if body.len() > 0 && body.last() != ',' {
                body + seq![',', ' ', '?']
            } else {
                prev.push('?')
            }
        } else {
            prev.push(s.last())
        }
    }
}

/// What `str::to_lowercase` returns for a text: Unicode lower-case mapping.
pub uninterp spec fn lowercase_text(s: Seq<char>) -> Seq<char>;

/// The replacement paired with `key` in `table`, from position `i` on.
pub open spec fn table_lookup(key: Seq<char>, table: Seq<(Seq<char>, Seq<char>)>, i: int) -> Option<
    Seq<char>,
>
    decreases table.len() - i,
{
    if i < 0 || i >= table.len() {
        None
    } else if table[i].0 == key {
        Some(table[i].1)
    } else {
        table_lookup(key, table, i + 1)
    }
}

pub open spec fn pair_views(t: Seq<(&str, &str)>) -> Seq<(Seq<char>, Seq<char>)> {
    t.map_values(|p: (&str, &str)| (p.0@, p.1@))
}

/// Words whose stressed vowel gets an accent so that it is spoken open.
pub open spec fn pronunciation_pairs() -> Seq<(Seq<char>, Seq<char>)> {
    seq![
        ("olho"@, "ólho"@),
        ("posso"@, "pósso"@),
        ("jogo"@, "jógo"@),
        ("gosto"@, "gósto"@),
        ("fora"@, "fóra"@),
        ("agora"@, "agóra"@),
        ("por"@, "pór"@),
        ("milha"@, "mílha"@),
    ]
}

/// A word replaced by its accented spelling when its lower-case form is in
/// the table; any other word unchanged.
pub open spec fn corrected_token(token: Seq<char>) -> Seq<char> {
    match table_lookup(lowercase_text(token), pronunciation_pairs(), 0) {
        Some(replacement) => replacement,
        None => token,
    }
}

pub open spec fn corrected_tokens(tokens: Seq<Seq<char>>) -> Seq<Seq<char>> {
    tokens.map_values(|t: Seq<char>| corrected_token(t))
}

/// The words of the text, each corrected, separated by single spaces.
pub open spec fn corrected_pronunciation(text: Seq<char>) -> Seq<char> {
    join(corrected_tokens(words(text)), seq![' '])
}

/// Endings whose `t`/`d` is palatalized, in the order they are tried.
pub open spec fn palatal_pairs() -> Seq<(Seq<char>, Seq<char>)> {
    seq![
        ("tis"@, "tchis"@),
        ("tes"@, "tches"@),
        ("ti"@, "tchi"@),
        ("te"@, "tche"@),
        ("dis"@, "dchis"@),
        ("des"@, "dches"@),
        ("di"@, "dchi"@),
        ("de"@, "dche"@),
    ]
}

/// ASCII upper-case of a character, as `char::to_ascii_uppercase` gives it.
pub open spec fn ascii_upper(c: char) -> char {
    if 'a' <= c && c <= 'z' {
        ((c as u32) - 32) as char
    } else {
        c
    }
}

/// The text with its first character in ASCII upper case.
pub open spec fn capitalized(s: Seq<char>) -> Seq<char> {
    if s.len() == 0 {
        s
    } else {
        seq![ascii_upper(s[0])] + s.skip(1)
    }
}

/// A word that starts with `[` and ends with `]`, such as a voice tag.
pub open spec fn is_control_token(s: Seq<char>) -> bool {
    starts_with_char(s, '[') && ends_with_char(s, ']')
}

/// The first ending of the table, from position `i` on, found at the end of
/// a longer word (in lower case, else capitalized) replaced by its
/// palatalized form.
pub open spec fn palatalize_from(token: Seq<char>, table: Seq<(Seq<char>, Seq<char>)>, i: int) -> Seq<
    char,
>
    decreases table.len() - i,
{
    if i < 0 || i >= table.len() {
        token
    } else {
        let from = table[i].0;
        let to = table[i].1;
        let cap = capitalized(from);
        if token.len() > from.len() && from.is_suffix_of(token) {
            token.take(token.len() - from.len()) + to
        } else if token.len() > cap.len() && cap.is_suffix_of(token) {
            token.take(token.len() - cap.len()) + capitalized(to)
        } else {
            palatalize_from(token, table, i + 1)
        }
    }
}

pub open spec fn palatalized_token(token: Seq<char>) -> Seq<char> {
    if is_control_token(token) {
        token
    } else {
        palatalize_from(token, palatal_pairs(), 0)
    }
}

pub open spec fn palatalized_tokens(tokens: Seq<Seq<char>>) -> Seq<Seq<char>> {
    tokens.map_values(|t: Seq<char>| palatalized_token(t))
}

/// The words of the text, each palatalized, separated by single spaces.
pub open spec fn palatalized(text: Seq<char>) -> Seq<char> {
    join(palatalized_tokens(words(text)), seq![' '])
}

/// Calls `str::to_lowercase`. Claimed: the result depends on the text alone
/// and is named `lowercase_text` of it; Unicode's case mapping is not
/// written out.
#[verifier::external_body]
pub(crate) fn to_lowercase(text: &str) -> (lower: String)
    ensures
        lower@ == lowercase_text(text@),
{
    text.to_lowercase()
}

pub fn contains_char(set: &Vec<char>, c: char) -> (r: bool)
    ensures
        r == set@.contains(c),
{
    let mut i: usize = 0;
    while i < set.len()
        invariant
            i <= set.len(),
            forall|j: int| 0 <= j < i ==> set@[j] != c,
        decreases set.len() - i,
    {
        if set[i] == c {
            return true;
        }
        i = i + 1;
    }
    false
}

pub proof fn lemma_strip_end_take(s: Seq<char>, set: Seq<char>, k: int)
    requires
        0 <= k <= s.len(),
        forall|i: int| k <= i < s.len() ==> set.contains(#[trigger] s[i]),
    ensures
        strip_end_of(s, set) == strip_end_of(s.take(k), set),
    decreases s.len() - k,
{
    if k < s.len() {
        assert(s.drop_last().take(k) == s.take(k));
        lemma_strip_end_take(s.drop_last(), set, k);
    } else {
        assert(s.take(k) == s);
    }
}

pub proof fn lemma_strip_start_skip(s: Seq<char>, set: Seq<char>, k: int)
    requires
        0 <= k <= s.len(),
        forall|i: int| 0 <= i < k ==> set.contains(#[trigger] s[i]),
    ensures
        strip_start_of(s, set) == strip_start_of(s.skip(k), set),
    decreases k,
{
    if k > 0 {
        assert(s.drop_first().skip(k - 1) == s.skip(k));
        lemma_strip_start_skip(s.drop_first(), set, k - 1);
    } else {
        assert(s.skip(0) == s);
    }
}

/// Start of `chars[from..to]` once the leading characters in `set` are
/// removed.
pub fn strip_start_of_len(chars: &Vec<char>, from: usize, to: usize, set: &Vec<char>) -> (k: usize)
    requires
        from <= to <= chars.len(),
    ensures
        from <= k <= to,
        strip_start_of(chars@.subrange(from as int, to as int), set@) == chars@.subrange(
            k as int,
            to as int,
        ),
{
    let mut k = from;
    while k < to && contains_char(set, chars[k])
        invariant
            from <= k <= to <= chars.len(),
            forall|i: int| from <= i < k ==> set@.contains(#[trigger] chars@[i]),
        decreases to - k,
    {
        k = k + 1;
    }
    proof {
        let s = chars@.subrange(from as int, to as int);
        assert forall|i: int| 0 <= i < k - from implies set@.contains(#[trigger] s[i]) by {
            assert(s[i] == chars@[i + from]);
        }
        lemma_strip_start_skip(s, set@, k - from);
        assert(s.skip(k - from) == chars@.subrange(k as int, to as int));
    }
    k
}

/// End of `chars[from..to]` once the trailing characters in `set` are removed.
pub fn strip_end_of_len(chars: &Vec<char>, from: usize, to: usize, set: &Vec<char>) -> (k: usize)
    requires
        from <= to <= chars.len(),
    ensures
        from <= k <= to,
        strip_end_of(chars@.subrange(from as int, to as int), set@) == chars@.subrange(
            from as int,
            k as int,
        ),
{
    let mut k = to;
    while k > from && contains_char(set, chars[k - 1])
        invariant
            from <= k <= to <= chars.len(),
            forall|i: int| k <= i < to ==> set@.contains(#[trigger] chars@[i]),
        decreases k,
    {
        k = k - 1;
    }
    proof {
        let s = chars@.subrange(from as int, to as int);
        assert forall|i: int| k - from <= i < s.len() implies set@.contains(#[trigger] s[i]) by {
            assert(s[i] == chars@[i + from]);
        }
        lemma_strip_end_take(s, set@, k - from);
        assert(s.take(k - from) == chars@.subrange(from as int, k as int));
    }
    k
}

pub fn synchronize_punctuation(base: &str, reference: &str) -> (r: String)
    ensures
        r@ == synchronized_punctuation(base@, reference@),
{
    let base_chars = chars_of(base);
    let reference_chars = chars_of(reference);
    let (base_start, base_end) = trim_bounds(&base_chars);
    let (reference_start, reference_end) = trim_bounds(&reference_chars);
    if base_start == base_end || reference_start == reference_end {
        return String::from_str(base);
    }
    let base_marks = vec!['.', '?', '!', ';', ':', ',', '"', '\'', ' ', '\u{201d}', '\u{2019}'];
    let reference_marks = vec!['"', '\'', ' ', '\u{201d}', '\u{2019}'];
    assert(base_marks@ == base_trailing_marks());
    assert(reference_marks@ == reference_trailing_marks());
    let body_end = strip_end_of_len(&base_chars, base_start, base_end, &base_marks);
    let cue_end = strip_end_of_len(&reference_chars, reference_start, reference_end, &reference_marks);
    let mut out = string_from_range(&base_chars, base_start, body_end);
    if cue_end > reference_start {
        let last = reference_chars[cue_end - 1];
        if last == '?' || last == '!' || last == '.' {
            out.push(last);
        }
    }
    out
}

pub fn comma_before_question(text: &str) -> (r: String)
    ensures
        r@ == comma_question(text@),
{
    let chars = chars_of(text);
    let mut out: Vec<char> = Vec::new();
    let mut i: usize = 0;
    while i < chars.len()
        invariant
            i <= chars.len(),
            out@ == comma_question(chars@.take(i as int)),
        decreases chars.len() - i,
    {
        let c = chars[i];
        assert(chars@.take(i + 1).drop_last() == chars@.take(i as int));
        if c == '?' {
            let k = trim_end_len(&out);
            if k > 0 && out[k - 1] != ',' {
                out.truncate(k);
                out.push(',');
                out.push(' ');
                out.push('?');
            } else {
                out.push('?');
            }
        } else {
            out.push(c);
        }
        i = i + 1;
    }
    assert(chars@.take(chars.len() as int) == chars@);
    string_from_chars(&out)
}

pub fn pronunciation_table() -> (t: Vec<(&'static str, &'static str)>)
    ensures
        pair_views(t@) == pronunciation_pairs(),
{
    let mut t: Vec<(&'static str, &'static str)> = Vec::new();
    t.push(("olho", "ólho"));
    t.push(("posso", "pósso"));
    t.push(("jogo", "jógo"));
    t.push(("gosto", "gósto"));
    t.push(("fora", "fóra"));
    t.push(("agora", "agóra"));
    t.push(("por", "pór"));
    t.push(("milha", "mílha"));
    assert(pair_views(t@) =~= pronunciation_pairs());
    t
}

pub fn palatal_table() -> (t: Vec<(&'static str, &'static str)>)
    ensures
        pair_views(t@) == palatal_pairs(),
{
    let mut t: Vec<(&'static str, &'static str)> = Vec::new();
    t.push(("tis", "tchis"));
    t.push(("tes", "tches"));
    t.push(("ti", "tchi"));
    t.push(("te", "tche"));
    t.push(("dis", "dchis"));
    t.push(("des", "dches"));
    t.push(("di", "dchi"));
    t.push(("de", "dche"));
    assert(pair_views(t@) =~= palatal_pairs());
    t
}

/// The replacement that `table` pairs with `key`, if any.
pub fn lookup_replacement(key: &str, table: &Vec<(&'static str, &'static str)>) -> (r: Option<
    String,
>)
    ensures
        match table_lookup(key@, pair_views(table@), 0) {
            Some(v) => r is Some && r->0@ == v,
            None => r is None,
        },
{
    let ghost t = pair_views(table@);
    let mut i: usize = 0;
    while i < table.len()
        invariant
            i <= table.len(),
            t == pair_views(table@),
            table_lookup(key@, t, 0) == table_lookup(key@, t, i as int),
        decreases table.len() - i,
    {
        let (from, to) = table[i];
        if text_equals(key, from) {
            return Some(String::from_str(to));
        }
        i = i + 1;
    }
    None
}

pub fn correct_token(token: &str, table: &Vec<(&'static str, &'static str)>) -> (r: String)
    requires
        pair_views(table@) == pronunciation_pairs(),
    ensures
        r@ == corrected_token(token@),
{
    let lower = to_lowercase(token);
    corrected_from_lowered(token, lower.as_str(), table)
}

/// The replacement paired with the lower-cased word, or the word itself.
pub fn corrected_from_lowered(token: &str, lower: &str, table: &Vec<(&'static str, &'static str)>) -> (r:
    String)
    ensures
        r@ == (match table_lookup(lower@, pair_views(table@), 0) {
            Some(v) => v,
            None => token@,
        }),
{
    match lookup_replacement(lower, table) {
        Some(replacement) => replacement,
        None => String::from_str(token),
    }
}

pub fn correct_ptbr_pronunciation(text: &str) -> (r: String)
    ensures
        r@ == corrected_pronunciation(text@),
{
    let table = pronunciation_table();
    let tokens = split_words_str(text);
    let mut fixed: Vec<String> = Vec::new();
    let mut i: usize = 0;
    while i < tokens.len()
        invariant
            i <= tokens.len(),
            pair_views(table@) == pronunciation_pairs(),
            views(tokens@) == words(text@),
            views(fixed@) == corrected_tokens(views(tokens@).take(i as int)),
        decreases tokens.len() - i,
    {
        let word = correct_token(tokens[i].as_str(), &table);
        let ghost prev = fixed@;
        fixed.push(word);
        assert(views(fixed@) =~= views(prev).push(word@));
        assert(views(tokens@).take(i + 1) =~= views(tokens@).take(i as int).push(tokens@[i as int]@));
        assert(views(fixed@) =~= corrected_tokens(views(tokens@).take(i + 1)));
        i = i + 1;
    }
    assert(views(tokens@).take(tokens.len() as int) == views(tokens@));
    proof {
        reveal_strlit(" ");
        assert(" "@ =~= seq![' ']);
    }
    join_strings(&fixed, " ")
}

pub fn to_ascii_uppercase(c: char) -> (r: char)
    ensures
        r == ascii_upper(c),
{
    if 'a' <= c && c <= 'z' {
        let code = c as u8;
        ((code - 32) as u8) as char
    } else {
        c
    }
}

pub fn capitalize_chars(s: &Vec<char>) -> (r: Vec<char>)
    ensures
        r@ == capitalized(s@),
{
    let mut r: Vec<char> = Vec::new();
    let mut i: usize = 0;
    while i < s.len()
        invariant
            i <= s.len(),
            r@ == capitalized(s@.take(i as int)),
        decreases s.len() - i,
    {
        if i == 0 {
            r.push(to_ascii_uppercase(s[0]));
        } else {
            r.push(s[i]);
        }
        i = i + 1;
        assert(r@ =~= capitalized(s@.take(i as int)));
    }
    assert(s@.take(s.len() as int) == s@);
    r
}

/// Upper-cases the first character of an ASCII word.
pub fn capitalize_ascii(value: &str) -> (r: String)
    ensures
        r@ == capitalized(value@),
{
    string_from_chars(&capitalize_chars(&chars_of(value)))
}

pub fn is_bracketed_control_token(token: &str) -> (r: bool)
    ensures
        r == is_control_token(token@),
{
    let chars = chars_of(token);
    chars.len() > 0 && chars[0] == '[' && chars[chars.len() - 1] == ']'
}

pub fn palatalize_token(token: &str) -> (r: String)
    ensures
        r@ == palatalized_token(token@),
{
    if is_bracketed_control_token(token) {
        return String::from_str(token);
    }
    let chars = chars_of(token);
    let table = palatal_table();
    let ghost t = pair_views(table@);
    let mut i: usize = 0;
    while i < table.len()
        invariant
            i <= table.len(),
            chars@ == token@,
            t == pair_views(table@),
            t == palatal_pairs(),
            !is_control_token(token@),
            palatalize_from(token@, t, 0) == palatalize_from(token@, t, i as int),
        decreases table.len() - i,
    {
        let (from_text, to_text) = table[i];
        assert(t[i as int] == (from_text@, to_text@));
        let from = chars_of(from_text);
        if chars.len() > from.len() && has_suffix(&chars, &from) {
            let mut out = string_from_range(&chars, 0, chars.len() - from.len());
            out.append(to_text);
            assert(chars@.subrange(0, chars.len() - from.len()) == token@.take(
                token@.len() - from@.len(),
            ));
            return out;
        }
        let cap = capitalize_chars(&from);
        if chars.len() > cap.len() && has_suffix(&chars, &cap) {
            let mut out = string_from_range(&chars, 0, chars.len() - cap.len());
            let cap_to = capitalize_chars(&chars_of(to_text));
            push_range(&mut out, &cap_to, 0, cap_to.len());
            assert(cap_to@.subrange(0, cap_to@.len() as int) == cap_to@);
            assert(chars@.subrange(0, chars.len() - cap.len()) == token@.take(
                token@.len() - cap@.len(),
            ));
            return out;
        }
        i = i + 1;
    }
    String::from_str(token)
}

pub fn palatalize_ptbr(text: &str) -> (r: String)
    ensures
        r@ == palatalized(text@),
{
    let tokens = split_words_str(text);
    let mut out: Vec<String> = Vec::new();
    let mut i: usize = 0;
    while i < tokens.len()
        invariant
            i <= tokens.len(),
            views(tokens@) == words(text@),
            views(out@) == palatalized_tokens(views(tokens@).take(i as int)),
        decreases tokens.len() - i,
    {
        let word = palatalize_token(tokens[i].as_str());
        let ghost prev = out@;
        out.push(word);
        assert(views(out@) =~= views(prev).push(word@));
        assert(views(tokens@).take(i + 1) =~= views(tokens@).take(i as int).push(tokens@[i as int]@));
        assert(views(out@) =~= palatalized_tokens(views(tokens@).take(i + 1)));
        i = i + 1;
    }
    assert(views(tokens@).take(tokens.len() as int) == views(tokens@));
    proof {
        reveal_strlit(" ");
        assert(" "@ =~= seq![' ']);
    }
    join_strings(&out, " ")
}

proof fn lemma_palatalize_short(token: Seq<char>, i: int)
    requires
        token.len() <= 2,
        0 <= i,
    ensures
        palatalize_from(token, palatal_pairs(), i) == token,
    decreases palatal_pairs().len() - i,
{
    if i < palatal_pairs().len() {
        let from = palatal_pairs()[i].0;
        assert(from.len() >= 2) by {
            reveal_strlit("tis");
            reveal_strlit("tes");
            reveal_strlit("ti");
            reveal_strlit("te");
            reveal_strlit("dis");
            reveal_strlit("des");
            reveal_strlit("di");
            reveal_strlit("de");
        }
        assert(capitalized(from).len() == from.len());
        lemma_palatalize_short(token, i + 1);
    }
}

/// Palatalization leaves bracketed words (voice tags, pronunciation hints)
/// and words of one or two characters (`de`, `te`, `di`, `ti`) as they are.
pub proof fn law_palatalize_keeps_tags_and_short_words(token: Seq<char>)
    requires
        is_control_token(token) || token.len() <= 2,
    ensures
        palatalized_token(token) == token,
{
    if !is_control_token(token) {
        lemma_palatalize_short(token, 0);
    }
}

/// One step of `comma_question`: what reading `c` after `prev` gives.
pub open spec fn comma_step(prev: Seq<char>, c: char) -> Seq<char> {
    if c == '?' {
        let body = trim_end(prev);
        if body.len() > 0 && body.last() != ',' {
            body + seq![',', ' ', '?']
        } else {
            prev.push('?')
        }
    } else {
        prev.push(c)
    }
}

proof fn lemma_trim_end_prefix(s: Seq<char>)
    ensures
        trim_end(s).len() <= s.len(),
        trim_end(s) == s.take(trim_end(s).len() as int),
    decreases s.len(),
{
    if s.len() > 0 && is_space(s.last()) {
        lemma_trim_end_prefix(s.drop_last());
        assert(s.drop_last().take(trim_end(s).len() as int) =~= s.take(trim_end(s).len() as int));
    } else {
        assert(s.take(s.len() as int) =~= s);
    }
}

/// Every prefix of an output of `comma_question` is left unchanged by it.
proof fn lemma_comma_question_prefixes(s: Seq<char>)
    ensures
        forall|k: int|
            0 <= k <= comma_question(s).len() ==> #[trigger] comma_question(
                comma_question(s).take(k),
            ) == comma_question(s).take(k),
    decreases s.len(),
{
    let o = comma_question(s);
    if s.len() == 0 {
        assert forall|k: int| 0 <= k <= o.len() implies #[trigger] comma_question(o.take(k))
            == o.take(k) by {
            assert(o.take(k) =~= Seq::<char>::empty());
        }
    } else {
        let prev_s = s.drop_last();
        let c = s.last();
        lemma_comma_question_prefixes(prev_s);
        let p = comma_question(prev_s);
        assert(comma_question(p.take(p.len() as int)) == p.take(p.len() as int));
        assert(p.take(p.len() as int) =~= p);
        let body = trim_end(p);
        if c == '?' && body.len() > 0 && body.last() != ',' {
            lemma_trim_end_prefix(p);
            let b = body.len() as int;
            assert(o == body + seq![',', ' ', '?']);
            assert(comma_question(p.take(b)) == p.take(b));
            assert(comma_question(body) == body);
            let b1 = body.push(',');
            let b2 = b1.push(' ');
            assert(b1.drop_last() =~= body);
            assert(comma_question(b1) == comma_step(comma_question(body), ','));
            assert(comma_question(b1) == b1);
            assert(b2.drop_last() =~= b1);
            assert(comma_question(b2) == b2);
            assert(trim_end(b2) == trim_end(b1));
            assert(trim_end(b1) == b1);
            assert(o.drop_last() =~= b2);
            assert(comma_question(o) == comma_step(b2, '?'));
            assert forall|k: int| 0 <= k <= o.len() implies #[trigger] comma_question(o.take(k))
                == o.take(k) by {
                if k <= b {
                    assert(o.take(k) =~= p.take(k));
                } else if k == b + 1 {
                    assert(o.take(k) =~= b1);
                } else if k == b + 2 {
                    assert(o.take(k) =~= b2);
                } else {
                    assert(o.take(k) =~= o);
                }
            }
        } else {
            assert(o == p.push(c));
            assert(o.drop_last() =~= p);
            assert forall|k: int| 0 <= k <= o.len() implies #[trigger] comma_question(o.take(k))
                == o.take(k) by {
                if k <= p.len() {
                    assert(o.take(k) =~= p.take(k));
                } else {
                    assert(o.take(k) =~= o);
                    assert(comma_question(o) == comma_step(comma_question(p), c));
                }
            }
        }
    }
}

/// Adding commas before question marks a second time changes nothing.
pub proof fn law_comma_before_question_is_idempotent(s: Seq<char>)
    ensures
        comma_question(comma_question(s)) == comma_question(s),
{
    lemma_comma_question_prefixes(s);
    let o = comma_question(s);
    assert(o.take(o.len() as int) =~= o);
    assert(comma_question(o.take(o.len() as int)) == o.take(o.len() as int));
}

/// When both lines say something, the translated line keeps its words and
/// ends in the final mark of the reference line, whatever marks it had.
pub proof fn law_synchronized_line_ends_like_reference(base: Seq<char>, reference: Seq<char>)
    requires
        trim(base).len() > 0,
        trim(reference).len() > 0,
    ensures
        ({
            let out = synchronized_punctuation(base, reference);
            let body = strip_end_of(trim(base), base_trailing_marks());
            let cue = strip_end_of(trim(reference), reference_trailing_marks());
            &&& body.is_prefix_of(out)
            &&& out.len() <= body.len() + 1
            &&& (ends_with_char(cue, '?') || ends_with_char(cue, '!') || ends_with_char(cue, '.'))
                ==> ends_with_char(out, cue.last())
        }),
{
    let out = synchronized_punctuation(base, reference);
    let body = strip_end_of(trim(base), base_trailing_marks());
    assert(out.take(body.len() as int) =~= body);
}

/// The `t`/`d` endings of a word after something else, singular and plural,
/// are palatalized: `-te` becomes `-tche`, `-tes` becomes `-tches`, `-ti`
/// `-tchi`, `-tis` `-tchis`, and the same for `d` (`-de` to `-dche`, ...).
pub proof fn law_palatal_endings(w: Seq<char>)
    requires
        w.len() > 0,
    ensures
        palatalized_token(w + "te"@) == w + "tche"@,
        palatalized_token(w + "tes"@) == w + "tches"@,
        palatalized_token(w + "ti"@) == w + "tchi"@,
        palatalized_token(w + "tis"@) == w + "tchis"@,
        palatalized_token(w + "de"@) == w + "dche"@,
        palatalized_token(w + "des"@) == w + "dches"@,
        palatalized_token(w + "di"@) == w + "dchi"@,
        palatalized_token(w + "dis"@) == w + "dchis"@,
{
    reveal_strlit("te");
    reveal_strlit("tes");
    reveal_strlit("ti");
    reveal_strlit("tis");
    reveal_strlit("de");
    reveal_strlit("des");
    reveal_strlit("di");
    reveal_strlit("dis");
    reveal_strlit("tche");
    reveal_strlit("tches");
    reveal_strlit("tchi");
    reveal_strlit("tchis");
    reveal_strlit("dche");
    reveal_strlit("dches");
    reveal_strlit("dchi");
    reveal_strlit("dchis");
    lemma_palatal_ending(w, "te"@, "tche"@, 3);
    lemma_palatal_ending(w, "tes"@, "tches"@, 1);
    lemma_palatal_ending(w, "ti"@, "tchi"@, 2);
    lemma_palatal_ending(w, "tis"@, "tchis"@, 0);
    lemma_palatal_ending(w, "de"@, "dche"@, 7);
    lemma_palatal_ending(w, "des"@, "dches"@, 5);
    lemma_palatal_ending(w, "di"@, "dchi"@, 6);
    lemma_palatal_ending(w, "dis"@, "dchis"@, 4);
}

/// A word `w + ending` with `ending` the `k`-th ending of the table is
/// replaced by that entry when no earlier ending (in either case) is a
/// suffix of it.
proof fn lemma_palatal_ending(w: Seq<char>, ending: Seq<char>, to: Seq<char>, k: int)
    requires
        w.len() > 0,
        0 <= k < palatal_pairs().len(),
        palatal_pairs()[k] == (ending, to),
        ending.len() >= 2,
        ending[0] == 't' || ending[0] == 'd',
        ending.last() == 'e' || ending.last() == 'i' || ending.last() == 's',
        ending.len() <= 3,
        forall|j: int|
            0 <= j < k ==> !same_tail(#[trigger] palatal_pairs()[j].0, ending) && !same_tail(
                capitalized(palatal_pairs()[j].0),
                ending,
            ),
    ensures
        palatalized_token(w + ending) == w + to,
{
    let token = w + ending;
    assert forall|j: int| 0 <= j < k implies !(#[trigger] palatal_pairs()[j].0).is_suffix_of(token)
        && !capitalized(palatal_pairs()[j].0).is_suffix_of(token) by {
        lemma_suffix_tail(palatal_pairs()[j].0, w, ending);
        lemma_suffix_tail(capitalized(palatal_pairs()[j].0), w, ending);
    }
    assert(token.last() == ending.last());
    assert(!is_control_token(token));
    lemma_palatalize_skips(token, 0, k);
    assert(ending.is_suffix_of(token)) by {
        assert(token.subrange(token.len() - ending.len(), token.len() as int) =~= ending);
    }
    assert(token.take(token.len() - ending.len()) =~= w);
}

/// Entries before `k` that do not match leave the search to entry `k`.
proof fn lemma_palatalize_skips(token: Seq<char>, i: int, k: int)
    requires
        0 <= i <= k < palatal_pairs().len(),
        forall|j: int| 0 <= j < k ==> !(#[trigger] palatal_pairs()[j].0).is_suffix_of(token)
            && !capitalized(palatal_pairs()[j].0).is_suffix_of(token),
    ensures
        palatalize_from(token, palatal_pairs(), i) == palatalize_from(token, palatal_pairs(), k),
    decreases k - i,
{
    if i < k {
        lemma_palatalize_skips(token, i + 1, k);
    }
}

/// `a` and `b` end alike over their last three characters (as far as both
/// reach).
pub open spec fn same_tail(a: Seq<char>, b: Seq<char>) -> bool {
    &&& (a.len() > 0 && b.len() > 0 ==> a[a.len() - 1] == b[b.len() - 1])
    &&& (a.len() > 1 && b.len() > 1 ==> a[a.len() - 2] == b[b.len() - 2])
    &&& (a.len() > 2 && b.len() > 2 ==> a[a.len() - 3] == b[b.len() - 3])
}

/// A suffix of `w + ending`, no longer than `w + ending`, ends like `ending`.
proof fn lemma_suffix_tail(a: Seq<char>, w: Seq<char>, ending: Seq<char>)
    ensures
        a.is_suffix_of(w + ending) ==> same_tail(a, ending),
{
    let t = w + ending;
    if a.is_suffix_of(t) {
        let sub = t.subrange(t.len() - a.len(), t.len() as int);
        assert(sub == a);
        if a.len() > 0 && ending.len() > 0 {
            assert(sub[a.len() - 1] == t[t.len() - 1]);
            assert(t[t.len() - 1] == ending[ending.len() - 1]);
        }
        if a.len() > 1 && ending.len() > 1 {
            assert(sub[a.len() - 2] == t[t.len() - 2]);
            assert(t[t.len() - 2] == ending[ending.len() - 2]);
        }
        if a.len() > 2 && ending.len() > 2 {
            assert(sub[a.len() - 3] == t[t.len() - 3]);
            assert(t[t.len() - 3] == ending[ending.len() - 3]);
        }
    }
}

} // verus!
