//! OmniVoice native tags: the closed list of non-verbal markers the voice
//! model understands, removing them from speakable text, checking that a
//! text or a tag list uses no other, and putting pinned tags in front of a
//! line.
use vstd::prelude::*;
use crate::error::AppError;
use crate::strings::{chars_of, ends_with_char, is_space, is_whitespace_char, string_from_chars, text_equals, trim, trim_chars, views};

verus! {

/// The native tags, in the order the model documents them.
pub open spec fn native_tags() -> Seq<Seq<char>> {
    seq![
        "[laughter]"@,
        "[sigh]"@,
        "[confirmation-en]"@,
        "[question-en]"@,
        "[question-ah]"@,
        "[question-oh]"@,
        "[question-ei]"@,
        "[question-yi]"@,
        "[surprise-ah]"@,
        "[surprise-oh]"@,
        "[surprise-wa]"@,
        "[surprise-yo]"@,
        "[dissatisfaction-hnn]"@,
    ]
}

pub open spec fn str_views(v: Seq<&str>) -> Seq<Seq<char>> {
    v.map_values(|s: &str| s@)
}

pub open spec fn chars_views(v: Seq<Vec<char>>) -> Seq<Seq<char>> {
    v.map_values(|s: Vec<char>| s@)
}

pub open spec fn is_native_tag(tag: Seq<char>) -> bool {
    native_tags().contains(tag)
}

/// The first tag of `tags`, from position `i` on, that `s` starts with.
pub open spec fn tag_prefix_at(s: Seq<char>, tags: Seq<Seq<char>>, i: int) -> Option<Seq<char>>
    decreases tags.len() - i,
{
    if i < 0 || i >= tags.len() {
        None
    } else if tags[i].is_prefix_of(s) {
        Some(tags[i])
    } else {
        tag_prefix_at(s, tags, i + 1)
    }
}

/// The text with each native tag replaced by a space.
pub open spec fn without_tags(s: Seq<char>) -> Seq<char>
    decreases s.len(),
{
    if s.len() == 0 {
        seq![]
    } else {
        match tag_prefix_at(s, native_tags(), 0) {
            Some(tag) => if 0 < tag.len() <= s.len() {
                seq![' '] + without_tags(s.skip(tag.len() as int))
            } else {
                seq![s[0]] + without_tags(s.skip(1))
            },
            None => seq![s[0]] + without_tags(s.skip(1)),
        }
    }
}

/// Punctuation written right after the previous word, without a space.
pub open spec fn is_tight_punctuation(c: char) -> bool {
    ||| c == ','
    ||| c == '.'
    ||| c == '!'
    ||| c == '?'
    ||| c == ';'
    ||| c == ':'
    ||| c == '\u{2026}'
    ||| c == ')'
    ||| c == ']'
    ||| c == '}'
    ||| c == '\u{ff0c}'
    ||| c == '\u{3002}'
    ||| c == '\u{ff01}'
    ||| c == '\u{ff1f}'
    ||| c == '\u{ff1b}'
    ||| c == '\u{ff1a}'
    ||| c == '\u{3001}'
    ||| c == '\u{ff09}'
    ||| c == '\u{3011}'
}

/// Text written so far, and whether a space is owed before the next word,
/// after reading `s`: whitespace runs become one space between words and
/// vanish before tight punctuation.
pub open spec fn spacing_scan(s: Seq<char>) -> (Seq<char>, bool)
    decreases s.len(),
{
    if s.len() == 0 {
        (seq![], false)
    } else {
        let prev = spacing_scan(s.drop_last());
        let out = prev.0;
        let c = s.last();
        if is_space(c) {
            (out, out.len() > 0)
        } else if is_tight_punctuation(c) {
            let body = if ends_with_char(out, ' ') {
                out.drop_last()
            } else {
                out
            };
            (body.push(c), false)
        } else if prev.1 {
            (out.push(' ').push(c), false)
        } else {
            (out.push(c), false)
        }
    }
}

pub open spec fn speakable_spacing(s: Seq<char>) -> Seq<char> {
    trim(spacing_scan(s).0)
}

/// Speakable text: the native tags removed and the spacing they leave
/// behind tidied.
pub open spec fn speakable_text(s: Seq<char>) -> Seq<char> {
    speakable_spacing(without_tags(s))
}

pub fn punctuation_without_leading_space(c: char) -> (r: bool)
    ensures
        r == is_tight_punctuation(c),
{
    c == ',' || c == '.' || c == '!' || c == '?' || c == ';' || c == ':' || c == '\u{2026}' || c
        == ')' || c == ']' || c == '}' || c == '\u{ff0c}' || c == '\u{3002}' || c == '\u{ff01}'
        || c == '\u{ff1f}' || c == '\u{ff1b}' || c == '\u{ff1a}' || c == '\u{3001}' || c
        == '\u{ff09}' || c == '\u{3011}'
}

/// The native tags, in the model's order.
pub fn omnivoice_native_tags() -> (tags: Vec<&'static str>)
    ensures
        str_views(tags@) == native_tags(),
{
    let mut tags: Vec<&'static str> = Vec::new();
    tags.push("[laughter]");
    tags.push("[sigh]");
    tags.push("[confirmation-en]");
    tags.push("[question-en]");
    tags.push("[question-ah]");
    tags.push("[question-oh]");
    tags.push("[question-ei]");
    tags.push("[question-yi]");
    tags.push("[surprise-ah]");
    tags.push("[surprise-oh]");
    tags.push("[surprise-wa]");
    tags.push("[surprise-yo]");
    tags.push("[dissatisfaction-hnn]");
    assert(str_views(tags@) =~= native_tags());
    tags
}

pub fn native_tag_chars() -> (tags: Vec<Vec<char>>)
    ensures
        chars_views(tags@) == native_tags(),
{
    let names = omnivoice_native_tags();
    let mut tags: Vec<Vec<char>> = Vec::new();
    let mut i: usize = 0;
    while i < names.len()
        invariant
            i <= names.len(),
            str_views(names@) == native_tags(),
            chars_views(tags@) =~= str_views(names@).take(i as int),
        decreases names.len() - i,
    {
        let ghost prev = tags@;
        let c = chars_of(names[i]);
        tags.push(c);
        assert(chars_views(tags@) =~= chars_views(prev).push(c@));
        assert(str_views(names@).take(i + 1) =~= str_views(names@).take(i as int).push(names@[i as int]@));
        i = i + 1;
    }
    assert(str_views(names@).take(names.len() as int) == str_views(names@));
    tags
}

pub proof fn lemma_tag_prefix_at(s: Seq<char>, tags: Seq<Seq<char>>, i: int)
    ensures
        tag_prefix_at(s, tags, i) matches Some(t) ==> t.is_prefix_of(s) && tags.contains(t),
    decreases tags.len() - i,
{
    if 0 <= i < tags.len() && !tags[i].is_prefix_of(s) {
        lemma_tag_prefix_at(s, tags, i + 1);
    }
}

/// Position in `tags` of the first tag that `chars[at..]` starts with.
pub fn tag_index_at(chars: &Vec<char>, at: usize, tags: &Vec<Vec<char>>) -> (r: Option<usize>)
    requires
        at <= chars.len(),
    ensures
        match tag_prefix_at(chars@.skip(at as int), chars_views(tags@), 0) {
            Some(t) => r is Some && r->0 < tags.len() && tags@[r->0 as int]@ == t,
            None => r is None,
        },
{
    let ghost t = chars_views(tags@);
    let mut i: usize = 0;
    while i < tags.len()
        invariant
            i <= tags.len(),
            at <= chars.len(),
            t == chars_views(tags@),
            tag_prefix_at(chars@.skip(at as int), t, 0) == tag_prefix_at(
                chars@.skip(at as int),
                t,
                i as int,
            ),
        decreases tags.len() - i,
    {
        if crate::strings::has_prefix_at(chars, at, &tags[i]) {
            return Some(i);
        }
        i = i + 1;
    }
    None
}

/// The native tag that `text` starts with, if any.
pub fn omnivoice_native_tag_at(text: &str) -> (r: Option<&'static str>)
    ensures
        match tag_prefix_at(text@, native_tags(), 0) {
            Some(t) => r is Some && r->0@ == t,
            None => r is None,
        },
{
    let chars = chars_of(text);
    let tags = native_tag_chars();
    let names = omnivoice_native_tags();
    assert(chars@.skip(0) == chars@);
    match tag_index_at(&chars, 0, &tags) {
        Some(j) => {
            assert(names@[j as int]@ == tags@[j as int]@) by {
                assert(str_views(names@)[j as int] == chars_views(tags@)[j as int]);
            }
            Some(names[j])
        },
        None => None,
    }
}

/// Tidies the spacing left where tags were removed.
pub fn normalize_speakable_tag_spacing(chars: &Vec<char>) -> (r: String)
    ensures
        r@ == speakable_spacing(chars@),
{
    let mut out: Vec<char> = Vec::new();
    let mut pending = false;
    let mut i: usize = 0;
    while i < chars.len()
        invariant
            i <= chars.len(),
            (out@, pending) == spacing_scan(chars@.take(i as int)),
        decreases chars.len() - i,
    {
        let c = chars[i];
        assert(chars@.take(i + 1).drop_last() == chars@.take(i as int));
        if is_whitespace_char(c) {
            pending = out.len() > 0;
        } else {
            if punctuation_without_leading_space(c) {
                pending = false;
                if out.len() > 0 && out[out.len() - 1] == ' ' {
                    out.pop();
                }
            } else if pending {
                out.push(' ');
                pending = false;
            }
            out.push(c);
        }
        i = i + 1;
    }
    assert(chars@.take(chars.len() as int) == chars@);
    trim_chars(&out)
}

/// The text a voice speaks: native tags removed, pronunciation hints and
/// everything else kept.
pub fn strip_omnivoice_native_tags(text: &str) -> (r: String)
    ensures
        r@ == speakable_text(text@),
{
    let chars = chars_of(text);
    let tags = native_tag_chars();
    let mut out: Vec<char> = Vec::new();
    let mut i: usize = 0;
    assert(chars@.skip(0) == chars@);
    while i < chars.len()
        invariant
            i <= chars.len(),
            chars_views(tags@) == native_tags(),
            out@ + without_tags(chars@.skip(i as int)) == without_tags(chars@),
        decreases chars.len() - i,
    {
        let ghost rest = chars@.skip(i as int);
        match tag_index_at(&chars, i, &tags) {
            Some(j) => {
                let len = tags[j].len();
                proof {
                    lemma_tag_prefix_at(rest, native_tags(), 0);
                }
                assert(0 < len) by {
                    assert(chars_views(tags@)[j as int] == tags@[j as int]@);
                    assert(native_tags()[j as int].len() > 0) by {
                        reveal_strlit("[laughter]");
                        reveal_strlit("[sigh]");
                        reveal_strlit("[confirmation-en]");
                        reveal_strlit("[question-en]");
                        reveal_strlit("[question-ah]");
                        reveal_strlit("[question-oh]");
                        reveal_strlit("[question-ei]");
                        reveal_strlit("[question-yi]");
                        reveal_strlit("[surprise-ah]");
                        reveal_strlit("[surprise-oh]");
                        reveal_strlit("[surprise-wa]");
                        reveal_strlit("[surprise-yo]");
                        reveal_strlit("[dissatisfaction-hnn]");
                    }
                }
                assert(rest.skip(len as int) == chars@.skip(i + len));
                out.push(' ');
                i = i + len;
            },
            None => {
                assert(rest.skip(1) == chars@.skip(i + 1));
                out.push(chars[i]);
                i = i + 1;
            },
        }
    }
    normalize_speakable_tag_spacing(&out)
}

/// Bytes that `c` takes in UTF-8.
pub open spec fn char_utf8_len(c: char) -> nat {
    if (c as u32) < 0x80 {
        1
    } else if (c as u32) < 0x800 {
        2
    } else if (c as u32) < 0x10000 {
        3
    } else {
        4
    }
}

/// Bytes that a text takes in UTF-8 (what `str::len` counts).
pub open spec fn utf8_len(s: Seq<char>) -> nat
    decreases s.len(),
{
    if s.len() == 0 {
        0
    } else {
        utf8_len(s.drop_last()) + char_utf8_len(s.last())
    }
}

pub open spec fn is_tag_body_char(c: char) -> bool {
    ('a' <= c && c <= 'z') || ('0' <= c && c <= '9') || c == '-'
}

/// `[`, then a lower-case ASCII letter followed by lower-case ASCII letters,
/// digits or hyphens, then `]`: the shape of a native tag.
pub open spec fn is_lowercase_tag(v: Seq<char>) -> bool {
    &&& v.len() >= 3
    &&& v[0] == '['
    &&& v.last() == ']'
    &&& 'a' <= v[1] && v[1] <= 'z'
    &&& forall|i: int| 1 <= i < v.len() - 1 ==> is_tag_body_char(#[trigger] v[i])
}

/// Longest bracketed text, in UTF-8 bytes, that is still read as a tag.
pub open spec fn max_tag_bytes() -> nat {
    80
}

/// Tags found so far, the bracketed text being read, and whether a `[` is
/// open, after reading `s`.
pub open spec fn tag_scan(s: Seq<char>) -> (Seq<Seq<char>>, Seq<char>, bool)
    decreases s.len(),
{
    if s.len() == 0 {
        (seq![], seq![], false)
    } else {
        let prev = tag_scan(s.drop_last());
        let c = s.last();
        if !prev.2 {
            if c == '[' {
                (prev.0, seq!['['], true)
            } else {
                prev
            }
        } else if c == ']' {
            let candidate = prev.1.push(']');
            if is_lowercase_tag(candidate) {
                (prev.0.push(candidate), seq![], false)
            } else {
                (prev.0, seq![], false)
            }
        } else {
            let current = prev.1.push(c);
            if utf8_len(current) > max_tag_bytes() {
                (prev.0, seq![], false)
            } else {
                (prev.0, current, true)
            }
        }
    }
}

/// The bracketed lower-case tags written in a text, in order.
pub open spec fn text_tags(s: Seq<char>) -> Seq<Seq<char>> {
    tag_scan(s).0
}

/// The first tag of the list that is not native.
pub open spec fn first_unsupported(tags: Seq<Seq<char>>) -> Option<Seq<char>>
    decreases tags.len(),
{
    if tags.len() == 0 {
        None
    } else if !is_native_tag(tags[0]) {
        Some(tags[0])
    } else {
        first_unsupported(tags.drop_first())
    }
}

/// The error for a tag the model does not know.
pub open spec fn unsupported_tag_error<T>(r: Result<T, AppError>, tag: Seq<char>) -> bool {
    r matches Err(AppError::InvalidConfig(m)) && m@ == "tag OmniVoice nao suportada: "@ + tag
}

pub fn utf8_len_of(c: char) -> (n: usize)
    ensures
        n == char_utf8_len(c),
{
    let code = c as u32;
    if code < 0x80 {
        1
    } else if code < 0x800 {
        2
    } else if code < 0x10000 {
        3
    } else {
        4
    }
}

pub fn is_lowercase_tag_candidate(value: &str) -> (r: bool)
    ensures
        r == is_lowercase_tag(value@),
{
    let v = chars_of(value);
    if v.len() < 3 || v[0] != '[' || v[v.len() - 1] != ']' {
        return false;
    }
    if !('a' <= v[1] && v[1] <= 'z') {
        return false;
    }
    let mut i: usize = 1;
    while i < v.len() - 1
        invariant
            3 <= v.len(),
            v@ == value@,
            1 <= i <= v.len() - 1,
            forall|j: int| 1 <= j < i ==> is_tag_body_char(#[trigger] v@[j]),
        decreases v.len() - i,
    {
        let c = v[i];
        if !(('a' <= c && c <= 'z') || ('0' <= c && c <= '9') || c == '-') {
            return false;
        }
        i = i + 1;
    }
    true
}

/// The bracketed lower-case tags written in a text, in order; brackets
/// holding more than 80 bytes are not read as tags.
pub fn bracketed_lowercase_tags(text: &str) -> (tags: Vec<String>)
    ensures
        views(tags@) == text_tags(text@),
{
    let chars = chars_of(text);
    let mut tags: Vec<String> = Vec::new();
    let mut current: Vec<char> = Vec::new();
    let mut current_bytes: usize = 0;
    let mut inside = false;
    let mut i: usize = 0;
    while i < chars.len()
        invariant
            i <= chars.len(),
            (views(tags@), current@, inside) == tag_scan(chars@.take(i as int)),
            current_bytes == utf8_len(current@),
            current_bytes <= max_tag_bytes(),
        decreases chars.len() - i,
    {
        let c = chars[i];
        assert(chars@.take(i + 1).drop_last() == chars@.take(i as int));
        if !inside {
            if c == '[' {
                current = Vec::new();
                current.push('[');
                current_bytes = 1;
                inside = true;
                assert(utf8_len(current@) == 1) by {
                    assert(current@.drop_last() =~= Seq::<char>::empty());
                    assert(char_utf8_len('[') == 1);
                    assert(utf8_len(current@.drop_last()) == 0);
                }
            }
        } else if c == ']' {
            current.push(']');
            let candidate = string_from_chars(&current);
            if is_lowercase_tag_candidate(candidate.as_str()) {
                let ghost prev = tags@;
                tags.push(candidate);
                assert(views(tags@) =~= views(prev).push(current@));
            }
            current = Vec::new();
            current_bytes = 0;
            inside = false;
        } else {
            current.push(c);
            current_bytes = current_bytes + utf8_len_of(c);
            assert(current@.drop_last() == tag_scan(chars@.take(i as int)).1);
            if current_bytes > 80 {
                current = Vec::new();
                current_bytes = 0;
                inside = false;
            }
        }
        i = i + 1;
    }
    assert(chars@.take(chars.len() as int) == chars@);
    tags
}

pub fn is_native_tag_text(tag: &str) -> (r: bool)
    ensures
        r == is_native_tag(tag@),
{
    let names = omnivoice_native_tags();
    let mut i: usize = 0;
    while i < names.len()
        invariant
            i <= names.len(),
            str_views(names@) == native_tags(),
            forall|j: int| 0 <= j < i ==> native_tags()[j] != tag@,
        decreases names.len() - i,
    {
        if text_equals(tag, names[i]) {
            assert(native_tags()[i as int] == tag@);
            return true;
        }
        i = i + 1;
    }
    false
}

/// Fails on the first tag the model does not know.
pub fn validate_native_tags(tags: &Vec<String>) -> (r: Result<(), AppError>)
    ensures
        match first_unsupported(views(tags@)) {
            Some(tag) => unsupported_tag_error(r, tag),
            None => r is Ok,
        },
{
    let ghost t = views(tags@);
    let mut i: usize = 0;
    assert(t.skip(0) == t);
    while i < tags.len()
        invariant
            i <= tags.len(),
            t == views(tags@),
            first_unsupported(t) == first_unsupported(t.skip(i as int)),
        decreases tags.len() - i,
    {
        assert(t.skip(i as int).drop_first() == t.skip(i + 1));
        if !is_native_tag_text(tags[i].as_str()) {
            let mut message = String::from_str("tag OmniVoice nao suportada: ");
            message.append(tags[i].as_str());
            return Err(AppError::InvalidConfig(message));
        }
        i = i + 1;
    }
    Ok(())
}

/// Fails on the first bracketed lower-case tag in the text that the model
/// does not know; upper-case pronunciation hints such as `[B EY1 S]` pass.
pub fn validate_text_native_tags(text: &str) -> (r: Result<(), AppError>)
    ensures
        match first_unsupported(text_tags(text@)) {
            Some(tag) => unsupported_tag_error(r, tag),
            None => r is Ok,
        },
{
    let tags = bracketed_lowercase_tags(text);
    validate_native_tags(&tags)
}

/// Text in which whitespace stands only as single spaces between words:
/// not at either end, never twice in a row, never before tight punctuation.
pub open spec fn tidy_spacing(t: Seq<char>) -> bool {
    &&& t.len() > 0 ==> !is_space(t[0]) && !is_space(t.last())
    &&& forall|i: int|
        0 <= i < t.len() && is_space(#[trigger] t[i]) ==> {
            &&& t[i] == ' '
            &&& 0 < i < t.len() - 1
            &&& !is_space(t[i + 1])
            &&& !is_tight_punctuation(t[i + 1])
        }
}

pub proof fn lemma_spacing_scan_tidy(s: Seq<char>)
    ensures
        tidy_spacing(spacing_scan(s).0),
        spacing_scan(s).1 ==> spacing_scan(s).0.len() > 0,
    decreases s.len(),
{
    if s.len() > 0 {
        lemma_spacing_scan_tidy(s.drop_last());
        let prev = spacing_scan(s.drop_last());
        let out = prev.0;
        let c = s.last();
        let next = spacing_scan(s).0;
        if out.len() > 0 {
            assert(!is_space(out[out.len() - 1]));
        }
        if is_space(c) {
        } else if is_tight_punctuation(c) {
            assert(!ends_with_char(out, ' '));
            assert(next == out.push(c));
            assert forall|i: int| 0 <= i < next.len() && is_space(#[trigger] next[i]) implies {
                &&& next[i] == ' '
                &&& 0 < i < next.len() - 1
                &&& !is_space(next[i + 1])
                &&& !is_tight_punctuation(next[i + 1])
            } by {
                assert(i < out.len());
                assert(next[i] == out[i]);
                if i + 1 < out.len() {
                    assert(next[i + 1] == out[i + 1]);
                }
            }
        } else if prev.1 {
            assert(next == out.push(' ').push(c));
            assert forall|i: int| 0 <= i < next.len() && is_space(#[trigger] next[i]) implies {
                &&& next[i] == ' '
                &&& 0 < i < next.len() - 1
                &&& !is_space(next[i + 1])
                &&& !is_tight_punctuation(next[i + 1])
            } by {
                if i < out.len() {
                    assert(next[i] == out[i]);
                    if i + 1 < out.len() {
                        assert(next[i + 1] == out[i + 1]);
                    }
                }
            }
        } else {
            assert(next == out.push(c));
            assert forall|i: int| 0 <= i < next.len() && is_space(#[trigger] next[i]) implies {
                &&& next[i] == ' '
                &&& 0 < i < next.len() - 1
                &&& !is_space(next[i + 1])
                &&& !is_tight_punctuation(next[i + 1])
            } by {
                assert(i < out.len());
                assert(next[i] == out[i]);
                if i + 1 < out.len() {
                    assert(next[i + 1] == out[i + 1]);
                }
            }
        }
    }
}

/// Stripping tags leaves tidy text: trimmed, words apart by single spaces,
/// and no space before closing punctuation.
pub proof fn law_speakable_text_is_tidy(s: Seq<char>)
    ensures
        tidy_spacing(speakable_text(s)),
{
    let out = spacing_scan(without_tags(s)).0;
    lemma_spacing_scan_tidy(without_tags(s));
    if out.len() > 0 {
        assert(!is_space(out[0]));
        assert(!is_space(out.last()));
    }
    assert(crate::strings::trim_start(out) == out);
    assert(crate::strings::trim_end(out) == out);
}

/// Stripping tags never leaves whitespace right before a closing mark:
/// after removing `[sigh]` from `Vamos embora [sigh].` the period follows
/// the last word directly.
pub proof fn law_no_space_before_closing_marks(s: Seq<char>, i: int)
    requires
        0 <= i,
        i + 1 < speakable_text(s).len(),
        ({
            let c = speakable_text(s)[i + 1];
            c == '.' || c == ',' || c == '!' || c == '?' || c == ';' || c == ':' || c == '\u{2026}'
                || c == ')' || c == ']' || c == '}'
        }),
    ensures
        !is_space(speakable_text(s)[i]),
        speakable_text(s)[i] != ' ',
{
    law_speakable_text_is_tidy(s);
    let t = speakable_text(s);
    if is_space(t[i]) {
        assert(!is_tight_punctuation(t[i + 1]));
    }
}

} // verus!
