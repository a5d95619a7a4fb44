//! The text that a synthesis segment speaks: pinned tags, final
//! punctuation, one segment per overridden line, and shortened or
//! lengthened wording when the generated audio does not fit its time
//! window; and where a segment's alignment artifacts are written.
use vstd::prelude::*;
use crate::strings::{chars_of, collapse_spaces, has_prefix_at, join, join_strings, split_words_str, string_from_chars, string_from_range, trim, trim_bounds, trim_chars, trim_end, trim_end_len, trim_str, views, words};
use crate::tags::{is_native_tag, is_native_tag_text};
use crate::text::{strip_end_of, strip_end_of_len, strip_start_of, strip_start_of_len};
use crate::order::{
    insert_by_key, key_insert_position, lemma_insert_by_key, lemma_sort_by_key_sorted, sort_by_key,
    sorted_by_key,
};

verus! {

/// Marks that already end a sentence.
pub open spec fn is_terminal_mark(c: char) -> bool {
    c == '.' || c == '!' || c == '?' || c == '\u{2026}'
}

/// The text trimmed, without trailing commas, semicolons and colons, and
/// ending in a sentence mark (a period is added when none is there); blank
/// text gives the empty text.
pub open spec fn naturalized(text: Seq<char>) -> Seq<char> {
    let t = trim_end(strip_end_of(trim(text), seq![',', ';', ':']));
    if t.len() == 0 {
        t
    } else if is_terminal_mark(t.last()) {
        t
    } else {
        t.push('.')
    }
}

/// `needle` occurs in `text` at position `i`.
pub open spec fn occurs_at(text: Seq<char>, needle: Seq<char>, i: int) -> bool {
    0 <= i <= text.len() - needle.len() && needle.is_prefix_of(text.skip(i))
}

/// `needle` occurs somewhere in `text`, as `str::contains` tests.
pub open spec fn text_contains(text: Seq<char>, needle: Seq<char>) -> bool {
    exists|i: int| occurs_at(text, needle, i)
}

/// The native tags of `tags` that the text does not already hold, each once,
/// in order.
pub open spec fn missing_tags(tags: Seq<Seq<char>>, text: Seq<char>) -> Seq<Seq<char>>
    decreases tags.len(),
{
    if tags.len() == 0 {
        seq![]
    } else {
        let prev = missing_tags(tags.drop_last(), text);
        let t = tags.last();
        if is_native_tag(t) && !text_contains(text, t) && !prev.contains(t) {
            prev.push(t)
        } else {
            prev
        }
    }
}

/// The line with the missing native tags written in front of it.
pub open spec fn tagged_text(tags: Seq<Seq<char>>, text: Seq<char>) -> Seq<char> {
    let missing = missing_tags(tags, text);
    if missing.len() == 0 {
        text
    } else {
        trim(join(missing, seq![' ']) + seq![' '] + text)
    }
}

/// The native tags among `tags`, each once, in order of first appearance.
pub open spec fn distinct_native(tags: Seq<Seq<char>>) -> Seq<Seq<char>>
    decreases tags.len(),
{
    if tags.len() == 0 {
        seq![]
    } else {
        let prev = distinct_native(tags.drop_last());
        let t = tags.last();
        if is_native_tag(t) && !prev.contains(t) {
            prev.push(t)
        } else {
            prev
        }
    }
}

/// Pinned tags first, then the line's own, keeping native tags only and
/// each once.
pub open spec fn effective_tags(pinned: Seq<Seq<char>>, line: Seq<Seq<char>>) -> Seq<Seq<char>> {
    distinct_native(pinned + line)
}

/// Every occurrence of `from`, read left to right without overlap,
/// replaced by `to` (as `str::replace` does for a non-empty pattern).
pub open spec fn replace_all(s: Seq<char>, from: Seq<char>, to: Seq<char>) -> Seq<char>
    decreases s.len(),
{
    if s.len() == 0 {
        seq![]
    } else if from.len() > 0 && from.is_prefix_of(s) {
        to + replace_all(s.skip(from.len() as int), from, to)
    } else {
        seq![s[0]] + replace_all(s.skip(1), from, to)
    }
}

/// Filler words dropped (or said shorter) to make a line fit a shorter
/// window, in the order they are tried.
pub open spec fn filler_pairs() -> Seq<(Seq<char>, Seq<char>)> {
    seq![
        (" por favor"@, ""@),
        (" neste momento"@, " agora"@),
        (" exatamente"@, ""@),
        (" realmente"@, ""@),
        (" simplesmente"@, ""@),
        (" absolutamente"@, ""@),
    ]
}

/// `s` with the replacements of `pairs`, from position `i` on, applied one
/// after the other.
pub open spec fn replace_each(s: Seq<char>, pairs: Seq<(Seq<char>, Seq<char>)>, i: int) -> Seq<char>
    decreases pairs.len() - i,
{
    if i < 0 || i >= pairs.len() {
        s
    } else {
        replace_each(replace_all(s, pairs[i].0, pairs[i].1), pairs, i + 1)
    }
}

/// The text up to its first comma.
pub open spec fn before_first_comma(s: Seq<char>) -> Seq<char>
    decreases s.len(),
{
    if s.len() == 0 || s[0] == ',' {
        seq![]
    } else {
        seq![s[0]] + before_first_comma(s.drop_first())
    }
}

/// A shorter wording of a line: single spaces, filler words dropped and,
/// from the second retry on, only the clause before the first comma (when it
/// is not blank); the result ends in a sentence mark.
pub open spec fn shortened_text(text: Seq<char>, attempt: u32) -> Seq<char> {
    let base = replace_each(collapse_spaces(text), filler_pairs(), 0);
    let clause = trim(before_first_comma(base));
    let chosen = if attempt >= 2 {
        if clause.len() > 0 {
            clause
        } else {
            trim(base)
        }
    } else {
        base
    };
    naturalized(chosen)
}

/// A longer wording of a line: its final sentence marks replaced by a
/// period, or by an ellipsis from the second retry on.
pub open spec fn lengthened_text(text: Seq<char>, attempt: u32) -> Seq<char> {
    let t = trim(strip_end_of(trim(text), seq!['.', '!', '?', '\u{2026}']));
    if t.len() == 0 {
        t
    } else if attempt >= 2 {
        t + seq!['.', '.', '.']
    } else {
        t.push('.')
    }
}

pub open spec fn is_artifact_char(c: char) -> bool {
    ('A' <= c && c <= 'Z') || ('a' <= c && c <= 'z') || ('0' <= c && c <= '9') || c == '-' || c
        == '_'
}

/// The name with every character outside `A-Z a-z 0-9 - _` turned into `_`.
pub open spec fn underscored(s: Seq<char>) -> Seq<char> {
    s.map_values(|c: char| if is_artifact_char(c) {
        c
    } else {
        '_'
    })
}

/// `s` without leading and trailing underscores.
pub open spec fn trim_underscores(s: Seq<char>) -> Seq<char> {
    strip_end_of(strip_start_of(s, seq!['_']), seq!['_'])
}

/// A file-name component built from `value`: characters outside
/// `A-Z a-z 0-9 - _` become `_`, and underscores at either end are dropped.
pub open spec fn artifact_component(value: Seq<char>) -> Seq<char> {
    trim_underscores(underscored(value))
}

/// The trimmed text when it is not blank.
pub open spec fn non_blank(value: Seq<char>) -> Option<Seq<char>> {
    if trim(value).len() > 0 {
        Some(trim(value))
    } else {
        None
    }
}

pub fn naturalized_terminal_punctuation(text: &str) -> (r: String)
    ensures
        r@ == naturalized(text@),
{
    let chars = chars_of(text);
    let (start, end) = trim_bounds(&chars);
    let marks = vec![',', ';', ':'];
    assert(marks@ == seq![',', ';', ':']);
    let stripped_end = strip_end_of_len(&chars, start, end, &marks);
    let body = string_from_range(&chars, start, stripped_end);
    let body_chars = chars_of(body.as_str());
    let k = trim_end_len(&body_chars);
    let mut out = string_from_range(&body_chars, 0, k);
    if k == 0 {
        return out;
    }
    let last = body_chars[k - 1];
    if !(last == '.' || last == '!' || last == '?' || last == '\u{2026}') {
        out.push('.');
    }
    out
}

/// Whether `needle` occurs in `text`.
pub fn contains_text(text: &Vec<char>, needle: &Vec<char>) -> (r: bool)
    ensures
        r == text_contains(text@, needle@),
{
    if needle.len() > text.len() {
        return false;
    }
    let last = text.len() - needle.len();
    let mut i: usize = 0;
    while i <= last
        invariant
            last == text.len() - needle.len(),
            i <= last + 1,
            forall|j: int| 0 <= j < i ==> !occurs_at(text@, needle@, j),
        decreases last + 1 - i,
    {
        if has_prefix_at(text, i, needle) {
            assert(occurs_at(text@, needle@, i as int));
            return true;
        }
        i = i + 1;
    }
    assert forall|j: int| !occurs_at(text@, needle@, j) by {
        if 0 <= j <= text@.len() - needle@.len() {
            assert(j < i);
        }
    }
    false
}

pub fn contains_string(list: &Vec<String>, item: &str) -> (r: bool)
    ensures
        r == views(list@).contains(item@),
{
    let mut i: usize = 0;
    while i < list.len()
        invariant
            i <= list.len(),
            forall|j: int| 0 <= j < i ==> views(list@)[j] != item@,
        decreases list.len() - i,
    {
        if crate::strings::text_equals(list[i].as_str(), item) {
            assert(views(list@)[i as int] == item@);
            return true;
        }
        i = i + 1;
    }
    false
}

/// Writes the pinned native tags that the line does not hold yet in front
/// of it.
pub fn tagged_synthesis_text(tags: &Vec<String>, text: &str) -> (r: String)
    ensures
        r@ == tagged_text(views(tags@), text@),
{
    let text_chars = chars_of(text);
    let mut missing: Vec<String> = Vec::new();
    let mut i: usize = 0;
    while i < tags.len()
        invariant
            i <= tags.len(),
            text_chars@ == text@,
            views(missing@) == missing_tags(views(tags@).take(i as int), text@),
        decreases tags.len() - i,
    {
        let tag = tags[i].as_str();
        assert(views(tags@).take(i + 1).drop_last() == views(tags@).take(i as int));
        assert(views(tags@).take(i + 1).last() == tag@);
        if is_native_tag_text(tag) && !contains_text(&text_chars, &chars_of(tag))
            && !contains_string(&missing, tag) {
            let ghost prev = missing@;
            missing.push(String::from_str(tag));
            assert(views(missing@) =~= views(prev).push(tag@));
        }
        i = i + 1;
    }
    assert(views(tags@).take(tags.len() as int) == views(tags@));
    if missing.len() == 0 {
        return String::from_str(text);
    }
    proof {
        reveal_strlit(" ");
        assert(" "@ =~= seq![' ']);
    }
    let mut joined = join_strings(&missing, " ");
    joined.push(' ');
    joined.append(text);
    assert(joined@ =~= join(views(missing@), seq![' ']) + seq![' '] + text@);
    trim_chars(&chars_of(joined.as_str()))
}

/// Adds to `tags` the native tags of `more` not yet there, in order.
pub fn extend_distinct_native(tags: &mut Vec<String>, more: &Vec<String>)
    ensures
        forall|prefix: Seq<Seq<char>>|
            #![trigger distinct_native(prefix)]
            views(old(tags)@) == distinct_native(prefix) ==> views(final(tags)@)
                == distinct_native(prefix + views(more@)),
{
    let ghost start = views(tags@);
    let mut i: usize = 0;
    while i < more.len()
        invariant
            i <= more.len(),
            forall|prefix: Seq<Seq<char>>|
                #![trigger distinct_native(prefix)]
                start == distinct_native(prefix) ==> views(tags@) == distinct_native(
                    prefix + views(more@).take(i as int),
                ),
        decreases more.len() - i,
    {
        let tag = more[i].as_str();
        let ghost prev = tags@;
        let keep = is_native_tag_text(tag) && !contains_string(tags, tag);
        if keep {
            tags.push(String::from_str(tag));
            assert(views(tags@) =~= views(prev).push(tag@));
        }
        assert forall|prefix: Seq<Seq<char>>|
            #![trigger distinct_native(prefix)]
            start == distinct_native(prefix) implies views(tags@) == distinct_native(
                prefix + views(more@).take(i + 1),
            ) by {
            let all = prefix + views(more@).take(i + 1);
            assert(all.drop_last() =~= prefix + views(more@).take(i as int));
            assert(all.last() == tag@);
        }
        i = i + 1;
    }
    assert(views(more@).take(more.len() as int) == views(more@));
}

/// Pinned tags then the line's tags, native ones only, each once.
pub fn effective_synthesis_tags(pinned_tags: &Vec<String>, line_tags: &Vec<String>) -> (r: Vec<
    String,
>)
    ensures
        views(r@) == effective_tags(views(pinned_tags@), views(line_tags@)),
{
    let mut tags: Vec<String> = Vec::new();
    proof {
        let empty = Seq::<Seq<char>>::empty();
        assert(views(tags@) =~= distinct_native(empty));
        assert(empty + views(pinned_tags@) =~= views(pinned_tags@));
    }
    extend_distinct_native(&mut tags, pinned_tags);
    extend_distinct_native(&mut tags, line_tags);
    tags
}

/// The whole line with its whitespace runs written as single spaces.
pub fn whole_file_synthesis_text(text: &str) -> (r: String)
    ensures
        r@ == collapse_spaces(text@),
{
    let parts = split_words_str(text);
    proof {
        reveal_strlit(" ");
        assert(" "@ =~= seq![' ']);
    }
    join_strings(&parts, " ")
}

/// Replaces every occurrence of `from` (not empty) by `to`.
pub fn replace_text(text: &Vec<char>, from: &str, to: &str) -> (r: Vec<char>)
    ensures
        r@ == replace_all(text@, from@, to@),
{
    let pattern = chars_of(from);
    let replacement = chars_of(to);
    let mut out: Vec<char> = Vec::new();
    let mut i: usize = 0;
    assert(text@.skip(0) == text@);
    while i < text.len()
        invariant
            i <= text.len(),
            pattern@ == from@,
            replacement@ == to@,
            out@ + replace_all(text@.skip(i as int), from@, to@) == replace_all(text@, from@, to@),
        decreases text.len() - i,
    {
        let ghost rest = text@.skip(i as int);
        if pattern.len() > 0 && has_prefix_at(text, i, &pattern) {
            let ghost before = out@;
            let mut j: usize = 0;
            while j < replacement.len()
                invariant
                    j <= replacement.len(),
                    out@ == before + replacement@.take(j as int),
                decreases replacement.len() - j,
            {
                out.push(replacement[j]);
                j = j + 1;
                assert(replacement@.take(j as int) == replacement@.take(j - 1).push(
                    replacement@[j - 1],
                ));
            }
            assert(replacement@.take(replacement.len() as int) == replacement@);
            assert(rest.skip(pattern.len() as int) == text@.skip(i + pattern.len()));
            i = i + pattern.len();
        } else {
            assert(rest.skip(1) == text@.skip(i + 1));
            out.push(text[i]);
            i = i + 1;
        }
    }
    assert(text@.skip(text.len() as int) =~= Seq::<char>::empty());
    out
}

pub fn filler_table() -> (t: Vec<(&'static str, &'static str)>)
    ensures
        crate::text::pair_views(t@) == filler_pairs(),
{
    let mut t: Vec<(&'static str, &'static str)> = Vec::new();
    t.push((" por favor", ""));
    t.push((" neste momento", " agora"));
    t.push((" exatamente", ""));
    t.push((" realmente", ""));
    t.push((" simplesmente", ""));
    t.push((" absolutamente", ""));
    assert(crate::text::pair_views(t@) =~= filler_pairs());
    t
}

pub proof fn lemma_before_first_comma(s: Seq<char>, k: int)
    requires
        0 <= k <= s.len(),
        forall|i: int| 0 <= i < k ==> s[i] != ',',
        k == s.len() || s[k] == ',',
    ensures
        before_first_comma(s) == s.take(k),
    decreases k,
{
    if k > 0 {
        lemma_before_first_comma(s.drop_first(), k - 1);
        assert(seq![s[0]] + s.drop_first().take(k - 1) =~= s.take(k));
    } else {
        assert(s.take(0) =~= Seq::<char>::empty());
    }
}

/// A shorter wording of a line for a window the generated audio overran.
pub fn shorten_timing_text(text: &str, attempt: u32) -> (r: String)
    ensures
        r@ == shortened_text(text@, attempt),
{
    let collapsed = whole_file_synthesis_text(text);
    let table = filler_table();
    let ghost t = crate::text::pair_views(table@);
    let mut current = chars_of(collapsed.as_str());
    let mut i: usize = 0;
    while i < table.len()
        invariant
            i <= table.len(),
            t == crate::text::pair_views(table@),
            t == filler_pairs(),
            replace_each(collapsed@, t, 0) == replace_each(current@, t, i as int),
        decreases table.len() - i,
    {
        let (from, to) = table[i];
        assert(t[i as int] == (from@, to@));
        current = replace_text(&current, from, to);
        i = i + 1;
    }
    let chosen = if attempt >= 2 {
        let mut k: usize = 0;
        while k < current.len() && current[k] != ','
            invariant
                k <= current.len(),
                forall|j: int| 0 <= j < k ==> current@[j] != ',',
            decreases current.len() - k,
        {
            k = k + 1;
        }
        proof {
            lemma_before_first_comma(current@, k as int);
        }
        let clause = string_from_range(&current, 0, k);
        assert(current@.subrange(0, k as int) == current@.take(k as int));
        let clause_chars = chars_of(clause.as_str());
        let (a, b) = trim_bounds(&clause_chars);
        if a < b {
            string_from_range(&clause_chars, a, b)
        } else {
            trim_chars(&current)
        }
    } else {
        string_from_chars(&current)
    };
    naturalized_terminal_punctuation(chosen.as_str())
}

/// A longer wording of a line for a window the generated audio left short.
pub fn lengthen_timing_text(text: &str, attempt: u32) -> (r: String)
    ensures
        r@ == lengthened_text(text@, attempt),
{
    let chars = chars_of(text);
    let (start, end) = trim_bounds(&chars);
    let marks = vec!['.', '!', '?', '\u{2026}'];
    assert(marks@ == seq!['.', '!', '?', '\u{2026}']);
    let stripped_end = strip_end_of_len(&chars, start, end, &marks);
    let body = chars_of(string_from_range(&chars, start, stripped_end).as_str());
    let (a, b) = trim_bounds(&body);
    if a == b {
        return String::new();
    }
    let mut out = string_from_range(&body, a, b);
    if attempt >= 2 {
        out.append("...");
        proof {
            reveal_strlit("...");
        }
    } else {
        out.push('.');
    }
    out
}

/// The characters outside `A-Z a-z 0-9 - _` turned into `_`.
pub fn underscore_chars(value: &str) -> (r: Vec<char>)
    ensures
        r@ == underscored(value@),
{
    let chars = chars_of(value);
    let mut out: Vec<char> = Vec::new();
    let mut i: usize = 0;
    while i < chars.len()
        invariant
            i <= chars.len(),
            out@ =~= underscored(chars@.take(i as int)),
        decreases chars.len() - i,
    {
        let c = chars[i];
        let kept = ('A' <= c && c <= 'Z') || ('a' <= c && c <= 'z') || ('0' <= c && c <= '9') || c
            == '-' || c == '_';
        if kept {
            out.push(c);
        } else {
            out.push('_');
        }
        i = i + 1;
    }
    assert(chars@.take(chars.len() as int) == chars@);
    out
}

/// A name safe to use inside a file name.
pub fn sanitize_component(value: &str) -> (r: String)
    ensures
        r@ == underscored(value@),
{
    string_from_chars(&underscore_chars(value))
}

/// A name safe to use inside an artifact file name, without underscores
/// at its ends.
pub fn sanitize_artifact_component(value: &str) -> (r: String)
    ensures
        r@ == artifact_component(value@),
{
    let chars = underscore_chars(value);
    let underscore = vec!['_'];
    assert(underscore@ == seq!['_']);
    let start = strip_start_of_len(&chars, 0, chars.len(), &underscore);
    let end = strip_end_of_len(&chars, start, chars.len(), &underscore);
    assert(chars@.subrange(0, chars@.len() as int) == chars@);
    string_from_range(&chars, start, end)
}

/// The trimmed text, when it is not blank.
pub fn non_empty_str(value: &str) -> (r: Option<&str>)
    ensures
        match non_blank(value@) {
            Some(t) => r is Some && r->0@ == t,
            None => r is None,
        },
{
    let chars = chars_of(value);
    let (a, b) = trim_bounds(&chars);
    if a < b {
        Some(value.substring_char(a, b))
    } else {
        None
    }
}

/// The trimmed stem of a request's file name, when it is not blank.
pub fn request_safe_stem(value: &str) -> (r: Option<&str>)
    ensures
        match non_blank(value@) {
            Some(t) => r is Some && r->0@ == t,
            None => r is None,
        },
{
    non_empty_str(value)
}

/// The folder, beside an output, that keeps the chunks of its alignment:
/// `{stem}.alignment_chunks`, the stem made safe (`audio` when nothing is
/// left of it), in the output's folder (`.` when it has none).
pub open spec fn alignment_dir(output_path: Seq<Seq<char>>) -> Seq<Seq<char>> {
    let stem = if output_path.len() == 0 {
        "audio"@
    } else if artifact_component(crate::paths::stem_of(output_path.last())).len() == 0 {
        "audio"@
    } else {
        artifact_component(crate::paths::stem_of(output_path.last()))
    };
    let parent = if output_path.len() <= 1 {
        seq!["."@]
    } else {
        output_path.drop_last()
    };
    parent.push(stem + ".alignment_chunks"@)
}

pub fn alignment_artifact_dir(output_path: &Vec<String>) -> (r: Vec<String>)
    ensures
        views(r@) == alignment_dir(views(output_path@)),
{
    proof {
        reveal_strlit("audio");
        reveal_strlit(".");
        reveal_strlit(".alignment_chunks");
    }
    let mut stem = if output_path.len() == 0 {
        String::from_str("audio")
    } else {
        let s = crate::paths::file_stem(output_path[output_path.len() - 1].as_str());
        let safe = sanitize_artifact_component(s.as_str());
        if safe.as_str().is_empty() {
            String::from_str("audio")
        } else {
            safe
        }
    };
    stem.append(".alignment_chunks");
    let mut r: Vec<String> = Vec::new();
    if output_path.len() <= 1 {
        r.push(String::from_str("."));
        assert(views(r@) =~= seq!["."@]);
    } else {
        let mut i: usize = 0;
        while i + 1 < output_path.len()
            invariant
                i + 1 <= output_path.len(),
                views(r@) == views(output_path@).take(i as int),
            decreases output_path.len() - i,
        {
            let ghost before = r@;
            let item = output_path[i].clone();
            r.push(item);
            assert(views(r@) =~= views(before).push(output_path@[i as int]@));
            assert(views(output_path@).take(i + 1) =~= views(output_path@).take(i as int).push(
                output_path@[i as int]@,
            ));
            i = i + 1;
        }
        assert(views(output_path@).take(i as int) =~= views(output_path@).drop_last());
    }
    let ghost before = r@;
    r.push(stem);
    assert(views(r@) =~= views(before).push(views(r@).last()));
    r
}

/// The file, inside an alignment folder, that keeps one artifact of chunk
/// `chunk_index`: `{chunk_index:04}-{suffix}.wav`, the suffix made safe.
pub open spec fn segment_artifact(artifact_dir: Seq<Seq<char>>, chunk_index: nat, suffix: Seq<char>) -> Seq<
    Seq<char>,
> {
    artifact_dir.push(
        crate::numbers::zero_padded(chunk_index, 4) + "-"@ + artifact_component(suffix) + ".wav"@,
    )
}

pub fn segment_artifact_path(artifact_dir: &Vec<String>, chunk_index: usize, suffix: &str) -> (r:
    Vec<String>)
    ensures
        views(r@) == segment_artifact(views(artifact_dir@), chunk_index as nat, suffix@),
{
    let mut name = String::new();
    crate::numbers::push_zero_padded(&mut name, chunk_index as u64, 4);
    name.push('-');
    let safe = sanitize_artifact_component(suffix);
    name.append(safe.as_str());
    name.append(".wav");
    proof {
        reveal_strlit("-");
        reveal_strlit(".wav");
        assert(name@ =~= crate::numbers::zero_padded(chunk_index as nat, 4) + "-"@
            + artifact_component(suffix@) + ".wav"@);
    }
    crate::paths::join_part(artifact_dir, name.as_str())
}

/// The text of a whole-file synthesis: the line with its whitespace runs
/// written as single spaces, the pinned native tags it lacks in front, and
/// sentence-final punctuation; nothing when no text is left.
pub fn global_synthesis_text(pinned_tags: &Vec<String>, text: &str) -> (r: Option<String>)
    ensures
        naturalized(tagged_text(views(pinned_tags@), collapse_spaces(text@))).len() == 0 ==> r
            is None,
        naturalized(tagged_text(views(pinned_tags@), collapse_spaces(text@))).len() > 0 ==> (r
            matches Some(t) && t@ == naturalized(tagged_text(views(pinned_tags@), collapse_spaces(text@)))),
{
    let whole = whole_file_synthesis_text(text);
    let tagged = tagged_synthesis_text(pinned_tags, whole.as_str());
    let natural = naturalized_terminal_punctuation(tagged.as_str());
    if natural.as_str().is_empty() {
        None
    } else {
        Some(natural)
    }
}

/// What a per-line override gives the text of its segment.
pub struct LineText {
    /// The line's position in the project.
    pub line_index: usize,
    pub target_text: String,
    pub tags: Vec<String>,
}

pub open spec fn line_text_view(line: LineText) -> (usize, Seq<char>, Seq<Seq<char>>) {
    (line.line_index, line.target_text@, views(line.tags@))
}

pub open spec fn line_texts_view(lines: Seq<LineText>) -> Seq<(usize, Seq<char>, Seq<Seq<char>>)> {
    lines.map_values(|l: LineText| line_text_view(l))
}

/// The text of one planned per-line segment.
pub struct LineSegmentText {
    /// Position, among the overrides given, of the line it speaks.
    pub source: usize,
    /// The line's position in the project, counted from 1.
    pub chunk_index: usize,
    pub text: String,
}

pub open spec fn segment_texts_view(segments: Seq<LineSegmentText>) -> Seq<(usize, usize, Seq<char>)> {
    segments.map_values(|s: LineSegmentText| (s.source, s.chunk_index, s.text@))
}

/// The lines that hold some text, as (line index, position), in the order
/// given.
pub open spec fn spoken_lines(lines: Seq<(usize, Seq<char>, Seq<Seq<char>>)>) -> Seq<(usize, usize)>
    decreases lines.len(),
{
    if lines.len() == 0 {
        seq![]
    } else {
        let prev = spoken_lines(lines.drop_last());
        if trim(lines.last().1).len() > 0 {
            prev.push((lines.last().0, (lines.len() - 1) as usize))
        } else {
            prev
        }
    }
}

/// What a line speaks: its trimmed text behind the pinned and its own
/// native tags it lacks, with sentence-final punctuation.
pub open spec fn line_segment_text(
    pinned: Seq<Seq<char>>,
    line: (usize, Seq<char>, Seq<Seq<char>>),
) -> Seq<char> {
    naturalized(tagged_text(effective_tags(pinned, line.2), trim(line.1)))
}

/// The segments of the ordered entries whose text is not empty.
pub open spec fn planned_segments(
    pinned: Seq<Seq<char>>,
    lines: Seq<(usize, Seq<char>, Seq<Seq<char>>)>,
    order: Seq<(usize, usize)>,
) -> Seq<(usize, usize, Seq<char>)>
    decreases order.len(),
{
    if order.len() == 0 {
        seq![]
    } else {
        let prev = planned_segments(pinned, lines, order.drop_last());
        let position = order.last().1;
        let text = line_segment_text(pinned, lines[position as int]);
        if text.len() > 0 {
            prev.push((position, (order.last().0 + 1) as usize, text))
        } else {
            prev
        }
    }
}

/// The per-line segments: the lines holding text, ordered by their index in
/// the project (lines with equal indices keep their order), each speaking
/// its own text; segments left without text are dropped.
pub fn line_override_synthesis_segments(pinned_tags: &Vec<String>, lines: &Vec<LineText>) -> (r: Vec<
    LineSegmentText,
>)
    requires
        forall|i: int| 0 <= i < lines.len() ==> #[trigger] lines@[i].line_index < usize::MAX,
    ensures
        segment_texts_view(r@) == planned_segments(
            views(pinned_tags@),
            line_texts_view(lines@),
            sort_by_key(spoken_lines(line_texts_view(lines@))),
        ),
        forall|i: int, j: int|
            0 <= i < j < r@.len() ==> (#[trigger] r@[i]).chunk_index <= (#[trigger] r@[j]).chunk_index,
        forall|i: int| 0 <= i < r@.len() ==> (#[trigger] r@[i]).source < lines.len(),
{
    let ghost lv = line_texts_view(lines@);
    let mut kept: Vec<(usize, usize)> = Vec::new();
    let mut i: usize = 0;
    while i < lines.len()
        invariant
            i <= lines.len(),
            lv == line_texts_view(lines@),
            kept@ == spoken_lines(lv.take(i as int)),
            forall|k: int|
                0 <= k < kept@.len() ==> #[trigger] kept@[k].1 < i && kept@[k].0
                    == lines@[kept@[k].1 as int].line_index,
        decreases lines.len() - i,
    {
        assert(lv.take(i + 1).drop_last() == lv.take(i as int));
        assert(lv.take(i + 1).last() == line_text_view(lines@[i as int]));
        let t = trim_str(lines[i].target_text.as_str());
        if !t.as_str().is_empty() {
            kept.push((lines[i].line_index, i));
        }
        i = i + 1;
    }
    assert(lv.take(lines.len() as int) == lv);
    let mut sorted: Vec<(usize, usize)> = Vec::new();
    let mut k: usize = 0;
    while k < kept.len()
        invariant
            k <= kept.len(),
            sorted@ == sort_by_key(kept@.take(k as int)),
        decreases kept.len() - k,
    {
        assert(kept@.take(k + 1).drop_last() == kept@.take(k as int));
        let entry = kept[k];
        let j = key_insert_position(&sorted, entry.0);
        proof {
            lemma_insert_by_key(sorted@, entry, j as int);
        }
        sorted.insert(j, entry);
        k = k + 1;
    }
    assert(kept@.take(kept.len() as int) == kept@);
    proof {
        lemma_sorted_entries_from(kept@);
        assert forall|q: int| 0 <= q < sorted@.len() implies #[trigger] sorted@[q].1 < lines.len()
            && sorted@[q].0 == lines@[sorted@[q].1 as int].line_index by {
            let p = choose|p: int| 0 <= p < kept@.len() && kept@[p] == sorted@[q];
            assert(kept@[p].1 < lines.len());
        }
    }
    let mut out: Vec<LineSegmentText> = Vec::new();
    let mut m: usize = 0;
    while m < sorted.len()
        invariant
            m <= sorted.len(),
            lv == line_texts_view(lines@),
            forall|q: int|
                0 <= q < sorted@.len() ==> #[trigger] sorted@[q].1 < lines.len() && sorted@[q].0
                    == lines@[sorted@[q].1 as int].line_index,
            forall|q: int| 0 <= q < lines.len() ==> #[trigger] lines@[q].line_index < usize::MAX,
            segment_texts_view(out@) == planned_segments(
                views(pinned_tags@),
                lv,
                sorted@.take(m as int),
            ),
            forall|q: int| 0 <= q < out@.len() ==> (#[trigger] out@[q]).source < lines.len(),
        decreases sorted.len() - m,
    {
        assert(sorted@.take(m + 1).drop_last() == sorted@.take(m as int));
        let (line_index, position) = sorted[m];
        let line = &lines[position];
        assert(lv[position as int] == line_text_view(lines@[position as int]));
        let tags = effective_synthesis_tags(pinned_tags, &line.tags);
        let body = trim_str(line.target_text.as_str());
        let tagged = tagged_synthesis_text(&tags, body.as_str());
        let text = naturalized_terminal_punctuation(tagged.as_str());
        assert(text@ == line_segment_text(views(pinned_tags@), lv[position as int]));
        assert(sorted@.take(m + 1).last() == (line_index, position));
        if !text.as_str().is_empty() {
            let ghost before = out@;
            out.push(LineSegmentText { source: position, chunk_index: line.line_index + 1, text });
            assert(segment_texts_view(out@) =~= segment_texts_view(before).push(
                segment_texts_view(out@).last(),
            ));
        }
        m = m + 1;
    }
    assert(sorted@.take(sorted.len() as int) == sorted@);
    proof {
        lemma_sort_by_key_sorted(kept@);
        lemma_planned_in_order(views(pinned_tags@), lv, sorted@);
        let v = segment_texts_view(out@);
        assert forall|i: int, j: int| 0 <= i < j < out@.len() implies (#[trigger] out@[i]).chunk_index
            <= (#[trigger] out@[j]).chunk_index by {
            assert(v[i].1 == out@[i].chunk_index);
            assert(v[j].1 == out@[j].chunk_index);
        }
    }
    out
}

/// Segments planned from entries in key order come out in chunk order, no
/// later than the last entry.
pub proof fn lemma_planned_in_order(
    pinned: Seq<Seq<char>>,
    lines: Seq<(usize, Seq<char>, Seq<Seq<char>>)>,
    order: Seq<(usize, usize)>,
)
    requires
        sorted_by_key(order),
        forall|q: int| 0 <= q < order.len() ==> (#[trigger] order[q]).0 < usize::MAX,
    ensures
        forall|i: int, j: int|
            0 <= i < j < planned_segments(pinned, lines, order).len() ==> (#[trigger] planned_segments(
                pinned,
                lines,
                order,
            )[i]).1 <= (#[trigger] planned_segments(pinned, lines, order)[j]).1,
        order.len() > 0 ==> forall|i: int|
            0 <= i < planned_segments(pinned, lines, order).len() ==> (#[trigger] planned_segments(
                pinned,
                lines,
                order,
            )[i]).1 <= order.last().0 + 1,
        order.len() == 0 ==> planned_segments(pinned, lines, order).len() == 0,
    decreases order.len(),
{
    if order.len() > 0 {
        let rest = order.drop_last();
        assert(sorted_by_key(rest)) by {
            assert forall|i: int, j: int| 0 <= i < j < rest.len() implies #[trigger] rest[i].0
                <= #[trigger] rest[j].0 by {
                assert(rest[i] == order[i]);
                assert(rest[j] == order[j]);
            }
        }
        assert forall|q: int| 0 <= q < rest.len() implies (#[trigger] rest[q]).0 < usize::MAX by {
            assert(rest[q] == order[q]);
        }
        lemma_planned_in_order(pinned, lines, rest);
        if rest.len() > 0 {
            assert(rest.last() == order[order.len() - 2]);
            assert(order[order.len() - 2].0 <= order[order.len() - 1].0);
        }
        let prev = planned_segments(pinned, lines, rest);
        let all = planned_segments(pinned, lines, order);
        let last = order.last();
        assert(last == order[order.len() - 1]);
        assert(last.0 < usize::MAX);
        let text = line_segment_text(pinned, lines[last.1 as int]);
        if text.len() > 0 {
            assert(all == prev.push((last.1, (last.0 + 1) as usize, text)));
            assert forall|i: int| 0 <= i < all.len() implies (#[trigger] all[i]).1 <= last.0 + 1 by {
                if i < prev.len() {
                    assert(all[i] == prev[i]);
                }
            }
            assert forall|i: int, j: int| 0 <= i < j < all.len() implies (#[trigger] all[i]).1
                <= (#[trigger] all[j]).1 by {
                assert(all[i] == prev[i]);
                if j < prev.len() {
                    assert(all[j] == prev[j]);
                }
            }
        } else {
            assert(all == prev);
        }
    }
}

/// Ordering entries keeps them: every entry of the ordered sequence is one
/// of the given entries.
pub proof fn lemma_sorted_entries_from(items: Seq<(usize, usize)>)
    ensures
        forall|q: int|
            0 <= q < sort_by_key(items).len() ==> exists|p: int|
                0 <= p < items.len() && items[p] == #[trigger] sort_by_key(items)[q],
    decreases items.len(),
{
    if items.len() > 0 {
        lemma_sorted_entries_from(items.drop_last());
        lemma_insert_contains(sort_by_key(items.drop_last()), items.last());
        let sorted = sort_by_key(items);
        assert forall|q: int| 0 <= q < sorted.len() implies exists|p: int|
            0 <= p < items.len() && items[p] == #[trigger] sorted[q] by {
            let x = sorted[q];
            if x == items.last() {
                assert(items[items.len() - 1] == x);
            } else {
                let prev = sort_by_key(items.drop_last());
                let r = choose|r: int| 0 <= r < prev.len() && prev[r] == x;
                let p = choose|p: int| 0 <= p < items.drop_last().len() && items.drop_last()[p] == prev[r];
                assert(items[p] == x);
            }
        }
    }
}

proof fn lemma_insert_contains(sorted: Seq<(usize, usize)>, item: (usize, usize))
    ensures
        insert_by_key(sorted, item).len() == sorted.len() + 1,
        forall|q: int|
            0 <= q < insert_by_key(sorted, item).len() ==> #[trigger] insert_by_key(sorted, item)[q]
                == item || exists|r: int| 0 <= r < sorted.len() && sorted[r] == insert_by_key(sorted, item)[q],
    decreases sorted.len(),
{
    if sorted.len() > 0 && sorted[0].0 <= item.0 {
        lemma_insert_contains(sorted.drop_first(), item);
        let ins = insert_by_key(sorted, item);
        let rest = insert_by_key(sorted.drop_first(), item);
        assert forall|q: int| 0 <= q < ins.len() implies #[trigger] ins[q] == item || exists|r: int|
            0 <= r < sorted.len() && sorted[r] == ins[q] by {
            if q == 0 {
                assert(sorted[0] == ins[0]);
            } else {
                assert(ins[q] == rest[q - 1]);
                if rest[q - 1] != item {
                    let r = choose|r: int| 0 <= r < sorted.drop_first().len() && sorted.drop_first()[r] == rest[q - 1];
                    assert(sorted[r + 1] == ins[q]);
                }
            }
        }
    } else if sorted.len() > 0 {
        let ins = insert_by_key(sorted, item);
        assert forall|q: int| 0 <= q < ins.len() implies #[trigger] ins[q] == item || exists|r: int|
            0 <= r < sorted.len() && sorted[r] == ins[q] by {
            if q > 0 {
                assert(sorted[q - 1] == ins[q]);
            }
        }
    }
}

} // verus!
