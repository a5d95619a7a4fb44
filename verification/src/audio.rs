//! Audio files by name: which names are audio, the family a game line
//! belongs to, where its dubbed copy goes, its cached transcription, and
//! conversions between sample counts and milliseconds.
use vstd::prelude::*;
use crate::domain::CachedTranscription;
use crate::paths::{
    ascii_lowercase, join_part, path_extension, path_file_extension, path_file_stem, path_stem,
    to_ascii_lowercase,
};
use crate::strings::{chars_of, join, string_from_range, text_equals, trim, trim_str, views};
use crate::text::{lowercase_text, strip_end_of, strip_end_of_len, strip_start_of, strip_start_of_len, to_lowercase};

verus! {

/// Extensions of the audio files the application lists.
pub open spec fn audio_extensions() -> Seq<Seq<char>> {
    seq!["wav"@, "mp3"@, "wem"@, "ogg"@, "flac"@]
}

/// Name of the JSON file, in the output folder, that caches transcriptions.
pub const TRANSCRIPTION_CACHE_FILE: &'static str = "transcricoes_cache.json";

/// Tokens that end the family part of a game line's file name.
pub open spec fn family_markers() -> Seq<Seq<char>> {
    seq!["questdialog"@, "narration"@, "player"@]
}

/// A path names an audio file when the extension of its file name, ignoring
/// ASCII case, is one of the known audio extensions.
pub open spec fn is_audio_name(name: Seq<char>) -> bool {
    match path_extension(name) {
        Some(e) => audio_extensions().contains(ascii_lowercase(e)),
        None => false,
    }
}

/// The extension of a path's file name in ASCII lower case, or the empty
/// text.
pub open spec fn lower_extension(name: Seq<char>) -> Seq<char> {
    match path_extension(name) {
        Some(e) => ascii_lowercase(e),
        None => seq![],
    }
}

/// Pieces closed so far and the piece being read, after reading `s`.
pub open spec fn piece_scan(s: Seq<char>, sep: char) -> (Seq<Seq<char>>, Seq<char>)
    decreases s.len(),
{
    if s.len() == 0 {
        (seq![], seq![])
    } else {
        let prev = piece_scan(s.drop_last(), sep);
        if s.last() == sep {
            if prev.1.len() > 0 {
                (prev.0.push(prev.1), seq![])
            } else {
                prev
            }
        } else {
            (prev.0, prev.1.push(s.last()))
        }
    }
}

/// The non-empty pieces of `s` between separators, in order.
pub open spec fn pieces(s: Seq<char>, sep: char) -> Seq<Seq<char>> {
    let scan = piece_scan(s, sep);
    if scan.1.len() > 0 {
        scan.0.push(scan.1)
    } else {
        scan.0
    }
}

/// A token of decimal digits that is a line number: two digits or more, or
/// a single `0`.
pub open spec fn is_sequence(t: Seq<char>) -> bool {
    (forall|i: int| 0 <= i < t.len() ==> '0' <= #[trigger] t[i] && t[i] <= '9') && (t.len() > 1
        || (t.len() > 0 && t[0] == '0'))
}

/// Position of the first family marker among the tokens, from `i` on.
pub open spec fn first_marker(tokens: Seq<Seq<char>>, i: int) -> Option<int>
    decreases tokens.len() - i,
{
    if i < 0 || i >= tokens.len() {
        None
    } else if family_markers().contains(tokens[i]) {
        Some(i)
    } else {
        first_marker(tokens, i + 1)
    }
}

/// Position of the first line number among the tokens, from `i` on (the
/// number of tokens when there is none).
pub open spec fn first_sequence(tokens: Seq<Seq<char>>, i: int) -> int
    decreases tokens.len() - i,
{
    if i < 0 || i >= tokens.len() {
        tokens.len() as int
    } else if is_sequence(tokens[i]) {
        i
    } else {
        first_sequence(tokens, i + 1)
    }
}

/// The tokens without the line numbers at their end.
pub open spec fn drop_trailing_sequence(tokens: Seq<Seq<char>>) -> Seq<Seq<char>>
    decreases tokens.len(),
{
    if tokens.len() > 0 && is_sequence(tokens.last()) {
        drop_trailing_sequence(tokens.drop_last())
    } else {
        tokens
    }
}

/// The family read from a stem already trimmed of `_` and lower-cased: its
/// `_` tokens up to the first family marker (else up to the first line
/// number), without trailing line numbers, joined by `_`; `outros` when
/// nothing is left.
pub open spec fn family_from_lowered(lowered: Seq<char>) -> Seq<char> {
    let tokens = pieces(lowered, '_');
    let cut = match first_marker(tokens, 0) {
        Some(i) => i,
        None => first_sequence(tokens, 0),
    };
    let family = drop_trailing_sequence(tokens.take(cut));
    if tokens.len() == 0 || family.len() == 0 {
        "outros"@
    } else {
        join(family, seq!['_'])
    }
}

/// The stem of the file a path text names, or the whole text when it names
/// none.
pub open spec fn family_stem(file_name: Seq<char>) -> Seq<char> {
    match path_stem(file_name) {
        Some(s) => s,
        None => file_name,
    }
}

/// The family of a game line's file name: read from its stem without
/// leading and trailing `_`, in lower case.
pub open spec fn family_of(file_name: Seq<char>) -> Seq<char> {
    family_from_lowered(
        lowercase_text(strip_end_of(strip_start_of(family_stem(file_name), seq!['_']), seq!['_'])),
    )
}

pub fn audio_extension_list() -> (r: Vec<&'static str>)
    ensures
        crate::tags::str_views(r@) == audio_extensions(),
{
    let mut r: Vec<&'static str> = Vec::new();
    r.push("wav");
    r.push("mp3");
    r.push("wem");
    r.push("ogg");
    r.push("flac");
    assert(crate::tags::str_views(r@) =~= audio_extensions());
    r
}

/// The extension of a path's file name in ASCII lower case, or the empty
/// text.
pub fn extension(file_name: &str) -> (r: String)
    ensures
        r@ == lower_extension(file_name@),
{
    match path_file_extension(file_name) {
        Some(e) => to_ascii_lowercase(e.as_str()),
        None => String::new(),
    }
}

/// Whether a path names a file with one of the audio extensions, in any
/// ASCII case.
pub fn is_audio_file(file_name: &str) -> (r: bool)
    ensures
        r == is_audio_name(file_name@),
{
    let e = match path_file_extension(file_name) {
        Some(e) => e,
        None => return false,
    };
    let lower = to_ascii_lowercase(e.as_str());
    let known = audio_extension_list();
    let mut i: usize = 0;
    while i < known.len()
        invariant
            i <= known.len(),
            crate::tags::str_views(known@) == audio_extensions(),
            path_extension(file_name@) == Some(e@),
            lower@ == ascii_lowercase(e@),
            forall|j: int| 0 <= j < i ==> audio_extensions()[j] != lower@,
        decreases known.len() - i,
    {
        if text_equals(lower.as_str(), known[i]) {
            assert(audio_extensions()[i as int] == lower@);
            return true;
        }
        i = i + 1;
    }
    false
}

/// Splits at `sep`, keeping the non-empty pieces.
pub fn split_nonempty(chars: &Vec<char>, sep: char) -> (parts: Vec<String>)
    ensures
        views(parts@) == pieces(chars@, sep),
{
    let mut parts: Vec<String> = Vec::new();
    let mut current = String::new();
    let mut i: usize = 0;
    while i < chars.len()
        invariant
            i <= chars.len(),
            views(parts@) == piece_scan(chars@.take(i as int), sep).0,
            current@ == piece_scan(chars@.take(i as int), sep).1,
        decreases chars.len() - i,
    {
        let c = chars[i];
        assert(chars@.take(i + 1).drop_last() == chars@.take(i as int));
        if c == sep {
            if !current.as_str().is_empty() {
                let ghost before = parts@;
                let done = current;
                current = String::new();
                parts.push(done);
                assert(views(parts@) =~= views(before).push(done@));
            }
        } else {
            current.push(c);
        }
        i = i + 1;
    }
    assert(chars@.take(chars.len() as int) == chars@);
    if !current.as_str().is_empty() {
        let ghost before = parts@;
        let ghost last = current@;
        parts.push(current);
        assert(views(parts@) =~= views(before).push(last));
    }
    parts
}

pub fn is_sequence_token(token: &str) -> (r: bool)
    ensures
        r == is_sequence(token@),
{
    let chars = chars_of(token);
    let mut i: usize = 0;
    while i < chars.len()
        invariant
            i <= chars.len(),
            chars@ == token@,
            forall|j: int| 0 <= j < i ==> '0' <= #[trigger] chars@[j] && chars@[j] <= '9',
        decreases chars.len() - i,
    {
        if !('0' <= chars[i] && chars[i] <= '9') {
            return false;
        }
        i = i + 1;
    }
    chars.len() > 1 || (chars.len() > 0 && chars[0] == '0')
}

fn is_family_marker(token: &str) -> (r: bool)
    ensures
        r == family_markers().contains(token@),
{
    let markers: [&str; 3] = ["questdialog", "narration", "player"];
    let r = text_equals(token, "questdialog") || text_equals(token, "narration") || text_equals(
        token,
        "player",
    );
    assert(family_markers()[0] == "questdialog"@);
    assert(family_markers()[1] == "narration"@);
    assert(family_markers()[2] == "player"@);
    r
}

pub proof fn lemma_first_positions(t: Seq<Seq<char>>, i: int)
    requires
        0 <= i,
    ensures
        first_marker(t, i) matches Some(j) ==> 0 <= j < t.len(),
        first_sequence(t, i) <= t.len(),
    decreases t.len() - i,
{
    if i < t.len() {
        lemma_first_positions(t, i + 1);
    }
}

fn find_marker(tokens: &Vec<String>) -> (r: Option<usize>)
    ensures
        match first_marker(views(tokens@), 0) {
            Some(i) => r == Some(i as usize),
            None => r is None,
        },
{
    let ghost t = views(tokens@);
    let mut i: usize = 0;
    while i < tokens.len()
        invariant
            i <= tokens.len(),
            t == views(tokens@),
            first_marker(t, 0) == first_marker(t, i as int),
        decreases tokens.len() - i,
    {
        if is_family_marker(tokens[i].as_str()) {
            return Some(i);
        }
        i = i + 1;
    }
    None
}

fn find_sequence(tokens: &Vec<String>) -> (r: usize)
    ensures
        r as int == first_sequence(views(tokens@), 0),
{
    let ghost t = views(tokens@);
    let mut j: usize = 0;
    while j < tokens.len()
        invariant
            j <= tokens.len(),
            t == views(tokens@),
            first_sequence(t, 0) == first_sequence(t, j as int),
        decreases tokens.len() - j,
    {
        if is_sequence_token(tokens[j].as_str()) {
            return j;
        }
        j = j + 1;
    }
    j
}

/// The family of a game line from its file name.
pub fn audio_family_from_filename(file_name: &str) -> (r: String)
    ensures
        r@ == family_of(file_name@),
{
    let stem_text = match path_file_stem(file_name) {
        Some(s) => s,
        None => String::from_str(file_name),
    };
    let stem = chars_of(stem_text.as_str());
    let underscore = vec!['_'];
    assert(underscore@ == seq!['_']);
    let start = strip_start_of_len(&stem, 0, stem.len(), &underscore);
    assert(stem@.subrange(0, stem@.len() as int) == stem@);
    let end = strip_end_of_len(&stem, start, stem.len(), &underscore);
    let trimmed = string_from_range(&stem, start, end);
    let lowered = to_lowercase(trimmed.as_str());
    audio_family_from_lowered(lowered.as_str())
}

/// The family of a stem that is already trimmed of `_` and lower-cased.
pub fn audio_family_from_lowered(lowered: &str) -> (r: String)
    ensures
        r@ == family_from_lowered(lowered@),
{
    let tokens = split_nonempty(&chars_of(lowered), '_');
    let ghost t = views(tokens@);
    if tokens.len() == 0 {
        return String::from_str("outros");
    }
    let cut = match find_marker(&tokens) {
        Some(m) => m,
        None => find_sequence(&tokens),
    };
    proof {
        lemma_first_positions(t, 0);
    }
    let mut keep = cut;
    while keep > 0 && is_sequence_token(tokens[keep - 1].as_str())
        invariant
            keep <= cut <= tokens.len(),
            t == views(tokens@),
            drop_trailing_sequence(t.take(cut as int)) == drop_trailing_sequence(
                t.take(keep as int),
            ),
        decreases keep,
    {
        assert(t.take(keep as int).drop_last() == t.take(keep - 1));
        keep = keep - 1;
    }
    assert(drop_trailing_sequence(t.take(keep as int)) == t.take(keep as int));
    if keep == 0 {
        return String::from_str("outros");
    }
    let mut family = String::new();
    let mut k: usize = 0;
    while k < keep
        invariant
            k <= keep <= tokens.len(),
            t == views(tokens@),
            family@ == join(t.take(k as int), seq!['_']),
        decreases keep - k,
    {
        assert(t.take(k + 1).drop_last() == t.take(k as int));
        if k > 0 {
            family.push('_');
        }
        family.append(tokens[k].as_str());
        k = k + 1;
    }
    assert(t.take(keep as int).take(keep as int) == t.take(keep as int));
    family
}

/// Where the dubbed copy of a line goes: a folder named after its family
/// inside the output folder.
pub fn dubbed_output_path(output_dir: &Vec<String>, file_name: &str) -> (r: Vec<String>)
    ensures
        views(r@) == views(output_dir@).push(family_of(file_name@)).push(file_name@),
{
    let family = audio_family_from_filename(file_name);
    let folder = join_part(output_dir, family.as_str());
    join_part(&folder, file_name)
}

/// The tail guard, in milliseconds, kept after the last voice: the padding
/// asked for (120 when none), held between 80 and 450.
pub open spec fn guard_ms(pad_ms: u32) -> u32 {
    let candidate = if pad_ms > 0 {
        pad_ms
    } else {
        120
    };
    if candidate < 80 {
        80
    } else if candidate > 450 {
        450
    } else {
        candidate
    }
}

pub fn final_guard_ms(pad_ms: u32) -> (r: u32)
    ensures
        r == guard_ms(pad_ms),
{
    let candidate = if pad_ms > 0 {
        pad_ms
    } else {
        120
    };
    if candidate < 80 {
        80
    } else if candidate > 450 {
        450
    } else {
        candidate
    }
}

pub open spec fn sat_sub(a: int, b: int) -> int {
    if a > b {
        a - b
    } else {
        0
    }
}

pub open spec fn min_of(a: int, b: int) -> int {
    if a < b {
        a
    } else {
        b
    }
}

pub open spec fn max_of(a: int, b: int) -> int {
    if a > b {
        a
    } else {
        b
    }
}

/// Most trailing silence a profile keeps: 30% of the audio (the product
/// saturating at 32 bits), and at least 35 ms.
pub open spec fn trailing_limit(total_ms: u32) -> int {
    max_of(min_of(total_ms * 30, u32::MAX as int) / 100, 35)
}

/// The trailing silence of a profile: what the audio has, at least the
/// final guard, at most the trailing limit.
pub open spec fn profile_trailing(total_ms: u32, raw_trailing_ms: u32, pad_ms: u32) -> int {
    min_of(max_of(raw_trailing_ms as int, guard_ms(pad_ms) as int), trailing_limit(total_ms))
}

/// The leading silence of a profile: what the audio has, but leaving room
/// for the trailing silence and 80 ms of voice.
pub open spec fn profile_leading(total_ms: u32, leading_ms: u32, trailing_ms: int) -> int {
    min_of(leading_ms as int, sat_sub(sat_sub(total_ms as int, trailing_ms), 80))
}

/// The voice of a profile: what is left between the silences, at least
/// 80 ms.
pub open spec fn profile_voice(total_ms: u32, leading_ms: int, trailing_ms: int) -> int {
    max_of(sat_sub(sat_sub(total_ms as int, leading_ms), trailing_ms), 80)
}

/// The leading silence, trailing silence and voice, in milliseconds, of a
/// timing profile, from the audio's length and the silences measured at its
/// ends.
pub fn timing_profile_spans(total_ms: u32, leading_ms: u32, raw_trailing_ms: u32, pad_ms: u32) -> (r: (
    u32,
    u32,
    u32,
))
    ensures
        r.1 == profile_trailing(total_ms, raw_trailing_ms, pad_ms),
        r.0 == profile_leading(total_ms, leading_ms, r.1 as int),
        r.2 == profile_voice(total_ms, r.0 as int, r.1 as int),
{
    let guard = final_guard_ms(pad_ms);
    let product: u64 = (total_ms as u64) * 30;
    let capped: u64 = if product > 0xffff_ffff {
        0xffff_ffff
    } else {
        product
    };
    let scaled = (capped / 100) as u32;
    let limit = if scaled > 35 {
        scaled
    } else {
        35
    };
    let raised = if raw_trailing_ms > guard {
        raw_trailing_ms
    } else {
        guard
    };
    let trailing = if raised < limit {
        raised
    } else {
        limit
    };
    let leading_limit = total_ms.saturating_sub(trailing).saturating_sub(80);
    let leading = if leading_ms < leading_limit {
        leading_ms
    } else {
        leading_limit
    };
    let rest = total_ms.saturating_sub(leading).saturating_sub(trailing);
    let voice = if rest > 80 {
        rest
    } else {
        80
    };
    (leading, trailing, voice)
}

/// Milliseconds that `sample_count` samples last, rounded to the nearest,
/// kept to 32 bits; zero for a zero rate.
pub fn samples_to_ms(sample_count: usize, sample_rate: u32) -> (r: u32)
    requires
        sample_count * 1000 + sample_rate / 2 <= u64::MAX,
    ensures
        sample_rate == 0 ==> r == 0,
        sample_rate > 0 ==> r as int == ((sample_count * 1000 + sample_rate / 2) / (
        sample_rate as int)) % 0x1_0000_0000,
{
    if sample_rate == 0 {
        return 0;
    }
    let total = (sample_count as u64) * 1000 + (sample_rate as u64) / 2;
    let ms = total / (sample_rate as u64);
    (ms % 0x1_0000_0000) as u32
}

/// Samples in `duration_ms` milliseconds, rounded down.
pub fn ms_to_samples(duration_ms: u32, sample_rate: u32) -> (r: usize)
    requires
        (duration_ms as int) * (sample_rate as int) / 1000 <= usize::MAX,
    ensures
        r as int == (duration_ms as int) * (sample_rate as int) / 1000,
{
    proof {
        let a = duration_ms as int;
        let b = sample_rate as int;
        assert(a * b <= 0xffff_ffff * 0xffff_ffff) by (nonlinear_arith)
            requires
                0 <= a <= 0xffff_ffff,
                0 <= b <= 0xffff_ffff,
        ;
    }
    (((duration_ms as u64) * (sample_rate as u64)) / 1000) as usize
}

/// Ranges `(start, end)` of active samples, empty ones dropped, each merged
/// into the one before it when the gap between them is at most `maximum_gap`.
pub open spec fn merged_ranges(ranges: Seq<(usize, usize)>, maximum_gap: usize) -> Seq<(usize, usize)>
    decreases ranges.len(),
{
    if ranges.len() == 0 {
        seq![]
    } else {
        let prev = merged_ranges(ranges.drop_last(), maximum_gap);
        let r = ranges.last();
        if r.0 >= r.1 {
            prev
        } else if prev.len() > 0 && r.0 <= (if prev.last().1 + maximum_gap > usize::MAX {
            usize::MAX as int
        } else {
            prev.last().1 + maximum_gap
        }) {
            let last = prev.last();
            prev.update(
                prev.len() - 1,
                (
                    last.0,
                    if r.1 > last.1 {
                        r.1
                    } else {
                        last.1
                    },
                ),
            )
        } else {
            prev.push(r)
        }
    }
}

pub fn merge_short_reference_ranges(ranges: Vec<(usize, usize)>, maximum_gap: usize) -> (r: Vec<
    (usize, usize),
>)
    ensures
        r@ == merged_ranges(ranges@, maximum_gap),
{
    let mut merged: Vec<(usize, usize)> = Vec::new();
    let mut i: usize = 0;
    while i < ranges.len()
        invariant
            i <= ranges.len(),
            merged@ == merged_ranges(ranges@.take(i as int), maximum_gap),
        decreases ranges.len() - i,
    {
        let range = ranges[i];
        assert(ranges@.take(i + 1).drop_last() == ranges@.take(i as int));
        if range.0 < range.1 {
            let n = merged.len();
            if n > 0 && range.0 <= merged[n - 1].1.saturating_add(maximum_gap) {
                let last = merged[n - 1];
                let end = if range.1 > last.1 {
                    range.1
                } else {
                    last.1
                };
                merged.set(n - 1, (last.0, end));
            } else {
                merged.push(range);
            }
        }
        i = i + 1;
    }
    assert(ranges@.take(ranges.len() as int) == ranges@);
    merged
}

/// A transcription cache record, holding the texts under both the current
/// names and the legacy `en`/`pt` names.
pub struct TranscriptionCacheEntry {
    pub source_text: String,
    pub target_text: String,
    pub en: String,
    pub pt: String,
}

/// The first of two texts that is not blank, trimmed.
pub open spec fn first_filled(a: Seq<char>, b: Seq<char>) -> Option<Seq<char>> {
    if trim(a).len() > 0 {
        Some(trim(a))
    } else if trim(b).len() > 0 {
        Some(trim(b))
    } else {
        None
    }
}

pub fn first_non_empty(values: [String; 2]) -> (r: Option<String>)
    ensures
        match first_filled(values@[0]@, values@[1]@) {
            Some(t) => r is Some && r->0@ == t,
            None => r is None,
        },
{
    let first = trim_str(values[0].as_str());
    if !first.as_str().is_empty() {
        return Some(first);
    }
    let second = trim_str(values[1].as_str());
    if !second.as_str().is_empty() {
        return Some(second);
    }
    None
}

impl TranscriptionCacheEntry {
    pub fn from_texts(source_text: &str, target_text: &str) -> (r: Self)
        ensures
            r.source_text@ == source_text@,
            r.target_text@ == target_text@,
            r.en@ == source_text@,
            r.pt@ == target_text@,
    {
        TranscriptionCacheEntry {
            source_text: String::from_str(source_text),
            target_text: String::from_str(target_text),
            en: String::from_str(source_text),
            pt: String::from_str(target_text),
        }
    }

    /// The cached texts, current names first, legacy names as fallback;
    /// none when either side is blank under both names.
    pub fn into_cached(self) -> (r: Option<CachedTranscription>)
        ensures
            match (
                first_filled(self.source_text@, self.en@),
                first_filled(self.target_text@, self.pt@),
            ) {
                (Some(s), Some(t)) => r is Some && r->0.source_text@ == s && r->0.target_text@ == t,
                _ => r is None,
            },
    {
        let source = first_non_empty([self.source_text, self.en]);
        let source = match source {
            Some(s) => s,
            None => return None,
        };
        let target = match first_non_empty([self.target_text, self.pt]) {
            Some(t) => t,
            None => return None,
        };
        Some(CachedTranscription { source_text: source, target_text: target })
    }
}

proof fn lemma_piece_scan_nonempty(s: Seq<char>, sep: char)
    ensures
        forall|i: int|
            0 <= i < piece_scan(s, sep).0.len() ==> #[trigger] piece_scan(s, sep).0[i].len() > 0,
    decreases s.len(),
{
    if s.len() > 0 {
        lemma_piece_scan_nonempty(s.drop_last(), sep);
        let prev = piece_scan(s.drop_last(), sep);
        let now = piece_scan(s, sep);
        assert forall|i: int| 0 <= i < now.0.len() implies #[trigger] now.0[i].len() > 0 by {
            if i < prev.0.len() {
                assert(now.0[i] == prev.0[i]);
            }
        }
    }
}

proof fn lemma_drop_trailing_is_prefix(t: Seq<Seq<char>>)
    ensures
        drop_trailing_sequence(t).len() <= t.len(),
        drop_trailing_sequence(t) == t.take(drop_trailing_sequence(t).len() as int),
    decreases t.len(),
{
    if t.len() > 0 && is_sequence(t.last()) {
        lemma_drop_trailing_is_prefix(t.drop_last());
        let d = drop_trailing_sequence(t.drop_last());
        assert(t.drop_last().take(d.len() as int) =~= t.take(d.len() as int));
    } else {
        assert(t.take(t.len() as int) =~= t);
    }
}

proof fn lemma_first_sequence_from(t: Seq<Seq<char>>, i: int)
    requires
        0 <= i <= t.len(),
    ensures
        i <= first_sequence(t, i) <= t.len(),
    decreases t.len() - i,
{
    if i < t.len() {
        lemma_first_sequence_from(t, i + 1);
    }
}

proof fn lemma_join_nonempty(parts: Seq<Seq<char>>, sep: Seq<char>)
    requires
        parts.len() > 0,
        parts.last().len() > 0,
    ensures
        join(parts, sep).len() > 0,
{
}

/// Every file gets a family, so every dubbed line has a folder with a name.
pub proof fn law_family_is_never_empty(file_name: Seq<char>)
    ensures
        family_of(file_name).len() > 0,
{
    reveal_strlit("outros");
    let lowered = lowercase_text(
        strip_end_of(strip_start_of(family_stem(file_name), seq!['_']), seq!['_']),
    );
    assert(family_of(file_name) == family_from_lowered(lowered));
    let tokens = pieces(lowered, '_');
    let cut = match first_marker(tokens, 0) {
        Some(i) => i,
        None => first_sequence(tokens, 0),
    };
    let family = drop_trailing_sequence(tokens.take(cut));
    if tokens.len() > 0 && family.len() > 0 {
        lemma_piece_scan_nonempty(lowered, '_');
        assert(forall|i: int| 0 <= i < tokens.len() ==> #[trigger] tokens[i].len() > 0);
        lemma_first_positions(tokens, 0);
        lemma_first_sequence_from(tokens, 0);
        assert(0 <= cut <= tokens.len());
        lemma_drop_trailing_is_prefix(tokens.take(cut));
        let k = family.len() as int;
        assert(family.last() == tokens.take(cut)[k - 1]);
        assert(tokens.take(cut)[k - 1] == tokens[k - 1]);
        lemma_join_nonempty(family, seq!['_']);
    }
}

/// At sample rates of 2 kHz and more, a duration turned into samples and
/// back is the same duration.
pub proof fn law_duration_round_trip(duration_ms: u32, sample_rate: u32)
    requires
        sample_rate >= 2000,
    ensures
        ({
            let samples = (duration_ms as int) * (sample_rate as int) / 1000;
            ((samples * 1000 + (sample_rate as int) / 2) / (sample_rate as int)) % 0x1_0000_0000
                == duration_ms
        }),
{
    let ms = duration_ms as int;
    let rate = sample_rate as int;
    let p = ms * rate;
    let q = p / 1000;
    let r = p % 1000;
    vstd::arithmetic::div_mod::lemma_fundamental_div_mod(p, 1000);
    let h = rate / 2;
    let x = q * 1000 + h;
    assert(x == p - r + h) by (nonlinear_arith)
        requires
            p == 1000 * q + r,
            x == q * 1000 + h,
    ;
    assert(0 <= r < 1000);
    assert(h >= 1000);
    assert(h < rate);
    let rest = x - ms * rate;
    assert(0 <= rest < rate);
    vstd::arithmetic::div_mod::lemma_fundamental_div_mod_converse(x, rate, ms, rest);
    assert(x / rate == ms);
    assert(0 <= ms < 0x1_0000_0000);
    vstd::arithmetic::div_mod::lemma_small_mod(ms as nat, 0x1_0000_0000);
}

} // verus!
