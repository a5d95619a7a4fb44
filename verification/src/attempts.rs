//! The guarded synthesis of a line: the texts sent on each retry, the
//! reference text for a cloned voice, where attempts are written, and the
//! decisions between attempts.
use vstd::prelude::*;
use crate::strings::{chars_of, is_space, is_whitespace_char, trim, trim_str, views};
use crate::domain::VoiceMode;
use crate::numbers::{decimal, push_decimal};
use crate::paths::{path_file_stem, path_stem};
use crate::error::AppError;
use crate::strings::{trim_end, trim_end_len, string_from_range};
use crate::text::{comma_question, palatalized, synchronized_punctuation, comma_before_question, palatalize_ptbr, synchronize_punctuation};
use crate::tags::{first_unsupported, text_tags, unsupported_tag_error, validate_text_native_tags};

verus! {

/// Most attempts made at one line before giving up.
pub const V14_SYNTHESIS_ATTEMPTS: usize = 6;

/// The text sent on attempt `attempt_index` (counted from 0): the trimmed
/// line, with a short final pause written after it on retries.
pub open spec fn breath_text(text: Seq<char>, attempt_index: nat) -> Seq<char> {
    let trimmed = trim(text);
    if trimmed.len() == 0 || attempt_index == 0 {
        trimmed
    } else if attempt_index == 1 {
        trimmed + " ."@
    } else if attempt_index == 2 {
        trimmed + " ..."@
    } else {
        trimmed + " . ."@
    }
}

pub fn synthesis_text_with_final_breath(text: &str, attempt_index: usize) -> (r: String)
    ensures
        r@ == breath_text(text@, attempt_index as nat),
{
    let mut out = trim_str(text);
    if out.as_str().is_empty() || attempt_index == 0 {
        return out;
    }
    if attempt_index == 1 {
        out.append(" .");
        proof {
            reveal_strlit(" .");
        }
    } else if attempt_index == 2 {
        out.append(" ...");
        proof {
            reveal_strlit(" ...");
        }
    } else {
        out.append(" . .");
        proof {
            reveal_strlit(" . .");
        }
    }
    out
}

/// Index of the last line whose text is not blank.
pub open spec fn last_spoken(lines: Seq<Seq<char>>) -> Option<int>
    decreases lines.len(),
{
    if lines.len() == 0 {
        None
    } else if trim(lines.last()).len() > 0 {
        Some(lines.len() - 1)
    } else {
        last_spoken(lines.drop_last())
    }
}

pub open spec fn breath_lines(lines: Seq<Seq<char>>, attempt_index: nat) -> Seq<Seq<char>> {
    if attempt_index == 0 {
        lines
    } else {
        match last_spoken(lines) {
            Some(k) => lines.update(k, breath_text(lines[k], attempt_index)),
            None => lines,
        }
    }
}

pub proof fn lemma_last_spoken(lines: Seq<Seq<char>>)
    ensures
        last_spoken(lines) matches Some(k) ==> 0 <= k < lines.len(),
    decreases lines.len(),
{
    if lines.len() > 0 {
        lemma_last_spoken(lines.drop_last());
    }
}

/// The texts of the per-line settings for attempt `attempt_index`: on retries
/// the last line that says something gets the final pause, the others stay.
pub fn line_overrides_with_final_breath(line_texts: &Vec<String>, attempt_index: usize) -> (r: Vec<
    String,
>)
    ensures
        views(r@) == breath_lines(views(line_texts@), attempt_index as nat),
{
    let ghost lv = views(line_texts@);
    let mut next: Vec<String> = Vec::new();
    let mut i: usize = 0;
    while i < line_texts.len()
        invariant
            i <= line_texts.len(),
            lv == views(line_texts@),
            views(next@) == lv.take(i as int),
        decreases line_texts.len() - i,
    {
        let ghost before = next@;
        let item = line_texts[i].clone();
        next.push(item);
        assert(views(next@) =~= views(before).push(line_texts@[i as int]@));
        i = i + 1;
        assert(lv.take(i as int) =~= lv.take(i - 1).push(lv[i - 1]));
    }
    assert(lv.take(line_texts.len() as int) == lv);
    if attempt_index == 0 {
        return next;
    }
    let mut k: usize = line_texts.len();
    while k > 0 && trim_str(line_texts[k - 1].as_str()).as_str().is_empty()
        invariant
            k <= line_texts.len(),
            lv == views(line_texts@),
            last_spoken(lv) == last_spoken(lv.take(k as int)),
        decreases k,
    {
        assert(lv.take(k as int).last() == lv[k - 1]);
        assert(lv.take(k as int).drop_last() == lv.take(k - 1));
        k = k - 1;
    }
    if k == 0 {
        assert(lv.take(0) =~= Seq::<Seq<char>>::empty());
        return next;
    }
    assert(lv.take(k as int).last() == lv[k - 1]);
    let replaced = synthesis_text_with_final_breath(line_texts[k - 1].as_str(), attempt_index);
    let ghost before = next@;
    next.set(k - 1, replaced);
    assert(views(next@) =~= views(before).update(k - 1, breath_text(lv[k - 1], attempt_index as nat)));
    next
}

/// A cloned voice is used when the line has no per-line settings and the
/// global mode clones, or when any per-line setting clones.
pub open spec fn uses_clone(global_mode: VoiceMode, line_modes: Seq<VoiceMode>) -> bool {
    if line_modes.len() == 0 {
        global_mode == VoiceMode::Clone
    } else {
        exists|k: int| 0 <= k < line_modes.len() && line_modes[k] == VoiceMode::Clone
    }
}

pub fn v14_synthesis_uses_clone(global_mode: VoiceMode, line_modes: &Vec<VoiceMode>) -> (r: bool)
    ensures
        r == uses_clone(global_mode, line_modes@),
{
    if line_modes.len() == 0 {
        return global_mode == VoiceMode::Clone;
    }
    let mut i: usize = 0;
    while i < line_modes.len()
        invariant
            i <= line_modes.len(),
            forall|k: int| 0 <= k < i ==> line_modes@[k] != VoiceMode::Clone,
        decreases line_modes.len() - i,
    {
        if line_modes[i] == VoiceMode::Clone {
            return true;
        }
        i = i + 1;
    }
    false
}

/// What `char::is_alphanumeric` says of `c`.
pub uninterp spec fn alphanumeric(c: char) -> bool;

/// Calls `char::is_alphanumeric`. Claimed: the answer depends on the
/// character alone and is named `alphanumeric` of it.
#[verifier::external_body]
fn is_alphanumeric_char(c: char) -> (r: bool)
    ensures
        r == alphanumeric(c),
{
    c.is_alphanumeric()
}

/// Letters and digits (as `alphanumeric` marks them, one flag per
/// character) kept, every run of whitespace written as one space, everything
/// else dropped; the flag says whether the output ends a word.
pub open spec fn reference_scan(s: Seq<char>, alphanumeric: Seq<bool>) -> (Seq<char>, bool)
    decreases s.len(),
{
    if s.len() == 0 || alphanumeric.len() < s.len() {
        (seq![], true)
    } else {
        let prev = reference_scan(s.drop_last(), alphanumeric.take(s.len() - 1));
        let c = s.last();
        if is_space(c) {
            if !prev.1 {
                (prev.0.push(' '), true)
            } else {
                prev
            }
        } else if alphanumeric[s.len() - 1] {
            (prev.0.push(c), false)
        } else {
            prev
        }
    }
}

pub open spec fn alphanumeric_flags(s: Seq<char>) -> Seq<bool> {
    s.map_values(|c: char| alphanumeric(c))
}

pub open spec fn cleaned_reference(s: Seq<char>) -> Seq<char> {
    trim(reference_scan(s, alphanumeric_flags(s)).0)
}

/// The text a cloned voice is told its reference audio says: words of
/// letters and digits separated by single spaces.
pub fn clean_reference_text(text: &str) -> (r: String)
    ensures
        r@ == cleaned_reference(text@),
{
    let chars = chars_of(text);
    let mut flags: Vec<bool> = Vec::new();
    let mut i: usize = 0;
    while i < chars.len()
        invariant
            i <= chars.len(),
            chars@ == text@,
            flags@ == alphanumeric_flags(chars@.take(i as int)),
        decreases chars.len() - i,
    {
        let flag = is_alphanumeric_char(chars[i]);
        flags.push(flag);
        i = i + 1;
        assert(flags@ =~= alphanumeric_flags(chars@.take(i as int)));
    }
    assert(chars@.take(chars.len() as int) == chars@);
    clean_reference_text_with(text, &flags)
}

/// `clean_reference_text`, given for each character whether it is a letter
/// or a digit.
pub fn clean_reference_text_with(text: &str, alphanumeric: &Vec<bool>) -> (r: String)
    requires
        alphanumeric.len() == text@.len(),
    ensures
        r@ == trim(reference_scan(text@, alphanumeric@).0),
{
    let chars = chars_of(text);
    let mut cleaned = String::new();
    let mut previous_space = true;
    let mut i: usize = 0;
    while i < chars.len()
        invariant
            i <= chars.len(),
            chars@ == text@,
            alphanumeric.len() == chars.len(),
            (cleaned@, previous_space) == reference_scan(
                chars@.take(i as int),
                alphanumeric@.take(i as int),
            ),
        decreases chars.len() - i,
    {
        let c = chars[i];
        assert(chars@.take(i + 1).drop_last() == chars@.take(i as int));
        assert(alphanumeric@.take(i + 1).take(i as int) == alphanumeric@.take(i as int));
        if is_whitespace_char(c) {
            if !previous_space {
                cleaned.push(' ');
                previous_space = true;
            }
        } else if alphanumeric[i] {
            cleaned.push(c);
            previous_space = false;
        }
        i = i + 1;
    }
    assert(chars@.take(chars.len() as int) == chars@);
    assert(alphanumeric@.take(chars.len() as int) == alphanumeric@);
    trim_str(cleaned.as_str())
}

/// What came of the outside work that reads a cloned voice's reference
/// audio.
pub enum ReferenceHearing {
    /// Writing the short reference clip, or transcribing it, failed.
    Failed(AppError),
    /// The job was cancelled while the clip was being transcribed.
    Cancelled,
    /// What the transcription of the clip heard.
    Heard(String),
}

pub open spec fn unheard_reference_message() -> Seq<char> {
    "Whisper nao obteve texto para a referencia curta v14"@
}

/// The reference text given to a cloned voice: what was heard, cleaned; the
/// source line, cleaned, when nothing usable was heard or hearing failed;
/// nothing after a cancellation. A failure with no usable source line is
/// passed on.
pub fn v14_reference_text(hearing: ReferenceHearing, source_text: &str) -> (r: Result<
    Option<String>,
    AppError,
>)
    ensures
        match hearing {
            ReferenceHearing::Cancelled => r matches Ok(None),
            ReferenceHearing::Failed(e) => if cleaned_reference(source_text@).len() == 0 {
                r == Err::<Option<String>, AppError>(e)
            } else {
                r matches Ok(Some(t)) && t@ == cleaned_reference(source_text@)
            },
            ReferenceHearing::Heard(h) => if cleaned_reference(h@).len() > 0 {
                r matches Ok(Some(t)) && t@ == cleaned_reference(h@)
            } else if cleaned_reference(source_text@).len() > 0 {
                r matches Ok(Some(t)) && t@ == cleaned_reference(source_text@)
            } else {
                r matches Err(AppError::SpeechEngineUnavailable(m)) && m@
                    == unheard_reference_message()
            },
        },
        r matches Ok(Some(t)) ==> t@.len() > 0,
{
    match hearing {
        ReferenceHearing::Cancelled => Ok(None),
        ReferenceHearing::Failed(error) => {
            let fallback = clean_reference_text(source_text);
            if fallback.as_str().is_empty() {
                Err(error)
            } else {
                Ok(Some(fallback))
            }
        },
        ReferenceHearing::Heard(heard) => {
            let cleaned = clean_reference_text(heard.as_str());
            if !cleaned.as_str().is_empty() {
                return Ok(Some(cleaned));
            }
            let fallback = clean_reference_text(source_text);
            if fallback.as_str().is_empty() {
                proof {
                    reveal_strlit("Whisper nao obteve texto para a referencia curta v14");
                }
                Err(
                    AppError::SpeechEngineUnavailable(
                        String::from_str("Whisper nao obteve texto para a referencia curta v14"),
                    ),
                )
            } else {
                Ok(Some(fallback))
            }
        },
    }
}

/// The stem used for files next to an output: the output's file stem, or
/// `dub` when it has none (the path ends in a root, `.` or `..`) or an
/// empty one.
pub open spec fn output_stem(output_path: Seq<Seq<char>>) -> Seq<char> {
    if output_path.len() == 0 {
        "dub"@
    } else {
        match path_stem(output_path.last()) {
            Some(stem) => if stem.len() == 0 {
                "dub"@
            } else {
                stem
            },
            None => "dub"@,
        }
    }
}

/// `{stem}.{job}.attempt-{n}.wav`, beside the output.
pub open spec fn attempt_path(output_path: Seq<Seq<char>>, job_id: Seq<char>, attempt_number: nat) -> Seq<Seq<char>> {
    let name = output_stem(output_path) + "."@ + job_id + ".attempt-"@ + decimal(attempt_number)
        + ".wav"@;
    if output_path.len() == 0 {
        seq![name]
    } else {
        output_path.drop_last().push(name)
    }
}

/// `{stem}.{job}.reference.wav`, beside the output.
pub open spec fn reference_path(output_path: Seq<Seq<char>>, job_id: Seq<char>) -> Seq<Seq<char>> {
    let name = output_stem(output_path) + "."@ + job_id + ".reference.wav"@;
    if output_path.len() == 0 {
        seq![name]
    } else {
        output_path.drop_last().push(name)
    }
}

fn stem_for(output_path: &Vec<String>) -> (r: String)
    ensures
        r@ == output_stem(views(output_path@)),
{
    proof {
        reveal_strlit("dub");
    }
    if output_path.len() == 0 {
        return String::from_str("dub");
    }
    match path_file_stem(output_path[output_path.len() - 1].as_str()) {
        Some(stem) => if stem.as_str().is_empty() {
            String::from_str("dub")
        } else {
            stem
        },
        None => String::from_str("dub"),
    }
}

fn beside(output_path: &Vec<String>, name: String) -> (r: Vec<String>)
    ensures
        views(r@) == (if output_path.len() == 0 {
            seq![name@]
        } else {
            views(output_path@).drop_last().push(name@)
        }),
{
    let mut r: Vec<String> = Vec::new();
    let mut i: usize = 0;
    let keep: usize = if output_path.len() == 0 {
        0
    } else {
        output_path.len() - 1
    };
    while i < keep
        invariant
            i <= keep,
            keep <= output_path.len(),
            views(r@) == views(output_path@).take(i as int),
        decreases keep - i,
    {
        let ghost before = r@;
        let item = output_path[i].clone();
        r.push(item);
        assert(views(r@) =~= views(before).push(output_path@[i as int]@));
        assert(views(output_path@).take(i + 1) =~= views(output_path@).take(i as int).push(
            output_path@[i as int]@,
        ));
        i = i + 1;
    }
    let ghost before = r@;
    r.push(name);
    assert(views(r@) =~= views(before).push(name@));
    if output_path.len() > 0 {
        assert(views(output_path@).drop_last() =~= views(output_path@).take(keep as int));
    }
    r
}

/// Where attempt `attempt_number` of a job writes its audio.
pub fn synthesis_attempt_path(output_path: &Vec<String>, job_id: &str, attempt_number: usize) -> (r:
    Vec<String>)
    ensures
        views(r@) == attempt_path(views(output_path@), job_id@, attempt_number as nat),
{
    let mut name = stem_for(output_path);
    name.push('.');
    name.append(job_id);
    name.append(".attempt-");
    push_decimal(&mut name, attempt_number as u64);
    name.append(".wav");
    proof {
        reveal_strlit(".attempt-");
        reveal_strlit(".wav");
        reveal_strlit(".");
        assert(name@ =~= output_stem(views(output_path@)) + "."@ + job_id@ + ".attempt-"@
            + decimal(attempt_number as nat) + ".wav"@);
    }
    beside(output_path, name)
}

/// Where the short reference clip of a job is written.
pub fn synthesis_reference_path(output_path: &Vec<String>, job_id: &str) -> (r: Vec<String>)
    ensures
        views(r@) == reference_path(views(output_path@), job_id@),
{
    let mut name = stem_for(output_path);
    name.push('.');
    name.append(job_id);
    name.append(".reference.wav");
    proof {
        reveal_strlit(".reference.wav");
        reveal_strlit(".");
        assert(name@ =~= output_stem(views(output_path@)) + "."@ + job_id@ + ".reference.wav"@);
    }
    beside(output_path, name)
}


/// What is learnt between two decisions of the guard.
pub enum V14Event {
    /// The job was cancelled.
    Cancelled,
    /// Synthesis of the attempt failed with this message.
    SynthesisFailed(String),
    /// The attempt was synthesized but its check rejected it with this message.
    AttemptRejected(String),
    /// The attempt was synthesized and its check accepted it.
    AttemptAccepted,
}

/// What the guard asks for next.
pub enum V14Action {
    /// Synthesize and check the attempt with this index (counted from 0).
    Synthesize(usize),
    /// Keep the accepted attempt as the output.
    Finish,
    /// Stop without an output.
    Abort,
    /// Give up on the line with this error.
    Fail(AppError),
}

/// The retry state of the guarded synthesis of one line.
pub struct V14Guard {
    pub attempt_index: usize,
    pub last_failure: String,
}

/// The attempt that follows `index` after an event, if there is one.
pub open spec fn guard_next(index: nat, event: V14Event) -> Option<nat> {
    match event {
        V14Event::SynthesisFailed(_) | V14Event::AttemptRejected(_) => if index + 1
            < V14_SYNTHESIS_ATTEMPTS {
            Some(index + 1)
        } else {
            None
        },
        _ => None,
    }
}

pub open spec fn failure_message(last_failure: Seq<char>) -> Seq<char> {
    "Sintese v14 reprovada apos "@ + decimal(V14_SYNTHESIS_ATTEMPTS as nat) + " tentativas: "@
        + last_failure
}

impl V14Guard {
    pub open spec fn wf(&self) -> bool {
        self.attempt_index < V14_SYNTHESIS_ATTEMPTS
    }

    /// The guard before the first attempt, and its first request.
    pub fn start() -> (r: (V14Guard, V14Action))
        ensures
            r.0.wf(),
            r.0.attempt_index == 0,
            r.0.last_failure@ == Seq::<char>::empty(),
            r.1 == V14Action::Synthesize(0),
    {
        (V14Guard { attempt_index: 0, last_failure: String::new() }, V14Action::Synthesize(0))
    }

    /// Decides what follows an event: a cancellation aborts, an accepted
    /// attempt finishes, a failed or rejected one is retried until six
    /// attempts were made, after which the line fails with the last message.
    pub fn step(&mut self, event: V14Event) -> (action: V14Action)
        requires
            old(self).wf(),
        ensures
            match guard_next(old(self).attempt_index as nat, event) {
                Some(n) => final(self).wf() && final(self).attempt_index == n && action
                    == V14Action::Synthesize(n as usize),
                None => final(self).attempt_index == old(self).attempt_index,
            },
            match event {
                V14Event::Cancelled => action is Abort && final(self).last_failure
                    == old(self).last_failure,
                V14Event::AttemptAccepted => action is Finish && final(self).last_failure
                    == old(self).last_failure,
                V14Event::SynthesisFailed(m) | V14Event::AttemptRejected(m) => {
                    &&& final(self).last_failure@ == m@
                    &&& old(self).attempt_index + 1 >= V14_SYNTHESIS_ATTEMPTS ==> (action matches V14Action::Fail(AppError::Internal(text)) && text@ == failure_message(m@))
                },
            },
    {
        match event {
            V14Event::Cancelled => V14Action::Abort,
            V14Event::AttemptAccepted => V14Action::Finish,
            V14Event::SynthesisFailed(message) | V14Event::AttemptRejected(message) => {
                let mut text = String::from_str("Sintese v14 reprovada apos ");
                push_decimal(&mut text, V14_SYNTHESIS_ATTEMPTS as u64);
                text.append(" tentativas: ");
                text.append(message.as_str());
                proof {
                    reveal_strlit("Sintese v14 reprovada apos ");
                    reveal_strlit(" tentativas: ");
                }
                self.last_failure = message;
                if self.attempt_index + 1 < V14_SYNTHESIS_ATTEMPTS {
                    self.attempt_index = self.attempt_index + 1;
                    V14Action::Synthesize(self.attempt_index)
                } else {
                    V14Action::Fail(AppError::Internal(text))
                }
            },
        }
    }
}

/// How many further attempts the guard asks for, from attempt `index` on,
/// while it is fed `events`.
pub open spec fn requests_in_run(index: nat, events: Seq<V14Event>) -> nat
    decreases events.len(),
{
    if events.len() == 0 {
        0
    } else {
        match guard_next(index, events[0]) {
            Some(n) => 1 + requests_in_run(n, events.drop_first()),
            None => 0,
        }
    }
}

/// Whatever happens, a line gets at most six attempts: the first one, and at
/// most five retries after it.
pub proof fn law_attempts_are_bounded(index: nat, events: Seq<V14Event>)
    requires
        index < V14_SYNTHESIS_ATTEMPTS,
    ensures
        index + requests_in_run(index, events) < V14_SYNTHESIS_ATTEMPTS,
    decreases events.len(),
{
    if events.len() > 0 {
        match guard_next(index, events[0]) {
            Some(n) => law_attempts_are_bounded(n, events.drop_first()),
            None => {},
        }
    }
}

/// The three text switches of the dubbing options.
pub struct TextOptions {
    pub comma_before_question: bool,
    pub palatalize: bool,
    pub trailing_period: bool,
}

pub open spec fn optioned_text(text: Seq<char>, options: TextOptions) -> Seq<char> {
    let t1 = if options.comma_before_question {
        comma_question(text)
    } else {
        text
    };
    let t2 = if options.palatalize {
        palatalized(t1)
    } else {
        t1
    };
    if options.trailing_period {
        trim_end(t2) + " ."@
    } else {
        t2
    }
}

pub open spec fn finished_text(target: Seq<char>, source: Seq<char>, options: TextOptions) -> Seq<char> {
    synchronized_punctuation(optioned_text(target, options), source)
}

/// The target line as it will be spoken: the chosen text switches applied,
/// the final mark taken from the source line, and its tags checked.
pub fn apply_text_options(target_text: String, source_text: String, options: &TextOptions) -> (r:
    Result<String, AppError>)
    ensures
        match first_unsupported(text_tags(finished_text(target_text@, source_text@, *options))) {
            Some(tag) => unsupported_tag_error(r, tag),
            None => r matches Ok(t) && t@ == finished_text(target_text@, source_text@, *options),
        },
{
    let mut text = target_text;
    if options.comma_before_question {
        text = comma_before_question(text.as_str());
    }
    if options.palatalize {
        text = palatalize_ptbr(text.as_str());
    }
    if options.trailing_period {
        let chars = chars_of(text.as_str());
        let k = trim_end_len(&chars);
        let mut trimmed = string_from_range(&chars, 0, k);
        trimmed.append(" .");
        proof {
            reveal_strlit(" .");
        }
        text = trimmed;
    }
    let finished = synchronize_punctuation(text.as_str(), source_text.as_str());
    match validate_text_native_tags(finished.as_str()) {
        Ok(()) => Ok(finished),
        Err(e) => Err(e),
    }
}

/// The first attempt speaks the line as written (trimmed); a retry only
/// writes a short pause after it.
pub proof fn law_retries_only_append_a_pause(text: Seq<char>, attempt_index: nat)
    ensures
        breath_text(text, 0) == trim(text),
        trim(text).is_prefix_of(breath_text(text, attempt_index)),
        breath_text(text, attempt_index).len() <= trim(text).len() + 4,
{
    reveal_strlit(" .");
    reveal_strlit(" ...");
    reveal_strlit(" . .");
    let t = trim(text);
    let b = breath_text(text, attempt_index);
    assert(b.take(t.len() as int) =~= t);
}

} // verus!
