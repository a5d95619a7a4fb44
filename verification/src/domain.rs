//! Shared vocabulary: languages, modes, statuses, quality classes, job
//! stages, and the plain records that travel between transcription,
//! translation and synthesis.
use vstd::prelude::*;
use crate::strings::{join, join_strings, views};
use crate::text::{strip_end_of, strip_end_of_len};
use crate::numbers::{decimal, push_decimal};
use crate::strings::{trim, trim_str};

verus! {

/// Longest audio, in seconds, that one OmniVoice request synthesizes.
pub const OMNIVOICE_MAX_SYNTHESIS_SECONDS_WHOLE: u32 = 30;

pub const MIN_SYNTHESIS_CHUNKS: u32 = 1;

pub const DEFAULT_MAX_SYNTHESIS_CHUNKS: u32 = 1;

pub const MAX_SYNTHESIS_CHUNKS: u32 = 20;

#[derive(Debug, Clone, Copy, PartialEq, Eq, Structural)]
pub enum LanguageCode {
    Auto,
    En,
    Pt,
    Fr,
    Sv,
}

#[derive(Debug, Clone, Copy, PartialEq, Eq, Structural)]
pub enum DubbingMode {
    Classico,
    Antisotaque,
}

#[derive(Debug, Clone, Copy, PartialEq, Eq, Structural)]
pub enum VoiceMode {
    Clone,
    Design,
    Auto,
}

#[derive(Debug, Clone, Copy, PartialEq, Eq, Structural)]
pub enum SpeechModelId {
    OmniVoice,
}

#[derive(Debug, Clone, Copy, PartialEq, Eq, Structural)]
pub enum AudioFileStatus {
    Pending,
    Dubbed,
    Approved,
    Rejected,
    Ignored,
    MissingSource,
    Failed,
}

#[derive(Debug, Clone, Copy, PartialEq, Eq, Structural)]
pub enum QualityClassification {
    Excelente,
    Boa,
    Aceitavel,
    Ruim,
    Critica,
}

#[derive(Debug, Clone, Copy, PartialEq, Eq, Structural)]
pub enum JobEventKind {
    Stage,
    Transcription,
    Progress,
    Log,
    FileComplete,
    Cancelled,
    Finished,
    Failed,
}

#[derive(Debug, Clone, Copy, PartialEq, Eq, Structural)]
pub enum JobStage {
    Queued,
    LoadingModels,
    PreparingFile,
    Transcribing,
    Transcribed,
    Translating,
    Translated,
    Synthesizing,
    WritingOutput,
    FileComplete,
    Cancelling,
    Cancelled,
    Finished,
    Failed,
}

impl Default for LanguageCode {
    fn default() -> (r: Self)
        ensures
            r == LanguageCode::Auto,
    {
        LanguageCode::Auto
    }
}

impl Default for DubbingMode {
    fn default() -> (r: Self)
        ensures
            r == DubbingMode::Classico,
    {
        DubbingMode::Classico
    }
}

impl Default for VoiceMode {
    fn default() -> (r: Self)
        ensures
            r == VoiceMode::Clone,
    {
        VoiceMode::Clone
    }
}

impl Default for SpeechModelId {
    fn default() -> (r: Self)
        ensures
            r == SpeechModelId::OmniVoice,
    {
        SpeechModelId::OmniVoice
    }
}

impl Default for AudioFileStatus {
    fn default() -> (r: Self)
        ensures
            r == AudioFileStatus::Pending,
    {
        AudioFileStatus::Pending
    }
}

/// The BCP 47 code of a language; automatic detection has none.
pub open spec fn bcp47(language: LanguageCode) -> Option<Seq<char>> {
    match language {
        LanguageCode::Auto => None,
        LanguageCode::En => Some("en"@),
        LanguageCode::Pt => Some("pt"@),
        LanguageCode::Fr => Some("fr"@),
        LanguageCode::Sv => Some("sv"@),
    }
}

pub open spec fn code_matches(r: Option<&str>, code: Option<Seq<char>>) -> bool {
    match code {
        Some(c) => r is Some && r->0@ == c,
        None => r is None,
    }
}

impl LanguageCode {
    pub fn as_bcp47(self) -> (r: Option<&'static str>)
        ensures
            code_matches(r, bcp47(self)),
    {
        match self {
            LanguageCode::Auto => None,
            LanguageCode::En => Some("en"),
            LanguageCode::Pt => Some("pt"),
            LanguageCode::Fr => Some("fr"),
            LanguageCode::Sv => Some("sv"),
        }
    }

    /// The code a translation service is asked for: the BCP 47 code.
    pub fn translation_code(self) -> (r: Option<&'static str>)
        ensures
            code_matches(r, bcp47(self)),
    {
        self.as_bcp47()
    }
}

/// The label a Brazilian user reads for a quality class.
pub open spec fn quality_label(c: QualityClassification) -> Seq<char> {
    match c {
        QualityClassification::Excelente => "Excelente"@,
        QualityClassification::Boa => "Boa"@,
        QualityClassification::Aceitavel => "Aceitável"@,
        QualityClassification::Ruim => "Ruim"@,
        QualityClassification::Critica => "Crítica"@,
    }
}

impl QualityClassification {
    pub fn label_pt_br(self) -> (r: &'static str)
        ensures
            r@ == quality_label(self),
    {
        match self {
            QualityClassification::Excelente => "Excelente",
            QualityClassification::Boa => "Boa",
            QualityClassification::Aceitavel => "Aceitável",
            QualityClassification::Ruim => "Ruim",
            QualityClassification::Critica => "Crítica",
        }
    }
}

/// The class of a quality score: 90 and up excellent, 75 good, 55
/// acceptable, 35 poor, below that critical.
pub open spec fn quality_class(score: u8) -> QualityClassification {
    if score >= 90 {
        QualityClassification::Excelente
    } else if score >= 75 {
        QualityClassification::Boa
    } else if score >= 55 {
        QualityClassification::Aceitavel
    } else if score >= 35 {
        QualityClassification::Ruim
    } else {
        QualityClassification::Critica
    }
}

pub fn quality_classification(score: u8) -> (r: QualityClassification)
    ensures
        r == quality_class(score),
{
    if score >= 90 {
        QualityClassification::Excelente
    } else if score >= 75 {
        QualityClassification::Boa
    } else if score >= 55 {
        QualityClassification::Aceitavel
    } else if score >= 35 {
        QualityClassification::Ruim
    } else {
        QualityClassification::Critica
    }
}

/// What the signal measurements of a clip found wrong with it.
pub struct QualityFindings {
    /// Peak amplitude at or below 0.0001.
    pub silent: bool,
    /// Peak amplitude above 0.985.
    pub near_clipping: bool,
    /// Zero-crossing rate above 0.45.
    pub high_zero_crossing: bool,
    /// RMS below 0.015.
    pub too_quiet: bool,
    /// RMS above 0.35.
    pub too_loud: bool,
}

/// 100 less the penalty of each finding (100 silent, 28 clipping, 18 noisy,
/// 18 quiet, 10 loud), not below zero.
pub open spec fn quality_points(f: QualityFindings) -> int {
    let penalty = (if f.silent {
        100int
    } else {
        0
    }) + (if f.near_clipping {
        28int
    } else {
        0
    }) + (if f.high_zero_crossing {
        18int
    } else {
        0
    }) + (if f.too_quiet {
        18int
    } else {
        0
    }) + (if f.too_loud {
        10int
    } else {
        0
    });
    if 100 - penalty < 0 {
        0
    } else {
        100 - penalty
    }
}

/// A clip is acceptable from score 55 on.
pub open spec fn is_acceptable_score(score: u8) -> bool {
    score >= 55
}

/// Whether a clip with this score is acceptable.
pub fn is_acceptable(score: u8) -> (r: bool)
    ensures
        r == is_acceptable_score(score),
{
    score >= 55
}

pub fn quality_score(findings: &QualityFindings) -> (score: u8)
    ensures
        score == quality_points(*findings),
        score <= 100,
{
    let mut score: i16 = 100;
    if findings.silent {
        score = score - 100;
    }
    if findings.near_clipping {
        score = score - 28;
    }
    if findings.high_zero_crossing {
        score = score - 18;
    }
    if findings.too_quiet {
        score = score - 18;
    }
    if findings.too_loud {
        score = score - 10;
    }
    if score < 0 {
        0
    } else {
        score as u8
    }
}

pub open spec fn when_found(found: bool, issue: Seq<char>) -> Seq<Seq<char>> {
    if found {
        seq![issue]
    } else {
        seq![]
    }
}

/// The issue texts of a quality report, in the order the findings are
/// listed; `zcr_text` is the zero-crossing rate written with two decimals.
pub open spec fn quality_issues(f: QualityFindings, zcr_text: Seq<char>) -> Seq<Seq<char>> {
    when_found(f.silent, "Audio praticamente mudo."@) + when_found(
        f.near_clipping,
        "Audio proximo de clipping."@,
    ) + when_found(f.high_zero_crossing, "ZCR alto demais ("@ + zcr_text + ")."@) + when_found(
        f.too_quiet,
        "Fala muito baixa ou com silêncio excessivo."@,
    ) + when_found(f.too_loud, "Volume médio alto; pode haver compressão ou distorção."@)
}

/// The issue texts for what the measurements found.
pub fn quality_issue_texts(findings: &QualityFindings, zcr_text: &str) -> (r: Vec<String>)
    ensures
        views(r@) == quality_issues(*findings, zcr_text@),
{
    proof {
        reveal_strlit("Audio praticamente mudo.");
        reveal_strlit("Audio proximo de clipping.");
        reveal_strlit("ZCR alto demais (");
        reveal_strlit(").");
        reveal_strlit("Fala muito baixa ou com silêncio excessivo.");
        reveal_strlit("Volume médio alto; pode haver compressão ou distorção.");
    }
    let mut r: Vec<String> = Vec::new();
    let ghost f = *findings;
    if findings.silent {
        r.push(String::from_str("Audio praticamente mudo."));
    }
    assert(views(r@) =~= when_found(f.silent, "Audio praticamente mudo."@));
    let ghost a = views(r@);
    if findings.near_clipping {
        r.push(String::from_str("Audio proximo de clipping."));
    }
    assert(views(r@) =~= a + when_found(f.near_clipping, "Audio proximo de clipping."@));
    let ghost b = views(r@);
    if findings.high_zero_crossing {
        let mut text = String::from_str("ZCR alto demais (");
        text.append(zcr_text);
        text.append(").");
        r.push(text);
    }
    assert(views(r@) =~= b + when_found(
        f.high_zero_crossing,
        "ZCR alto demais ("@ + zcr_text@ + ")."@,
    ));
    let ghost c = views(r@);
    if findings.too_quiet {
        r.push(String::from_str("Fala muito baixa ou com silêncio excessivo."));
    }
    assert(views(r@) =~= c + when_found(
        f.too_quiet,
        "Fala muito baixa ou com silêncio excessivo."@,
    ));
    let ghost d = views(r@);
    if findings.too_loud {
        r.push(String::from_str("Volume médio alto; pode haver compressão ou distorção."));
    }
    assert(views(r@) =~= d + when_found(
        f.too_loud,
        "Volume médio alto; pode haver compressão ou distorção."@,
    ));
    r
}

/// The issues without their final periods.
pub open spec fn issue_reasons(issues: Seq<Seq<char>>) -> Seq<Seq<char>> {
    issues.map_values(|i: Seq<char>| strip_end_of(i, seq!['.']))
}

/// The summary line of a quality report: the class label, then either the
/// clean verdict or the first two issues without their final periods.
pub open spec fn quality_summary_text(c: QualityClassification, issues: Seq<Seq<char>>) -> Seq<
    char,
> {
    if issues.len() == 0 {
        quality_label(c) + ": fala clara, pouco ruído e volume estável."@
    } else {
        quality_label(c) + ": "@ + join(
            issue_reasons(
                issues.take(
                    if issues.len() < 2 {
                        issues.len() as int
                    } else {
                        2
                    },
                ),
            ),
            "; "@,
        ) + "."@
    }
}

pub fn quality_summary(classification: QualityClassification, issues: &Vec<String>) -> (r: String)
    ensures
        r@ == quality_summary_text(classification, views(issues@)),
{
    let mut r = String::from_str(classification.label_pt_br());
    if issues.len() == 0 {
        r.append(": fala clara, pouco ruído e volume estável.");
        return r;
    }
    let count: usize = if issues.len() < 2 {
        issues.len()
    } else {
        2
    };
    let dot = vec!['.'];
    assert(dot@ == seq!['.']);
    let mut reasons: Vec<String> = Vec::new();
    let mut i: usize = 0;
    while i < count
        invariant
            i <= count <= issues.len(),
            dot@ == seq!['.'],
            views(reasons@) =~= issue_reasons(views(issues@).take(count as int)).take(i as int),
        decreases count - i,
    {
        let chars = crate::strings::chars_of(issues[i].as_str());
        let end = strip_end_of_len(&chars, 0, chars.len(), &dot);
        assert(chars@.subrange(0, chars@.len() as int) == chars@);
        let reason = crate::strings::string_from_range(&chars, 0, end);
        let ghost prev = reasons@;
        reasons.push(reason);
        assert(views(reasons@) =~= views(prev).push(reason@));
        i = i + 1;
    }
    assert(views(reasons@) =~= issue_reasons(views(issues@).take(count as int)));
    r.append(": ");
    let joined = join_strings(&reasons, "; ");
    r.append(joined.as_str());
    r.push('.');
    proof {
        reveal_strlit(".");
        assert("."@ =~= seq!['.']);
    }
    r
}

pub struct CachedTranscription {
    pub source_text: String,
    pub target_text: String,
}

pub struct TranscriptionResult {
    pub source_text: String,
    pub target_text: String,
    pub source_language: LanguageCode,
    pub target_language: LanguageCode,
}

pub struct VoiceProfile {
    pub id: String,
    pub instruct: String,
    pub reference_text: String,
}

pub struct TranslationRequest {
    pub text: String,
    pub source_language: LanguageCode,
    pub target_language: LanguageCode,
}

pub struct TranslationResult {
    pub translated_text: String,
    pub provider: String,
}

pub fn default_max_synthesis_chunks() -> (r: u32)
    ensures
        r == DEFAULT_MAX_SYNTHESIS_CHUNKS,
{
    DEFAULT_MAX_SYNTHESIS_CHUNKS
}

/// Loudness matching is off unless asked for.
pub fn default_match_source_loudness() -> (r: bool)
    ensures
        !r,
{
    false
}

/// `value` clamped to the allowed chunk counts.
pub fn clamp_synthesis_chunks(value: u32) -> (r: u32)
    ensures
        r == (if value < MIN_SYNTHESIS_CHUNKS {
            MIN_SYNTHESIS_CHUNKS
        } else if value > MAX_SYNTHESIS_CHUNKS {
            MAX_SYNTHESIS_CHUNKS
        } else {
            value
        }),
{
    if value < MIN_SYNTHESIS_CHUNKS {
        MIN_SYNTHESIS_CHUNKS
    } else if value > MAX_SYNTHESIS_CHUNKS {
        MAX_SYNTHESIS_CHUNKS
    } else {
        value
    }
}


pub open spec fn range_message(name: Seq<char>, minimum: u32, maximum: u32) -> Seq<char> {
    name + " deve ficar entre "@ + decimal(minimum as nat) + " e "@ + decimal(maximum as nat)
}

/// Accepts `value` when it lies between `minimum` and `maximum`, inclusive.
pub fn validate_integer_range(name: &str, value: u32, minimum: u32, maximum: u32) -> (r: Result<
    (),
    String,
>)
    ensures
        minimum <= value <= maximum ==> r is Ok,
        !(minimum <= value <= maximum) ==> (r matches Err(m) && m@ == range_message(
            name@,
            minimum,
            maximum,
        )),
{
    if value < minimum || value > maximum {
        let mut text = String::from_str(name);
        text.append(" deve ficar entre ");
        push_decimal(&mut text, minimum as u64);
        text.append(" e ");
        push_decimal(&mut text, maximum as u64);
        proof {
            reveal_strlit(" deve ficar entre ");
            reveal_strlit(" e ");
        }
        return Err(text);
    }
    Ok(())
}

/// A designed voice needs an instruction that is not blank.
pub fn validate_voice_instruction(voice_mode: VoiceMode, instruct: Option<&str>) -> (r: Result<
    (),
    String,
>)
    ensures
        (voice_mode == VoiceMode::Design && (instruct is None || trim(instruct->0@).len() == 0))
            ==> (r matches Err(m) && m@
            == "modo de voz por desenho requer instrução preenchida"@),
        !(voice_mode == VoiceMode::Design && (instruct is None || trim(instruct->0@).len() == 0))
            ==> r is Ok,
{
    if voice_mode == VoiceMode::Design {
        let blank = match instruct {
            Some(text) => trim_str(text).as_str().is_empty(),
            None => true,
        };
        if blank {
            return Err(String::from_str("modo de voz por desenho requer instrução preenchida"));
        }
    }
    Ok(())
}

/// A clip found silent scores 0, whatever else was found: it is critical and
/// never acceptable.
pub proof fn law_silent_clip_scores_zero(f: QualityFindings)
    requires
        f.silent,
    ensures
        quality_points(f) == 0,
        quality_class(quality_points(f) as u8) == QualityClassification::Critica,
        !is_acceptable_score(quality_points(f) as u8),
{
}

/// A clip with nothing found scores 100; any finding lowers the score, and
/// finding more never raises it.
pub proof fn law_findings_only_lower_the_score(f: QualityFindings, g: QualityFindings)
    requires
        f.silent ==> g.silent,
        f.near_clipping ==> g.near_clipping,
        f.high_zero_crossing ==> g.high_zero_crossing,
        f.too_quiet ==> g.too_quiet,
        f.too_loud ==> g.too_loud,
    ensures
        quality_points(g) <= quality_points(f),
        (!f.silent && !f.near_clipping && !f.high_zero_crossing && !f.too_quiet && !f.too_loud)
            <==> quality_points(f) == 100,
        0 <= quality_points(f) <= 100,
{
}

} // verus!
