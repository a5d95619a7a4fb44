//! What the speech engines share: synthesis progress, the stock Brazilian
//! Portuguese voices, and what a voice mode asks of a generation.
use vstd::prelude::*;
use crate::domain::{VoiceMode, VoiceProfile};
use crate::error::AppError;
use crate::segments::{non_blank, non_empty_str};
use crate::numbers::{decimal, push_decimal};

verus! {

/// How far a synthesis is: segments done out of segments planned.
#[derive(Debug, Clone, Copy, PartialEq, Eq, Structural)]
pub struct SynthesisProgress {
    pub completed_segments: usize,
    pub total_segments: usize,
}

impl SynthesisProgress {
    /// A progress report; a synthesis always plans at least one segment.
    pub fn new(completed_segments: usize, total_segments: usize) -> (r: Self)
        ensures
            r.completed_segments == completed_segments,
            r.total_segments == (if total_segments == 0 {
                1
            } else {
                total_segments
            }),
    {
        SynthesisProgress {
            completed_segments,
            total_segments: if total_segments == 0 {
                1
            } else {
                total_segments
            },
        }
    }
}

pub open spec fn progress_message(completed: nat, total: nat) -> Seq<char> {
    let total = if total == 0 {
        1
    } else {
        total
    };
    let completed = if completed > total {
        total
    } else {
        completed
    };
    if completed == 0 && total == 1 {
        "Sintese GPU v14: request unico preparado."@
    } else if completed == 0 {
        "Sintese GPU v14: "@ + decimal(total) + " requests preparados."@
    } else if total == 1 {
        "Sintese GPU v14: request unico concluido."@
    } else {
        "Sintese GPU v14: request "@ + decimal(completed) + " de "@ + decimal(total)
            + " concluido."@
    }
}

/// The stage message shown for a synthesis progress report.
pub fn synthesis_progress_message(progress: SynthesisProgress) -> (r: String)
    ensures
        r@ == progress_message(progress.completed_segments as nat, progress.total_segments as nat),
{
    let total: usize = if progress.total_segments == 0 {
        1
    } else {
        progress.total_segments
    };
    let completed: usize = if progress.completed_segments > total {
        total
    } else {
        progress.completed_segments
    };
    proof {
        reveal_strlit("Sintese GPU v14: request unico preparado.");
        reveal_strlit("Sintese GPU v14: ");
        reveal_strlit(" requests preparados.");
        reveal_strlit("Sintese GPU v14: request unico concluido.");
        reveal_strlit("Sintese GPU v14: request ");
        reveal_strlit(" de ");
        reveal_strlit(" concluido.");
    }
    if completed == 0 && total == 1 {
        String::from_str("Sintese GPU v14: request unico preparado.")
    } else if completed == 0 {
        let mut text = String::from_str("Sintese GPU v14: ");
        push_decimal(&mut text, total as u64);
        text.append(" requests preparados.");
        text
    } else if total == 1 {
        String::from_str("Sintese GPU v14: request unico concluido.")
    } else {
        let mut text = String::from_str("Sintese GPU v14: request ");
        push_decimal(&mut text, completed as u64);
        text.append(" de ");
        push_decimal(&mut text, total as u64);
        text.append(" concluido.");
        text
    }
}

pub open spec fn profile_view(p: VoiceProfile) -> (Seq<char>, Seq<char>, Seq<char>) {
    (p.id@, p.instruct@, p.reference_text@)
}

pub open spec fn stock_profiles() -> Seq<(Seq<char>, Seq<char>, Seq<char>)> {
    seq![
        ("male_adult"@, "male, young adult, moderate pitch"@,
            "Ola, estou pronto para falar com voce hoje."@),
        ("female_adult"@, "female, young adult, moderate pitch"@,
            "Ola, estou pronta para falar com voce."@),
        ("male_old"@, "male, elderly, low pitch"@, "Ha muitos anos aprendi sobre essas coisas."@),
        ("female_old"@, "female, elderly, moderate pitch"@,
            "Ha muito tempo aprendi que a paciencia e uma virtude."@),
        ("male_child"@, "male, child, high pitch"@, "Ei, vamos brincar juntos hoje!"@),
        ("female_child"@, "female, child, high pitch"@, "Que dia lindo para uma aventura nova!"@),
    ]
}

fn profile(id: &str, instruct: &str, reference_text: &str) -> (p: VoiceProfile)
    ensures
        profile_view(p) == (id@, instruct@, reference_text@),
{
    VoiceProfile {
        id: String::from_str(id),
        instruct: String::from_str(instruct),
        reference_text: String::from_str(reference_text),
    }
}

/// The six stock voices: adult, elderly and child, male and female.
pub fn ptbr_voice_profiles() -> (r: Vec<VoiceProfile>)
    ensures
        r@.map_values(|p: VoiceProfile| profile_view(p)) == stock_profiles(),
{
    let mut r: Vec<VoiceProfile> = Vec::new();
    r.push(profile("male_adult", "male, young adult, moderate pitch",
        "Ola, estou pronto para falar com voce hoje."));
    r.push(profile("female_adult", "female, young adult, moderate pitch",
        "Ola, estou pronta para falar com voce."));
    r.push(profile("male_old", "male, elderly, low pitch",
        "Ha muitos anos aprendi sobre essas coisas."));
    r.push(profile("female_old", "female, elderly, moderate pitch",
        "Ha muito tempo aprendi que a paciencia e uma virtude."));
    r.push(profile("male_child", "male, child, high pitch", "Ei, vamos brincar juntos hoje!"));
    r.push(profile("female_child", "female, child, high pitch",
        "Que dia lindo para uma aventura nova!"));
    assert(r@.map_values(|p: VoiceProfile| profile_view(p)) =~= stock_profiles());
    r
}

/// The instruction sent with a generation: the trimmed instruction of a
/// designed voice, when it is not blank; nothing for other voices.
pub fn design_instruct(voice_mode: VoiceMode, instruct: Option<&str>) -> (r: Option<String>)
    ensures
        voice_mode != VoiceMode::Design ==> r is None,
        voice_mode == VoiceMode::Design ==> match instruct {
            None => r is None,
            Some(text) => match non_blank(text@) {
                Some(t) => r matches Some(x) && x@ == t,
                None => r is None,
            },
        },
{
    if voice_mode != VoiceMode::Design {
        return None;
    }
    match instruct {
        None => None,
        Some(text) => match non_empty_str(text) {
            Some(t) => Some(String::from_str(t)),
            None => None,
        },
    }
}

pub open spec fn missing_clone_prompt_message() -> Seq<char> {
    "instrução de voz clonada indisponível"@
}

/// The clone prompt a generation uses: none unless the voice is cloned, and
/// then the prepared prompt, which must exist.
pub fn voice_clone_prompt_for<'a, T>(voice_mode: VoiceMode, prompt: Option<&'a T>) -> (r: Result<
    Option<&'a T>,
    AppError,
>)
    ensures
        voice_mode != VoiceMode::Clone ==> r matches Ok(None),
        voice_mode == VoiceMode::Clone ==> match prompt {
            Some(p) => r matches Ok(Some(q)) && q == p,
            None => r matches Err(AppError::SpeechEngineUnavailable(m)) && m@
                == missing_clone_prompt_message(),
        },
{
    if voice_mode != VoiceMode::Clone {
        return Ok(None);
    }
    match prompt {
        Some(p) => Ok(Some(p)),
        None => {
            proof {
                reveal_strlit("instrução de voz clonada indisponível");
            }
            Err(
                AppError::SpeechEngineUnavailable(
                    String::from_str("instrução de voz clonada indisponível"),
                ),
            )
        },
    }
}

} // verus!
