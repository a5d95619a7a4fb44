//! What a dubbing job decides before the outside work on its files: that
//! there is audio to work on, and whether a text the user typed stands in
//! for a transcription or a translation.
use vstd::prelude::*;
use crate::error::AppError;
use crate::strings::{trim, trim_str};

verus! {

pub open spec fn no_input_message() -> Seq<char> {
    "selecione ao menos um audio de origem"@
}

/// A job needs at least one source audio.
pub fn require_input_audio(input_count: usize) -> (r: Result<(), AppError>)
    ensures
        input_count == 0 ==> (r matches Err(AppError::InvalidConfig(m)) && m@
            == no_input_message()),
        input_count > 0 ==> r is Ok,
{
    if input_count == 0 {
        proof {
            reveal_strlit("selecione ao menos um audio de origem");
        }
        return Err(AppError::InvalidConfig(String::from_str("selecione ao menos um audio de origem")));
    }
    Ok(())
}

/// The text the user typed, as typed, when it is not blank; then it is used
/// in place of the transcription (or translation), which is skipped.
pub fn custom_text(custom: Option<&str>) -> (r: Option<&str>)
    ensures
        match custom {
            Some(t) => if trim(t@).len() > 0 {
                r matches Some(x) && x@ == t@
            } else {
                r is None
            },
            None => r is None,
        },
{
    match custom {
        Some(t) => {
            if trim_str(t).as_str().is_empty() {
                None
            } else {
                Some(t)
            }
        },
        None => None,
    }
}

} // verus!
