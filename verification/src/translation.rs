//! Translation: when no service is needed, which language codes a service is
//! asked for, the credentials of the cloud service, reading the text out of
//! a reply, and the Portuguese touch-ups applied afterwards.
use vstd::prelude::*;
use crate::strings::{trim, trim_str};
use crate::domain::{bcp47, LanguageCode, TranslationRequest, TranslationResult};
use crate::error::AppError;
use crate::text::{corrected_pronunciation, correct_ptbr_pronunciation, synchronize_punctuation, synchronized_punctuation};

verus! {

/// A request needs no translation when both languages are the same: the
/// text comes back as it is, from the `identity` provider.
pub fn identity_translation(request: &TranslationRequest) -> (r: Option<TranslationResult>)
    ensures
        request.source_language == request.target_language ==> (r matches Some(t)
            && t.translated_text@ == request.text@ && t.provider@ == "identity"@),
        request.source_language != request.target_language ==> r is None,
{
    if request.source_language == request.target_language {
        Some(
            TranslationResult {
                translated_text: String::from_str(request.text.as_str()),
                provider: String::from_str("identity"),
            },
        )
    } else {
        None
    }
}

/// The source and target codes sent to the public endpoint: the target must
/// have a code, the source falls back to `auto`.
pub fn compat_language_codes(source: LanguageCode, target: LanguageCode) -> (r: Result<
    (&'static str, &'static str),
    AppError,
>)
    ensures
        bcp47(target) is None ==> (r matches Err(AppError::TranslationUnavailable(m)) && m@
            == "idioma destino invalido"@),
        bcp47(target) matches Some(t) ==> (r matches Ok(codes) && codes.1@ == t && codes.0@ == (
        match bcp47(source) {
            Some(s) => s,
            None => "auto"@,
        })),
{
    let target_code = match target.translation_code() {
        Some(code) => code,
        None => {
            return Err(
                AppError::TranslationUnavailable(String::from_str("idioma destino invalido")),
            );
        },
    };
    let source_code = match source.translation_code() {
        Some(code) => code,
        None => "auto",
    };
    Ok((source_code, target_code))
}

/// The credentials of the cloud translation service, as read from the
/// environment.
pub struct CloudCredentials {
    pub project_id: Option<String>,
    pub access_token: Option<String>,
}

pub open spec fn filled(v: Option<String>) -> bool {
    v matches Some(s) && s@.len() > 0
}

impl CloudCredentials {
    /// Both the project and the token are set and not empty.
    pub fn is_configured(&self) -> (r: bool)
        ensures
            r == (filled(self.project_id) && filled(self.access_token)),
    {
        match (&self.project_id, &self.access_token) {
            (Some(project_id), Some(access_token)) => !project_id.as_str().is_empty()
                && !access_token.as_str().is_empty(),
            _ => false,
        }
    }

    /// The project and token, or the error telling how to set them.
    pub fn credentials(&self) -> (r: Result<(String, String), AppError>)
        ensures
            (filled(self.project_id) && filled(self.access_token)) ==> (r matches Ok(c)
                && c.0@ == self.project_id->0@ && c.1@ == self.access_token->0@),
            !(filled(self.project_id) && filled(self.access_token)) ==> (r matches Err(
                AppError::TranslationUnavailable(m),
            ) && m@
                == "defina GOOGLE_CLOUD_PROJECT_ID e GOOGLE_CLOUD_ACCESS_TOKEN para usar tradução automática"@),
    {
        match (&self.project_id, &self.access_token) {
            (Some(project_id), Some(access_token)) => {
                if !project_id.as_str().is_empty() && !access_token.as_str().is_empty() {
                    return Ok(
                        (String::from_str(project_id.as_str()), String::from_str(access_token.as_str())),
                    );
                }
            },
            _ => {},
        }
        Err(
            AppError::TranslationUnavailable(
                String::from_str(
                    "defina GOOGLE_CLOUD_PROJECT_ID e GOOGLE_CLOUD_ACCESS_TOKEN para usar tradução automática",
                ),
            ),
        )
    }
}

/// The cloud endpoint that translates for a project.
pub fn cloud_translate_endpoint(project_id: &str) -> (r: String)
    ensures
        r@ == "https://translation.googleapis.com/v3/projects/"@ + project_id@ + ":translateText"@,
{
    let mut text = String::from_str("https://translation.googleapis.com/v3/projects/");
    text.append(project_id);
    text.append(":translateText");
    proof {
        reveal_strlit("https://translation.googleapis.com/v3/projects/");
        reveal_strlit(":translateText");
    }
    text
}

/// The texts of the segments that have one, one after the other.
pub open spec fn joined_segments(segments: Seq<Option<String>>) -> Seq<char>
    decreases segments.len(),
{
    if segments.len() == 0 {
        seq![]
    } else {
        joined_segments(segments.drop_last()) + match segments.last() {
            Some(s) => s@,
            None => seq![],
        }
    }
}

/// The translation in a reply of the public endpoint, given the reply's
/// first element read as a list of segments whose first element is text
/// (`None` where it is not, `segments` itself `None` when the reply has no
/// such list); blank text is an error.
pub fn extract_google_translate_text(segments: Option<Vec<Option<String>>>) -> (r: Result<
    String,
    AppError,
>)
    ensures
        ({
            let text = match segments {
                Some(v) => joined_segments(v@),
                None => seq![],
            };
            &&& trim(text).len() > 0 ==> (r matches Ok(t) && t@ == text)
            &&& trim(text).len() == 0 ==> (r matches Err(AppError::TranslationUnavailable(m)) && m@
                == "resposta de tradução sem segmentos de texto"@)
        }),
{
    let mut translated = String::new();
    match &segments {
        Some(list) => {
            let mut i: usize = 0;
            while i < list.len()
                invariant
                    i <= list.len(),
                    translated@ == joined_segments(list@.take(i as int)),
                decreases list.len() - i,
            {
                assert(list@.take(i + 1).drop_last() == list@.take(i as int));
                match &list[i] {
                    Some(text) => translated.append(text.as_str()),
                    None => {},
                }
                i = i + 1;
            }
            assert(list@.take(list.len() as int) == list@);
        },
        None => {},
    }
    if trim_str(translated.as_str()).as_str().is_empty() {
        return Err(
            AppError::TranslationUnavailable(
                String::from_str("resposta de tradução sem segmentos de texto"),
            ),
        );
    }
    Ok(translated)
}

pub open spec fn postprocessed(text: Seq<char>, source_text: Seq<char>, target: LanguageCode) -> Seq<char> {
    if target == LanguageCode::Pt {
        synchronized_punctuation(corrected_pronunciation(text), source_text)
    } else {
        synchronized_punctuation(text, source_text)
    }
}

/// A machine-translated line made ready for speech: Portuguese
/// pronunciation fixes when the target is Portuguese, then the final mark
/// of the source line.
pub fn legacy_ptbr_postprocess(text: &str, source_text: &str, target_language: LanguageCode) -> (r:
    String)
    ensures
        r@ == postprocessed(text@, source_text@, target_language),
{
    if target_language == LanguageCode::Pt {
        let corrected = correct_ptbr_pronunciation(text);
        synchronize_punctuation(corrected.as_str(), source_text)
    } else {
        synchronize_punctuation(text, source_text)
    }
}

} // verus!
