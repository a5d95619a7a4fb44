//! The application's error, with the text a user reads for it.
use vstd::prelude::*;

verus! {

#[derive(Debug)]
pub enum AppError {
    InvalidConfig(String),
    /// A path, as text, that does not name what was expected.
    InvalidPath(String),
    UnsupportedCodec(String),
    SpeechEngineUnavailable(String),
    TranslationUnavailable(String),
    JobNotFound(String),
    Io(String),
    Internal(String),
}

pub type AppResult<T> = Result<T, AppError>;

/// The words in front of the detail of each kind of error.
pub open spec fn error_prefix(e: AppError) -> Seq<char> {
    match e {
        AppError::InvalidConfig(_) => "configuracao invalida: "@,
        AppError::InvalidPath(_) => "caminho invalido: "@,
        AppError::UnsupportedCodec(_) => "codec nao suportado: "@,
        AppError::SpeechEngineUnavailable(_) => "motor de fala nao configurado: "@,
        AppError::TranslationUnavailable(_) => "traducao nao configurada: "@,
        AppError::JobNotFound(_) => "job nao encontrado: "@,
        AppError::Io(_) => "erro de io: "@,
        AppError::Internal(_) => "erro interno: "@,
    }
}

/// The detail carried by an error.
pub open spec fn error_detail(e: AppError) -> Seq<char> {
    match e {
        AppError::InvalidConfig(s) => s@,
        AppError::InvalidPath(s) => s@,
        AppError::UnsupportedCodec(s) => s@,
        AppError::SpeechEngineUnavailable(s) => s@,
        AppError::TranslationUnavailable(s) => s@,
        AppError::JobNotFound(s) => s@,
        AppError::Io(s) => s@,
        AppError::Internal(s) => s@,
    }
}

impl AppError {
    /// The text shown for the error: its kind's prefix, then its detail.
    pub fn message(&self) -> (text: String)
        ensures
            text@ == error_prefix(*self) + error_detail(*self),
    {
        let (prefix, detail) = match self {
            AppError::InvalidConfig(s) => ("configuracao invalida: ", s),
            AppError::InvalidPath(s) => ("caminho invalido: ", s),
            AppError::UnsupportedCodec(s) => ("codec nao suportado: ", s),
            AppError::SpeechEngineUnavailable(s) => ("motor de fala nao configurado: ", s),
            AppError::TranslationUnavailable(s) => ("traducao nao configurada: ", s),
            AppError::JobNotFound(s) => ("job nao encontrado: ", s),
            AppError::Io(s) => ("erro de io: ", s),
            AppError::Internal(s) => ("erro interno: ", s),
        };
        let mut text = String::from_str(prefix);
        text.append(detail.as_str());
        text
    }
}

} // verus!
