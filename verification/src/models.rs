//! The local speech models: which folder is used, where each model lives in
//! it, how the model manifest is read, how a weight file is checked against
//! the sha256 the manifest records, and the errors for what is missing.
use vstd::prelude::*;
use crate::strings::{chars_of, views};
use crate::numbers::{decimal, hex_digits, push_decimal, push_hex_digits};
use crate::paths::{ascii_lowercase, to_ascii_lowercase, join_part};
use crate::tags::utf8_len;
use crate::error::AppError;
use crate::preview::{sha256_digest, sha256_of};

verus! {

pub const WHISPER_MODEL_ID: &'static str = "whisper-large-v3-ggml";

pub const WHISPER_ENGINE: &'static str = "whisper-rs";

pub const WHISPER_VAD_MODEL_ID: &'static str = "whisper-vad-silero-v6.2.0-ggml";

pub const WHISPER_VAD_ENGINE: &'static str = "whisper-rs-vad";

pub const OMNIVOICE_MODEL_ID: &'static str = "omnivoice-candle";

pub const OMNIVOICE_ENGINE: &'static str = "omnivoice-candle";

pub const OMNIVOICE_RUNTIME_MANIFEST_FILE_NAME: &'static str = "omnivoice.artifacts.json";

/// Where each speech model is.
pub struct SpeechModelPaths {
    pub whisper_model_path: Vec<String>,
    pub whisper_vad_model_path: Vec<String>,
    pub omnivoice_model_dir: Vec<String>,
}

/// The model folder to use: the configured one when it is usable, else the
/// discovered one, else the configured one anyway.
pub open spec fn chosen_model_dir(
    configured: Option<Seq<Seq<char>>>,
    configured_usable: bool,
    discovered: Option<Seq<Seq<char>>>,
) -> Option<Seq<Seq<char>>> {
    match configured {
        Some(dir) => if configured_usable {
            Some(dir)
        } else {
            match discovered {
                Some(found) => Some(found),
                None => Some(dir),
            }
        },
        None => discovered,
    }
}

pub open spec fn opt_path_view(p: Option<Vec<String>>) -> Option<Seq<Seq<char>>> {
    match p {
        Some(v) => Some(views(v@)),
        None => None,
    }
}

/// Picks the model folder; `configured_usable` says whether the configured
/// folder holds a usable model layout.
pub fn model_dir_or_discovered(
    configured_model_dir: Option<Vec<String>>,
    configured_usable: bool,
    discovered_model_dir: Option<Vec<String>>,
) -> (r: Option<Vec<String>>)
    ensures
        opt_path_view(r) == chosen_model_dir(
            opt_path_view(configured_model_dir),
            configured_usable,
            opt_path_view(discovered_model_dir),
        ),
{
    match configured_model_dir {
        Some(model_dir) => {
            if configured_usable {
                Some(model_dir)
            } else {
                match discovered_model_dir {
                    Some(found) => Some(found),
                    None => Some(model_dir),
                }
            }
        },
        None => discovered_model_dir,
    }
}

/// A folder the user chose is kept whenever it holds a usable model layout,
/// whatever else was discovered.
pub proof fn law_usable_configured_dir_is_kept(
    configured: Seq<Seq<char>>,
    discovered: Option<Seq<Seq<char>>>,
)
    ensures
        chosen_model_dir(Some(configured), true, discovered) == Some(configured),
{
}

/// A configured folder that is not usable gives way to a discovered one.
pub proof fn law_stale_dir_is_replaced(configured: Seq<Seq<char>>, discovered: Seq<Seq<char>>)
    ensures
        chosen_model_dir(Some(configured), false, Some(discovered)) == Some(discovered),
{
}

/// What exists in a candidate model folder.
pub struct ModelDirLayout {
    pub is_dir: bool,
    pub has_manifest_file: bool,
    pub has_whisper_file: bool,
    pub has_whisper_vad_file: bool,
    pub has_omnivoice_dir: bool,
}

pub open spec fn usable_layout(l: ModelDirLayout) -> bool {
    l.is_dir && (l.has_manifest_file || (l.has_whisper_file && l.has_whisper_vad_file
        && l.has_omnivoice_dir))
}

/// A folder is usable when it holds a model manifest, or the conventional
/// layout of the three models.
pub fn is_usable_model_dir(layout: &ModelDirLayout) -> (r: bool)
    ensures
        r == usable_layout(*layout),
{
    layout.is_dir && (layout.has_manifest_file || (layout.has_whisper_file
        && layout.has_whisper_vad_file && layout.has_omnivoice_dir))
}

/// The folder when it is usable.
pub fn model_dir_if_available(model_dir: Vec<String>, usable: bool) -> (r: Option<Vec<String>>)
    ensures
        opt_path_view(r) == (if usable {
            Some(views(model_dir@))
        } else {
            None
        }),
{
    if usable {
        Some(model_dir)
    } else {
        None
    }
}

/// Where the models are in a folder without a manifest.
pub fn conventional_model_paths(model_dir: &Vec<String>) -> (r: SpeechModelPaths)
    ensures
        views(r.whisper_model_path@) == views(model_dir@).push("whisper"@).push(
            "ggml-large-v3.bin"@,
        ),
        views(r.whisper_vad_model_path@) == views(model_dir@).push("whisper"@).push(
            "ggml-silero-v6.2.0.bin"@,
        ),
        views(r.omnivoice_model_dir@) == views(model_dir@).push("omnivoice"@),
{
    let whisper = join_part(model_dir, "whisper");
    SpeechModelPaths {
        whisper_model_path: join_part(&whisper, "ggml-large-v3.bin"),
        whisper_vad_model_path: join_part(&whisper, "ggml-silero-v6.2.0.bin"),
        omnivoice_model_dir: join_part(model_dir, "omnivoice"),
    }
}

pub open spec fn missing_model_text(model: Seq<char>, expected_path: Seq<char>) -> Seq<char> {
    model + " ainda não foi provisionado. Caminho esperado: "@ + expected_path
        + ". Baixe e registre o modelo antes de executar aprendizado de máquina local."@
}

/// The error for a model that is not where it is expected (`expected_path`
/// is the path as shown to the user).
pub fn missing_model_error(model: &str, expected_path: &str) -> (e: AppError)
    ensures
        e matches AppError::SpeechEngineUnavailable(m) && m@ == missing_model_text(
            model@,
            expected_path@,
        ),
{
    let mut text = String::from_str(model);
    text.append(" ainda não foi provisionado. Caminho esperado: ");
    text.append(expected_path);
    text.append(". Baixe e registre o modelo antes de executar aprendizado de máquina local.");
    proof {
        reveal_strlit(" ainda não foi provisionado. Caminho esperado: ");
        reveal_strlit(
            ". Baixe e registre o modelo antes de executar aprendizado de máquina local.",
        );
    }
    AppError::SpeechEngineUnavailable(text)
}

/// Fails with the missing-model error unless the model file is there.
pub fn ensure_file(is_file: bool, expected_path: &str, model: &str) -> (r: Result<(), AppError>)
    ensures
        is_file ==> r is Ok,
        !is_file ==> (r matches Err(AppError::SpeechEngineUnavailable(m)) && m@
            == missing_model_text(model@, expected_path@)),
{
    if is_file {
        return Ok(());
    }
    Err(missing_model_error(model, expected_path))
}

/// Fails with the missing-model error unless the model folder is there.
pub fn ensure_dir(is_dir: bool, expected_path: &str, model: &str) -> (r: Result<(), AppError>)
    ensures
        is_dir ==> r is Ok,
        !is_dir ==> (r matches Err(AppError::SpeechEngineUnavailable(m)) && m@
            == missing_model_text(model@, expected_path@)),
{
    if is_dir {
        return Ok(());
    }
    Err(missing_model_error(model, expected_path))
}

/// The error when no model folder was configured or found.
pub fn models_not_provisioned_error() -> (e: AppError)
    ensures
        e matches AppError::SpeechEngineUnavailable(m) && m@
            == "modelos locais não provisionados. Execute a migração para dublagem-master-tauri/models antes de dublar."@,
{
    AppError::SpeechEngineUnavailable(
        String::from_str(
            "modelos locais não provisionados. Execute a migração para dublagem-master-tauri/models antes de dublar.",
        ),
    )
}

/// Only the first manifest schema is read.
pub fn check_manifest_schema(schema_version: u32) -> (r: Result<(), AppError>)
    ensures
        schema_version == 1 ==> r is Ok,
        schema_version != 1 ==> (r matches Err(AppError::InvalidConfig(m)) && m@
            == "manifesto de modelos com schemaVersion "@ + decimal(schema_version as nat)
            + " não suportado"@),
{
    if schema_version == 1 {
        return Ok(());
    }
    let mut text = String::from_str("manifesto de modelos com schemaVersion ");
    push_decimal(&mut text, schema_version as u64);
    text.append(" não suportado");
    proof {
        reveal_strlit("manifesto de modelos com schemaVersion ");
        reveal_strlit(" não suportado");
    }
    Err(AppError::InvalidConfig(text))
}

/// One model of the manifest, as far as finding it goes.
pub struct ManifestModelKey {
    pub id: String,
    pub engine: String,
}

pub open spec fn entry_index(entries: Seq<ManifestModelKey>, id: Seq<char>, engine: Seq<char>, from: int) -> Option<int>
    decreases entries.len() - from,
{
    if from < 0 || from >= entries.len() {
        None
    } else if entries[from].id@ == id && entries[from].engine@ == engine {
        Some(from)
    } else {
        entry_index(entries, id, engine, from + 1)
    }
}

/// The first manifest entry for the model `id` run by `engine`.
pub fn resolve_entry(entries: &Vec<ManifestModelKey>, id: &str, engine: &str) -> (r: Result<
    usize,
    AppError,
>)
    ensures
        match entry_index(entries@, id@, engine@, 0) {
            Some(k) => r == Ok::<usize, AppError>(k as usize),
            None => r matches Err(AppError::InvalidConfig(m)) && m@
                == "manifesto de modelos sem entrada "@ + id@ + " para "@ + engine@,
        },
{
    let mut i: usize = 0;
    while i < entries.len()
        invariant
            i <= entries.len(),
            entry_index(entries@, id@, engine@, 0) == entry_index(entries@, id@, engine@, i as int),
        decreases entries.len() - i,
    {
        if crate::strings::text_equals(entries[i].id.as_str(), id)
            && crate::strings::text_equals(entries[i].engine.as_str(), engine) {
            return Ok(i);
        }
        i = i + 1;
    }
    let mut text = String::from_str("manifesto de modelos sem entrada ");
    text.append(id);
    text.append(" para ");
    text.append(engine);
    proof {
        reveal_strlit("manifesto de modelos sem entrada ");
        reveal_strlit(" para ");
    }
    Err(AppError::InvalidConfig(text))
}

pub open spec fn is_hex_digit(c: char) -> bool {
    ('0' <= c && c <= '9') || ('a' <= c && c <= 'f') || ('A' <= c && c <= 'F')
}

/// Sixty-four bytes of ASCII hexadecimal digits.
pub open spec fn sha256_text(s: Seq<char>) -> bool {
    utf8_len(s) == 64 && forall|i: int| 0 <= i < s.len() ==> is_hex_digit(#[trigger] s[i])
}

proof fn lemma_ascii_utf8_len(s: Seq<char>)
    requires
        forall|i: int| 0 <= i < s.len() ==> is_hex_digit(#[trigger] s[i]),
    ensures
        utf8_len(s) == s.len(),
    decreases s.len(),
{
    if s.len() > 0 {
        assert forall|i: int| 0 <= i < s.len() - 1 implies is_hex_digit(#[trigger] s.drop_last()[i]) by {
            assert(s.drop_last()[i] == s[i]);
        }
        lemma_ascii_utf8_len(s.drop_last());
        assert(is_hex_digit(s[s.len() - 1]));
    }
}

pub fn is_sha256(value: &str) -> (r: bool)
    ensures
        r == sha256_text(value@),
{
    let chars = chars_of(value);
    let mut i: usize = 0;
    while i < chars.len()
        invariant
            i <= chars.len(),
            chars@ == value@,
            forall|k: int| 0 <= k < i ==> is_hex_digit(#[trigger] chars@[k]),
        decreases chars.len() - i,
    {
        let c = chars[i];
        if !(('0' <= c && c <= '9') || ('a' <= c && c <= 'f') || ('A' <= c && c <= 'F')) {
            return false;
        }
        i = i + 1;
    }
    proof {
        lemma_ascii_utf8_len(chars@);
    }
    chars.len() == 64
}

/// Lower-case hexadecimal text of the bytes, two digits each.
pub open spec fn lower_hex(bytes: Seq<u8>) -> Seq<char>
    decreases bytes.len(),
{
    if bytes.len() == 0 {
        seq![]
    } else {
        lower_hex(bytes.drop_last()) + ascii_lowercase(hex_digits(bytes.last() as nat, 2))
    }
}

/// Appends the bytes as lower-case hexadecimal, two digits each.
pub fn push_lower_hex(out: &mut String, bytes: &[u8])
    ensures
        final(out)@ == old(out)@ + lower_hex(bytes@),
{
    let ghost start = out@;
    let mut i: usize = 0;
    while i < bytes.len()
        invariant
            i <= bytes.len(),
            out@ == start + lower_hex(bytes@.take(i as int)),
        decreases bytes.len() - i,
    {
        assert(bytes@.take(i + 1).drop_last() == bytes@.take(i as int));
        let mut pair = String::new();
        push_hex_digits(&mut pair, bytes[i] as u64, 2);
        let lowered = to_ascii_lowercase(pair.as_str());
        out.append(lowered.as_str());
        i = i + 1;
    }
    assert(bytes@.take(bytes.len() as int) == bytes@);
}

/// The sha256 a manifest expects for a file, in lower case; an error when it
/// is not sixty-four hexadecimal digits (`path_text` is the file as shown).
pub fn expected_file_hash(path_text: &str, expected_sha256: Option<&str>) -> (r: Result<
    Option<String>,
    AppError,
>)
    ensures
        match expected_sha256 {
            None => r matches Ok(None),
            Some(e) => if sha256_text(e@) {
                r matches Ok(Some(lower)) && lower@ == ascii_lowercase(e@)
            } else {
                r matches Err(AppError::InvalidConfig(m)) && m@
                    == "sha256 invalido no manifesto para "@ + path_text@
            },
        },
{
    match expected_sha256 {
        None => Ok(None),
        Some(e) => {
            if !is_sha256(e) {
                let mut text = String::from_str("sha256 invalido no manifesto para ");
                text.append(path_text);
                proof {
                    reveal_strlit("sha256 invalido no manifesto para ");
                }
                return Err(AppError::InvalidConfig(text));
            }
            Ok(Some(to_ascii_lowercase(e)))
        },
    }
}

/// Compares a file's sha256 digest with the lower-case hexadecimal text the
/// manifest expects.
pub fn compare_file_hash(path_text: &str, expected_lower: &str, digest: &[u8]) -> (r: Result<
    (),
    AppError,
>)
    ensures
        lower_hex(digest@) == expected_lower@ ==> r is Ok,
        lower_hex(digest@) != expected_lower@ ==> (r matches Err(AppError::InvalidConfig(m))
            && m@ == "sha256 divergente para "@ + path_text@),
{
    let mut actual = String::new();
    push_lower_hex(&mut actual, digest);
    if crate::strings::text_equals(actual.as_str(), expected_lower) {
        return Ok(());
    }
    let mut text = String::from_str("sha256 divergente para ");
    text.append(path_text);
    proof {
        reveal_strlit("sha256 divergente para ");
    }
    Err(AppError::InvalidConfig(text))
}

/// Checks a weight file's contents against the sha256 the manifest records
/// for it (`path_text` is the file as shown): nothing to check without a
/// recorded hash; an error when the recorded hash is not sixty-four
/// hexadecimal digits, or when the contents' digest differs from it.
pub fn verify_weights_digest(path_text: &str, expected_sha256: Option<&str>, contents: &[u8]) -> (r:
    Result<(), AppError>)
    ensures
        match expected_sha256 {
            None => r is Ok,
            Some(e) => if !sha256_text(e@) {
                r matches Err(AppError::InvalidConfig(m)) && m@
                    == "sha256 invalido no manifesto para "@ + path_text@
            } else if lower_hex(sha256_of(contents@)) == ascii_lowercase(e@) {
                r is Ok
            } else {
                r matches Err(AppError::InvalidConfig(m)) && m@ == "sha256 divergente para "@
                    + path_text@
            },
        },
{
    match expected_file_hash(path_text, expected_sha256) {
        Err(error) => Err(error),
        Ok(None) => Ok(()),
        Ok(Some(expected_lower)) => {
            let digest = sha256_digest(contents);
            compare_file_hash(path_text, expected_lower.as_str(), digest.as_slice())
        },
    }
}

} // verus!
