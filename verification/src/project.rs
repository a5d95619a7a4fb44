//! Checks on the project metadata kept in the output folder: its file keys,
//! the tags of each file's text and the keys and tags of each line.
use vstd::prelude::*;
use crate::strings::{chars_of, trim, trim_str, views};
use crate::numbers::{parse_unsigned, parse_unsigned_range};
use crate::tags::{first_unsupported, text_tags, unsupported_tag_error, validate_native_tags, validate_text_native_tags};
use crate::error::AppError;

verus! {

/// Version written into every saved project metadata file.
pub const PROJECT_METADATA_VERSION: u32 = 1;

/// The version a loaded metadata file is given: files written before the
/// version existed read as version 1.
pub fn loaded_metadata_version(version: u32) -> (r: u32)
    ensures
        r == (if version == 0 {
            1
        } else {
            version
        }),
{
    if version == 0 {
        1
    } else {
        version
    }
}

/// Reads a text as `str::parse::<usize>` does.
pub fn parse_usize(text: &str) -> (r: Option<usize>)
    ensures
        match parse_unsigned(text@, usize::MAX as nat) {
            Some(v) => r == Some(v as usize),
            None => r is None,
        },
{
    let chars = chars_of(text);
    assert(chars@.subrange(0, chars.len() as int) == chars@);
    match parse_unsigned_range(&chars, 0, chars.len(), usize::MAX as u64) {
        Some(v) => Some(v as usize),
        None => None,
    }
}

/// A file of the project: its key must not be blank and the tags of its
/// target text must be native.
pub fn validate_project_file(file_key: &str, target_text: Option<&str>) -> (r: Result<(), AppError>)
    ensures
        trim(file_key@).len() == 0 ==> (r matches Err(AppError::InvalidConfig(m)) && m@
            == "metadados de projeto contem chave de arquivo vazia"@),
        trim(file_key@).len() > 0 ==> match target_text {
            None => r is Ok,
            Some(t) => match first_unsupported(text_tags(t@)) {
                Some(tag) => unsupported_tag_error(r, tag),
                None => r is Ok,
            },
        },
{
    if trim_str(file_key).as_str().is_empty() {
        return Err(
            AppError::InvalidConfig(
                String::from_str("metadados de projeto contem chave de arquivo vazia"),
            ),
        );
    }
    match target_text {
        Some(t) => validate_text_native_tags(t),
        None => Ok(()),
    }
}

/// A line of a project file: its key must be a line number and its tags
/// native.
pub fn validate_project_line(file_key: &str, line_key: &str, tags: &Vec<String>) -> (r: Result<
    (),
    AppError,
>)
    ensures
        parse_unsigned(line_key@, usize::MAX as nat) is None ==> (r matches Err(
            AppError::InvalidConfig(m),
        ) && m@ == "linha invalida em metadados de "@ + file_key@ + ": "@ + line_key@),
        parse_unsigned(line_key@, usize::MAX as nat) is Some ==> match first_unsupported(
            views(tags@),
        ) {
            Some(tag) => unsupported_tag_error(r, tag),
            None => r is Ok,
        },
{
    if parse_usize(line_key).is_none() {
        let mut text = String::from_str("linha invalida em metadados de ");
        text.append(file_key);
        text.append(": ");
        text.append(line_key);
        proof {
            reveal_strlit("linha invalida em metadados de ");
            reveal_strlit(": ");
        }
        return Err(AppError::InvalidConfig(text));
    }
    validate_native_tags(tags)
}

} // verus!
