//! Names of the cached preview files: a readable part and a fingerprint
//! taken from a SHA-256 digest of what identifies the preview.
use vstd::prelude::*;
use vstd::string::StrSliceExecFns;
use vstd::utf8::encode_utf8;
use vstd::bytes::{spec_u64_to_le_bytes, spec_u128_to_le_bytes, u64_to_le_bytes, u128_to_le_bytes};
use sha2::Digest;
use crate::strings::views;
use crate::paths::{extension_of, stem_of, file_extension, file_stem, path_file_name, path_file_name_of};
use crate::segments::{underscored, sanitize_component};
use crate::models::{lower_hex, push_lower_hex};

verus! {

/// The SHA-256 digest of the bytes.
pub uninterp spec fn sha256_of(data: Seq<u8>) -> Seq<u8>;

/// Calls `sha2::Sha256::digest`. Claimed: the digest depends on the bytes
/// alone, is named `sha256_of` of them, and has 32 bytes.
#[verifier::external_body]
pub(crate) fn sha256_digest(data: &[u8]) -> (r: Vec<u8>)
    ensures
        r@ == sha256_of(data@),
        r@.len() == 32,
{
    sha2::Sha256::digest(data).to_vec()
}

/// The first eight bytes of a digest (all of it when shorter), in
/// lower-case hexadecimal.
pub open spec fn digest_fingerprint(digest: Seq<u8>) -> Seq<char> {
    lower_hex(
        if digest.len() <= 8 {
            digest
        } else {
            digest.take(8)
        },
    )
}

/// The fingerprint of the SHA-256 digest of the data.
pub open spec fn fingerprint(data: Seq<u8>) -> Seq<char> {
    digest_fingerprint(sha256_of(data))
}

fn fingerprint_text(digest: &[u8]) -> (r: String)
    ensures
        r@ == digest_fingerprint(digest@),
{
    let count: usize = if digest.len() <= 8 {
        digest.len()
    } else {
        8
    };
    let mut head: Vec<u8> = Vec::new();
    let mut i: usize = 0;
    while i < count
        invariant
            i <= count,
            count <= digest.len(),
            head@ == digest@.take(i as int),
        decreases count - i,
    {
        head.push(digest[i]);
        i = i + 1;
        assert(head@ =~= digest@.take(i as int));
    }
    if digest.len() <= 8 {
        assert(digest@.take(count as int) =~= digest@);
    }
    let mut text = String::new();
    push_lower_hex(&mut text, head.as_slice());
    text
}

/// A sanitized part of a file name, or `fallback` when there is none.
pub open spec fn part_or(part: Option<Seq<char>>, fallback: Seq<char>) -> Seq<char> {
    match part {
        Some(p) => if p.len() > 0 {
            underscored(p)
        } else {
            fallback
        },
        None => fallback,
    }
}

/// What identifies an audio preview: the source path's text, its size and,
/// when known, its modification time in nanoseconds.
pub open spec fn preview_identity(source_text: Seq<char>, len: u64, modified_nanos: Option<u128>) -> Seq<u8> {
    encode_utf8(source_text) + spec_u64_to_le_bytes(len) + match modified_nanos {
        Some(n) => spec_u128_to_le_bytes(n),
        None => seq![],
    }
}

pub open spec fn name_from_digest(digest: Seq<u8>, file_name: Option<Seq<char>>) -> Seq<char> {
    let stem = part_or(
        match file_name {
            Some(f) => Some(stem_of(f)),
            None => None,
        },
        "preview"@,
    );
    let extension = part_or(
        match file_name {
            Some(f) => extension_of(f),
            None => None,
        },
        "audio"@,
    );
    stem + "-"@ + digest_fingerprint(digest) + "."@ + extension
}

pub open spec fn preview_name(source_text: Seq<char>, len: u64, modified_nanos: Option<u128>) -> Seq<
    char,
> {
    name_from_digest(
        sha256_of(preview_identity(source_text, len, modified_nanos)),
        path_file_name(source_text),
    )
}

pub open spec fn opt_view(file_name: Option<&str>) -> Option<Seq<char>> {
    match file_name {
        Some(f) => Some(f@),
        None => None,
    }
}

/// The cached copy's name for an audio preview: `{stem}-{fingerprint}.{ext}`,
/// from the stem and extension of the file `source_text` (the source path
/// as text) names.
pub fn preview_file_name(source_text: &str, len: u64, modified_nanos: Option<u128>) -> (r: String)
    ensures
        r@ == preview_name(source_text@, len, modified_nanos),
{
    let mut data = source_text.as_bytes_vec();
    let mut size = u64_to_le_bytes(len);
    data.append(&mut size);
    match modified_nanos {
        Some(n) => {
            let mut time = u128_to_le_bytes(n);
            data.append(&mut time);
        },
        None => {},
    }
    let digest = sha256_digest(data.as_slice());
    let file_name = path_file_name_of(source_text);
    let name = match &file_name {
        Some(f) => Some(f.as_str()),
        None => None,
    };
    preview_name_from_digest(digest.as_slice(), name)
}

/// `{stem}-{fingerprint}.{ext}` for a digest: the file's sanitized stem
/// (`preview` when it has none) and extension (`audio` when it has none).
pub fn preview_name_from_digest(digest: &[u8], file_name: Option<&str>) -> (r: String)
    ensures
        r@ == name_from_digest(digest@, opt_view(file_name)),
{
    let fp = fingerprint_text(digest);
    let stem = match file_name {
        Some(f) => {
            let s = file_stem(f);
            if s.as_str().is_empty() {
                String::from_str("preview")
            } else {
                sanitize_component(s.as_str())
            }
        },
        None => String::from_str("preview"),
    };
    let extension = match file_name {
        Some(f) => match file_extension(f) {
            Some(e) => {
                if e.as_str().is_empty() {
                    String::from_str("audio")
                } else {
                    sanitize_component(e.as_str())
                }
            },
            None => String::from_str("audio"),
        },
        None => String::from_str("audio"),
    };
    let mut name = stem;
    name.push('-');
    name.append(fp.as_str());
    name.push('.');
    name.append(extension.as_str());
    proof {
        reveal_strlit("preview");
        reveal_strlit("audio");
        reveal_strlit("-");
        reveal_strlit(".");
    }
    name
}

/// The bytes of the tags, each after a zero byte.
pub open spec fn tag_bytes(tags: Seq<Seq<char>>) -> Seq<u8>
    decreases tags.len(),
{
    if tags.len() == 0 {
        seq![]
    } else {
        tag_bytes(tags.drop_last()) + seq![0u8] + encode_utf8(tags.last())
    }
}

/// What identifies a line preview: the source path's text, the line, its
/// tags and the text of its settings.
pub open spec fn line_preview_identity(
    source_text: Seq<char>,
    text: Seq<char>,
    tags: Seq<Seq<char>>,
    settings_text: Seq<char>,
) -> Seq<u8> {
    encode_utf8(source_text) + encode_utf8(text) + tag_bytes(tags) + encode_utf8(settings_text)
}

/// The cached file name of a line preview: `line-preview-{fingerprint}.wav`.
pub fn preview_line_file_name(
    source_text: &str,
    text: &str,
    tags: &Vec<String>,
    settings_text: &str,
) -> (r: String)
    ensures
        r@ == "line-preview-"@ + fingerprint(
            line_preview_identity(source_text@, text@, views(tags@), settings_text@),
        ) + ".wav"@,
{
    let mut data = source_text.as_bytes_vec();
    let mut line = text.as_bytes_vec();
    data.append(&mut line);
    let ghost head = data@;
    let mut i: usize = 0;
    while i < tags.len()
        invariant
            i <= tags.len(),
            data@ == head + tag_bytes(views(tags@).take(i as int)),
        decreases tags.len() - i,
    {
        assert(views(tags@).take(i + 1).drop_last() == views(tags@).take(i as int));
        assert(views(tags@).take(i + 1).last() == tags@[i as int]@);
        data.push(0u8);
        let mut tag = tags[i].as_str().as_bytes_vec();
        data.append(&mut tag);
        i = i + 1;
        assert(data@ =~= head + tag_bytes(views(tags@).take(i as int)));
    }
    assert(views(tags@).take(tags.len() as int) == views(tags@));
    let mut settings = settings_text.as_bytes_vec();
    data.append(&mut settings);
    let digest = sha256_digest(data.as_slice());
    line_preview_name_from_digest(digest.as_slice())
}

/// `line-preview-{fingerprint}.wav` for a digest.
pub fn line_preview_name_from_digest(digest: &[u8]) -> (r: String)
    ensures
        r@ == "line-preview-"@ + digest_fingerprint(digest@) + ".wav"@,
{
    let fp = fingerprint_text(digest);
    let mut name = String::from_str("line-preview-");
    name.append(fp.as_str());
    name.append(".wav");
    proof {
        reveal_strlit("line-preview-");
        reveal_strlit(".wav");
    }
    name
}

} // verus!
