use dublagem::tags::{strip_omnivoice_native_tags, validate_native_tags, validate_text_native_tags};
use dublagem::segments::{effective_synthesis_tags, tagged_synthesis_text};
use dublagem::error::AppError;

#[test]
fn strips_native_tags_from_speakable_text() {
    assert_eq!(strip_omnivoice_native_tags("[sigh] Ola [question-ah]?"), "Ola?");
    assert_eq!(
        strip_omnivoice_native_tags("Inicio [laughter] meio [surprise-oh] fim."),
        "Inicio meio fim."
    );
}

#[test]
fn keeps_pronunciation_hints_when_stripping_native_tags() {
    assert_eq!(
        strip_omnivoice_native_tags("[sigh] He plays [B EY1 S] guitar."),
        "He plays [B EY1 S] guitar."
    );
}

#[test]
fn rejects_unknown_lowercase_nonverbal_tags() {
    let error = validate_text_native_tags("Texto [angry] invalido.").expect_err("invalid tag");

    assert!(error.message().contains("[angry]"));
}

#[test]
fn allows_native_tags_and_uppercase_pronunciation_hints() {
    validate_text_native_tags("[sigh] He plays [B EY1 S].").expect("native tags");
}

#[test]
fn line_metadata_tags_are_applied_to_synthesis_text() {
    assert_eq!(
        tagged_synthesis_text(&vec!["[sigh]".to_string()], "Ola mundo."),
        "[sigh] Ola mundo."
    );
    assert_eq!(
        tagged_synthesis_text(&vec!["[sigh]".to_string(), "[sigh]".to_string()], "[sigh] Ola mundo."),
        "[sigh] Ola mundo."
    );
    assert_eq!(
        effective_synthesis_tags(
            &vec!["[sigh]".to_string()],
            &vec!["[sigh]".to_string(), "[surprise-oh]".to_string()]
        ),
        vec!["[sigh]".to_string(), "[surprise-oh]".to_string()]
    );
}

#[test]
fn unknown_tag_error_names_the_tag() {
    match validate_native_tags(&vec!["[sigh]".to_string(), "[shout]".to_string()]) {
        Err(AppError::InvalidConfig(message)) => {
            assert_eq!(message, "tag OmniVoice nao suportada: [shout]")
        }
        _ => panic!("expected an invalid configuration error"),
    }
    assert!(validate_native_tags(&vec!["[laughter]".to_string()]).is_ok());
}

#[test]
fn stripping_keeps_text_without_tags() {
    assert_eq!(strip_omnivoice_native_tags("Nada a remover."), "Nada a remover.");
    assert_eq!(strip_omnivoice_native_tags("[sigh]"), "");
}
