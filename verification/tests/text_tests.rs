use dublagem::text::{
    comma_before_question, correct_ptbr_pronunciation, palatalize_ptbr, synchronize_punctuation,
};
use dublagem::translation::legacy_ptbr_postprocess;
use dublagem::domain::LanguageCode;

#[test]
fn synchronizes_final_punctuation_from_reference() {
    assert_eq!(synchronize_punctuation("Ola mundo.", "Hello?"), "Ola mundo?");
    assert_eq!(synchronize_punctuation("Ola mundo", "Hello!"), "Ola mundo!");
    assert_eq!(synchronize_punctuation("Ola mundo?", "Hello."), "Ola mundo.");
}

#[test]
fn inserts_comma_before_question_mark() {
    assert_eq!(comma_before_question("Tudo bem?"), "Tudo bem, ?");
    assert_eq!(comma_before_question("Tudo bem, ?"), "Tudo bem, ?");
}

#[test]
fn palatalizes_ptbr_suffixes_without_touching_isolated_words() {
    assert_eq!(palatalize_ptbr("bati noite pedi mode"), "batchi noitche pedchi modche");
    assert_eq!(palatalize_ptbr("de te di ti"), "de te di ti");
}

#[test]
fn keeps_bracketed_omnivoice_tags_unchanged() {
    assert_eq!(
        palatalize_ptbr("[question-en] bati [surprise-oh]"),
        "[question-en] batchi [surprise-oh]"
    );
}

#[test]
fn synchronize_leaves_blank_sides_alone() {
    assert_eq!(synchronize_punctuation("   ", "Hello?"), "   ");
    assert_eq!(synchronize_punctuation("Ola mundo...", "  "), "Ola mundo...");
    assert_eq!(synchronize_punctuation("Ola mundo!!", "Hello"), "Ola mundo");
    assert_eq!(synchronize_punctuation("Ola mundo", "\"Hello?\" "), "Ola mundo?");
}

#[test]
fn comma_before_question_drops_space_before_mark() {
    assert_eq!(comma_before_question("Voce vem ?"), "Voce vem, ?");
    assert_eq!(comma_before_question("?"), "?");
}

#[test]
fn legacy_postprocess_fixes_portuguese_and_punctuation() {
    let pt = legacy_ptbr_postprocess("Ola mundo.", "Hello?", LanguageCode::Pt);
    assert_eq!(pt, synchronize_punctuation(&correct_ptbr_pronunciation("Ola mundo."), "Hello?"));
    assert!(pt.ends_with('?'));
    let en = legacy_ptbr_postprocess("Hi there.", "Ola!", LanguageCode::En);
    assert_eq!(en, "Hi there!");
}

#[test]
fn pronunciation_fix_uses_the_lowered_word() {
    let plain = dublagem::text::corrected_from_lowered("Xyz", "xyz", &dublagem::text::pronunciation_table());
    assert_eq!(plain, "Xyz");
}

#[test]
fn corrects_pronunciation_of_known_words() {
    assert_eq!(correct_ptbr_pronunciation("Agora  eu POSSO sair"), "agóra eu pósso sair");
    let fixed = dublagem::text::corrected_from_lowered("Jogo", "jogo", &dublagem::text::pronunciation_table());
    assert_eq!(fixed, "jógo");
}

#[test]
fn stripped_text_is_tidy() {
    let text = dublagem::tags::strip_omnivoice_native_tags("  Ola [sigh] ,  mundo [laughter] !  ");
    assert_eq!(text, "Ola, mundo!");
}
