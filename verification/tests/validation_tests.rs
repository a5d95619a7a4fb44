use dublagem::validation::{
    expected_tail_is_present, fold_validation_char, fuzzy_lcs_count, last_words, lcs_char_count,
    normalized_qc_tokens, normalized_similarity_text, tokens_look_equal, v14_text_metrics,
    v14_verdict, V14Verdict,
};

#[test]
fn v14_metrics_accept_close_transcription() {
    let metrics = v14_text_metrics("Olá, posso ficar aqui agora?", "Ola posso ficar aqui agora");
    let similarity = (2.0 * metrics.similarity_matches as f32)
        / (metrics.expected_chars + metrics.heard_chars) as f32;
    let coverage = metrics.covered_tokens as f32 / metrics.expected_tokens.len() as f32;

    assert!(similarity >= 0.90);
    assert!(coverage >= 0.90);
    assert!(metrics.tail_ok);
}

#[test]
fn v14_metrics_reject_missing_tail() {
    let metrics = v14_text_metrics(
        "Precisamos encontrar a chave antes do amanhecer",
        "Precisamos encontrar a chave",
    );
    let coverage = metrics.covered_tokens as f32 / metrics.expected_tokens.len() as f32;

    assert!(!metrics.tail_ok);
    assert!(coverage < 0.75);
}

#[test]
fn folds_accents_case_and_punctuation() {
    assert_eq!(fold_validation_char('Á'), Some('a'));
    assert_eq!(fold_validation_char('ç'), Some('c'));
    assert_eq!(fold_validation_char('Z'), Some('z'));
    assert_eq!(fold_validation_char('7'), Some('7'));
    assert_eq!(fold_validation_char(','), None);
    assert_eq!(fold_validation_char('ß'), None);
}

#[test]
fn normalizes_palatal_spellings() {
    assert_eq!(
        normalized_qc_tokens("Noitche, DCHIA! tchê"),
        vec!["noite".to_string(), "dia".to_string(), "te".to_string()]
    );
    assert_eq!(normalized_similarity_text("  Olá,   mundo!  "), "ola mundo");
    assert!(normalized_qc_tokens("?!...").is_empty());
}

#[test]
fn counts_longest_common_subsequences() {
    let a: Vec<char> = "abcbdab".chars().collect();
    let b: Vec<char> = "bdcaba".chars().collect();
    assert_eq!(lcs_char_count(&a, &b), 4);
    assert_eq!(lcs_char_count(&a, &[]), 0);
    let expected = vec!["ola".to_string(), "mundo".to_string(), "bonito".to_string()];
    let heard = vec!["ola".to_string(), "bonita".to_string()];
    assert_eq!(fuzzy_lcs_count(&expected, &heard), 2);
}

#[test]
fn compares_words_by_similarity() {
    assert!(tokens_look_equal("casa", "casa"));
    assert!(tokens_look_equal("bonito", "bonita"));
    assert!(!tokens_look_equal("eu", "ei"));
    assert!(!tokens_look_equal("cachorro", "gato"));
}

#[test]
fn finds_tail_in_order_near_the_end() {
    let expected = vec!["vamos".to_string(), "embora".to_string(), "agora".to_string()];
    let heard = vec!["vamos".to_string(), "embora".to_string(), "agora".to_string()];
    assert!(expected_tail_is_present(&expected, &heard));
    let shuffled = vec!["agora".to_string(), "vamos".to_string(), "embora".to_string()];
    assert!(!expected_tail_is_present(&expected, &shuffled));
    assert!(expected_tail_is_present(&[], &shuffled));
}

#[test]
fn verdict_names_the_first_failed_check() {
    let accepted = v14_text_metrics("Ola posso ficar aqui agora", "Ola posso ficar aqui agora");
    assert_eq!(v14_verdict(&accepted), V14Verdict::Accepted);
    let diverged = v14_text_metrics("Ola posso ficar aqui agora", "Banana laranja");
    assert_eq!(v14_verdict(&diverged), V14Verdict::TextDiverged);
    let missing = v14_text_metrics(
        "Precisamos encontrar a chave antes do amanhecer",
        "Precisamos encontrar a chave",
    );
    assert_ne!(v14_verdict(&missing), V14Verdict::Accepted);
    assert!(accepted.similarity_at_least(100));
    assert!(accepted.coverage_at_least(100));
}

#[test]
fn joins_last_words() {
    let tokens = vec!["a".to_string(), "b".to_string(), "c".to_string(), "d".to_string()];
    assert_eq!(last_words(&tokens, 3), "b c d");
    assert_eq!(last_words(&tokens, 8), "a b c d");
}

#[test]
fn folds_lowered_characters() {
    assert_eq!(dublagem::validation::fold_lowered_char('ã'), Some('a'));
    assert_eq!(dublagem::validation::fold_lowered_char('-'), None);
}
