use dublagem::attempts::{
    apply_text_options, clean_reference_text, line_overrides_with_final_breath,
    synthesis_attempt_path, synthesis_reference_path, synthesis_text_with_final_breath,
    v14_reference_text, v14_synthesis_uses_clone, ReferenceHearing, TextOptions, V14Action,
    V14Event, V14Guard,
};
use dublagem::domain::VoiceMode;
use dublagem::error::AppError;

#[test]
fn v14_retry_adds_final_breath_without_changing_first_attempt() {
    assert_eq!(synthesis_text_with_final_breath("fala final", 0), "fala final");
    assert_eq!(synthesis_text_with_final_breath("fala final", 1), "fala final .");
    assert_eq!(synthesis_text_with_final_breath("fala final", 2), "fala final ...");
}

#[test]
fn v14_retry_adds_final_breath_to_last_line_override_only() {
    let overrides = vec!["primeira linha".to_string(), "ultima linha".to_string()];

    let next = line_overrides_with_final_breath(&overrides, 2);

    assert_eq!(next[0], "primeira linha");
    assert_eq!(next[1], "ultima linha ...");
}

#[test]
fn cleans_reference_text_like_v14_prompt_text() {
    assert_eq!(clean_reference_text(" Olá, mundo!!!  Teste-42\nnovo."), "Olá mundo Teste42 novo");
}

#[test]
fn detects_clone_usage_from_global_or_line_settings() {
    let mut global_mode = VoiceMode::default();
    assert!(v14_synthesis_uses_clone(global_mode, &vec![]));

    global_mode = VoiceMode::Auto;
    let clone_line = VoiceMode::default();

    assert!(!v14_synthesis_uses_clone(global_mode, &vec![]));
    assert!(v14_synthesis_uses_clone(global_mode, &vec![clone_line]));
}

#[test]
fn breath_on_later_attempts_and_blank_lines() {
    assert_eq!(synthesis_text_with_final_breath("  fala  ", 5), "fala . .");
    assert_eq!(synthesis_text_with_final_breath("   ", 3), "");
    let lines = vec!["fala".to_string(), "   ".to_string()];
    assert_eq!(
        line_overrides_with_final_breath(&lines, 1),
        vec!["fala .".to_string(), "   ".to_string()]
    );
    assert_eq!(line_overrides_with_final_breath(&lines, 0), lines);
}

#[test]
fn guard_retries_until_six_attempts() {
    let (mut guard, first) = V14Guard::start();
    assert!(matches!(first, V14Action::Synthesize(0)));
    for expected in 1..6 {
        match guard.step(V14Event::AttemptRejected(format!("falha {expected}"))) {
            V14Action::Synthesize(index) => assert_eq!(index, expected),
            _ => panic!("expected another attempt"),
        }
    }
    match guard.step(V14Event::SynthesisFailed("sem audio".to_string())) {
        V14Action::Fail(AppError::Internal(message)) => {
            assert_eq!(message, "Sintese v14 reprovada apos 6 tentativas: sem audio")
        }
        _ => panic!("expected the line to fail"),
    }
}

#[test]
fn guard_finishes_or_aborts() {
    let (mut guard, _) = V14Guard::start();
    assert!(matches!(guard.step(V14Event::AttemptAccepted), V14Action::Finish));
    let (mut other, _) = V14Guard::start();
    assert!(matches!(other.step(V14Event::Cancelled), V14Action::Abort));
}

#[test]
fn attempt_files_sit_beside_the_output() {
    let output = vec!["saida".to_string(), "linha.wav".to_string()];
    assert_eq!(
        synthesis_attempt_path(&output, "job-1", 3),
        vec!["saida".to_string(), "linha.job-1.attempt-3.wav".to_string()]
    );
    assert_eq!(
        synthesis_reference_path(&output, "job-1"),
        vec!["saida".to_string(), "linha.job-1.reference.wav".to_string()]
    );
    assert_eq!(
        synthesis_attempt_path(&vec![], "j", 1),
        vec!["dub.j.attempt-1.wav".to_string()]
    );
}

#[test]
fn applies_text_options_then_source_punctuation() {
    let options = TextOptions { comma_before_question: false, palatalize: true, trailing_period: false };
    let text = apply_text_options("Voce bati agora?".to_string(), "Did you?".to_string(), &options)
        .expect("valid text");
    assert_eq!(text, "Voce batchi agora?");
    let comma = TextOptions { comma_before_question: true, palatalize: false, trailing_period: false };
    assert_eq!(
        apply_text_options("Tudo bem?".to_string(), "Okay?".to_string(), &comma).expect("valid"),
        "Tudo bem?"
    );
    let period = TextOptions { comma_before_question: false, palatalize: false, trailing_period: true };
    assert_eq!(
        apply_text_options("Ola  ".to_string(), "Hi".to_string(), &period).expect("valid"),
        "Ola"
    );
    let error = apply_text_options("Ola [angry]".to_string(), "Hi.".to_string(), &period)
        .expect_err("unknown tag");
    assert!(error.message().contains("[angry]"));
}

#[test]
fn cleans_reference_text_with_given_letters() {
    let text = "a-b c";
    let flags = vec![true, false, true, false, true];
    assert_eq!(dublagem::attempts::clean_reference_text_with(text, &flags), "ab c");
    assert_eq!(dublagem::attempts::clean_reference_text_with("x y", &vec![false, false, false]), "");
}

#[test]
fn reference_text_prefers_what_was_heard() {
    let r = v14_reference_text(ReferenceHearing::Heard("  Olá,   mundo! ".to_string()), "Fonte.");
    assert!(matches!(r, Ok(Some(ref t)) if t == "Olá mundo"));
}

#[test]
fn reference_text_falls_back_to_source_line() {
    let r = v14_reference_text(ReferenceHearing::Heard(" ... ".to_string()), "Hello, there!");
    assert!(matches!(r, Ok(Some(ref t)) if t == "Hello there"));
    let r = v14_reference_text(
        ReferenceHearing::Failed(AppError::Io("falhou".to_string())),
        "Hello, there!",
    );
    assert!(matches!(r, Ok(Some(ref t)) if t == "Hello there"));
}

#[test]
fn reference_text_reports_when_nothing_is_usable() {
    let r = v14_reference_text(ReferenceHearing::Heard("?!".to_string()), "...");
    assert!(matches!(
        r,
        Err(AppError::SpeechEngineUnavailable(ref m))
            if m == "Whisper nao obteve texto para a referencia curta v14"
    ));
    let r = v14_reference_text(ReferenceHearing::Failed(AppError::Io("falhou".to_string())), "");
    assert!(matches!(r, Err(AppError::Io(ref m)) if m == "falhou"));
}

#[test]
fn reference_text_is_absent_after_cancellation() {
    assert!(matches!(v14_reference_text(ReferenceHearing::Cancelled, "Fonte."), Ok(None)));
}

#[test]
fn attempt_files_fall_back_to_dub_without_a_file_name() {
    assert_eq!(
        synthesis_attempt_path(&vec!["saida".to_string(), "..".to_string()], "j", 2),
        vec!["saida".to_string(), "dub.j.attempt-2.wav".to_string()]
    );
    assert_eq!(
        synthesis_reference_path(&vec!["/".to_string()], "j"),
        vec!["dub.j.reference.wav".to_string()]
    );
}
