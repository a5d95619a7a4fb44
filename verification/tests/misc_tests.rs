use sha2::Digest;
use dublagem::reports::{
    exit_status_line, panic_dialog_message, report_line, truncate_dialog_message, wide_null,
    windows_exit_code_hex,
};
use dublagem::translation::{
    cloud_translate_endpoint, compat_language_codes, extract_google_translate_text,
    identity_translation, CloudCredentials,
};
use dublagem::preview::{preview_file_name, preview_line_file_name};
use dublagem::domain::{validate_integer_range, validate_voice_instruction, LanguageCode, TranslationRequest, VoiceMode};
use dublagem::segments::{alignment_artifact_dir, segment_artifact_path};
use dublagem::speech::{design_instruct, voice_clone_prompt_for};
use dublagem::error::AppError;

#[test]
fn extracts_google_translate_compat_segments() {
    let payload: serde_json::Value = serde_json::from_str(
        r#"[[["Ola", "Hello", null, null], [" mundo", " world", null, null]]]"#,
    )
    .expect("payload");
    let segments = payload.get(0).and_then(serde_json::Value::as_array).map(|segments| {
        segments
            .iter()
            .map(|segment| segment.get(0).and_then(serde_json::Value::as_str).map(str::to_string))
            .collect::<Vec<_>>()
    });

    assert_eq!(extract_google_translate_text(segments).unwrap(), "Ola mundo");
}

#[test]
fn rejects_replies_without_text() {
    assert!(extract_google_translate_text(None).is_err());
    assert!(extract_google_translate_text(Some(vec![None, Some("  ".to_string())])).is_err());
}

#[test]
fn same_language_needs_no_translation() {
    let request = TranslationRequest {
        text: "Ola".to_string(),
        source_language: LanguageCode::Pt,
        target_language: LanguageCode::Pt,
    };
    let result = identity_translation(&request).expect("identity");
    assert_eq!(result.translated_text, "Ola");
    assert_eq!(result.provider, "identity");
    let other = TranslationRequest { target_language: LanguageCode::En, ..request };
    assert!(identity_translation(&other).is_none());
    assert_eq!(compat_language_codes(LanguageCode::Auto, LanguageCode::Pt).ok(), Some(("auto", "pt")));
    assert!(compat_language_codes(LanguageCode::En, LanguageCode::Auto).is_err());
}

#[test]
fn cloud_credentials_need_both_values() {
    let missing = CloudCredentials { project_id: Some("p".to_string()), access_token: Some(String::new()) };
    assert!(!missing.is_configured());
    assert!(missing.credentials().expect_err("missing").message().contains("GOOGLE_CLOUD_ACCESS_TOKEN"));
    let full = CloudCredentials { project_id: Some("p".to_string()), access_token: Some("t".to_string()) };
    assert!(full.is_configured());
    assert_eq!(full.credentials().ok(), Some(("p".to_string(), "t".to_string())));
    assert_eq!(
        cloud_translate_endpoint("p"),
        "https://translation.googleapis.com/v3/projects/p:translateText"
    );
}

#[test]
fn formats_crash_texts() {
    assert_eq!(windows_exit_code_hex(-1073741819), "0xC0000005");
    assert_eq!(windows_exit_code_hex(1), "0x00000001");
    assert_eq!(exit_status_line(Some(-1073741819)), "Código de saída: -1073741819 (0xC0000005)");
    assert_eq!(exit_status_line(None), "Processo finalizado sem código de saída disponível.");
    assert_eq!(report_line(Some("/tmp/r.log")), "Relatório: /tmp/r.log");
    assert_eq!(report_line(None), "Relatório: não foi possível gravar o arquivo de diagnóstico.");
    let message = panic_dialog_message("boom", "main.rs:1:1", None);
    assert!(message.starts_with("O aplicativo encontrou um erro fatal"));
    assert!(message.contains("Erro: boom\nLocal: main.rs:1:1\n"));
}

#[test]
fn truncates_long_dialog_messages() {
    let long = "é".repeat(2000);
    let cut = truncate_dialog_message(&long);
    assert_eq!(cut.chars().count(), 1804);
    assert!(cut.ends_with("\n..."));
    assert_eq!(truncate_dialog_message("curto"), "curto");
}

#[test]
fn encodes_wide_text_with_terminator() {
    assert_eq!(wide_null("A"), vec![65, 0]);
    assert_eq!(wide_null("😀"), vec![0xD83D, 0xDE00, 0]);
    let expected: Vec<u16> = "Olá".encode_utf16().chain(std::iter::once(0)).collect();
    assert_eq!(wide_null("Olá"), expected);
}

#[test]
fn preview_names_carry_a_fingerprint() {
    let name = preview_file_name("/audio/fala 1.wav", 10, Some(5));
    assert!(name.starts_with("fala_1-"));
    assert!(name.ends_with(".wav"));
    assert_eq!(name.len(), "fala_1-".len() + 16 + ".wav".len());
    let other = preview_file_name("/audio/fala 1.wav", 11, Some(5));
    assert_ne!(name, other);
    assert!(preview_file_name("/", 0, None).starts_with("preview-"));
    assert!(preview_file_name("/a/..", 0, None).ends_with(".audio"));
    let line = preview_line_file_name("/a.wav", "Ola", &vec!["[sigh]".to_string()], "settings");
    assert!(line.starts_with("line-preview-"));
    assert!(line.ends_with(".wav"));
    assert_ne!(line, preview_line_file_name("/a.wav", "Ola", &vec![], "settings"));
}

#[test]
fn preview_fingerprint_is_the_sha256_prefix() {
    let mut data = "/x".as_bytes().to_vec();
    data.extend_from_slice(&3u64.to_le_bytes());
    let digest = sha2::Sha256::digest(&data);
    let fingerprint: String = digest.iter().take(8).map(|byte| format!("{byte:02x}")).collect();
    assert_eq!(preview_file_name("/x", 3, None), format!("x-{fingerprint}.audio"));
}

#[test]
fn validates_integer_ranges_and_designed_voices() {
    assert!(validate_integer_range("maxSynthesisChunks", 3, 1, 20).is_ok());
    assert_eq!(
        validate_integer_range("maxSynthesisChunks", 0, 1, 20),
        Err("maxSynthesisChunks deve ficar entre 1 e 20".to_string())
    );
    assert!(validate_voice_instruction(VoiceMode::Design, Some("  ")).is_err());
    assert!(validate_voice_instruction(VoiceMode::Design, Some("voz grave")).is_ok());
    assert!(validate_voice_instruction(VoiceMode::Clone, None).is_ok());
}

#[test]
fn alignment_chunks_sit_beside_the_output() {
    assert_eq!(
        alignment_artifact_dir(&vec!["saida".to_string(), "fala 1.wav".to_string()]),
        vec!["saida".to_string(), "fala_1.alignment_chunks".to_string()]
    );
    assert_eq!(
        alignment_artifact_dir(&vec!["__.wav".to_string()]),
        vec![".".to_string(), "audio.alignment_chunks".to_string()]
    );
}

#[test]
fn names_previews_from_a_digest() {
    let digest: Vec<u8> = (0u8..32).collect();
    assert_eq!(
        dublagem::preview::preview_name_from_digest(&digest, Some("voz.MP3")),
        "voz-0001020304050607.MP3"
    );
    assert_eq!(
        dublagem::preview::line_preview_name_from_digest(&digest),
        "line-preview-0001020304050607.wav"
    );
}

#[test]
fn names_segment_artifacts_with_padded_chunk_numbers() {
    let dir = vec!["out".to_string(), "a.alignment_chunks".to_string()];
    assert_eq!(
        segment_artifact_path(&dir, 7, "source audio"),
        vec!["out".to_string(), "a.alignment_chunks".to_string(), "0007-source_audio.wav".to_string()]
    );
    assert_eq!(
        segment_artifact_path(&dir, 12345, "__tts__"),
        vec!["out".to_string(), "a.alignment_chunks".to_string(), "12345-tts.wav".to_string()]
    );
}

#[test]
fn design_instruction_only_for_designed_voices() {
    assert_eq!(design_instruct(VoiceMode::Design, Some("  voz grave  ")), Some("voz grave".to_string()));
    assert_eq!(design_instruct(VoiceMode::Design, Some("   ")), None);
    assert_eq!(design_instruct(VoiceMode::Design, None), None);
    assert_eq!(design_instruct(VoiceMode::Clone, Some("voz grave")), None);
    assert_eq!(design_instruct(VoiceMode::Auto, Some("voz grave")), None);
}

#[test]
fn clone_prompt_is_required_only_for_cloned_voices() {
    let prompt = 42u32;
    assert!(matches!(voice_clone_prompt_for(VoiceMode::Clone, Some(&prompt)), Ok(Some(&42))));
    assert!(matches!(voice_clone_prompt_for::<u32>(VoiceMode::Design, Some(&prompt)), Ok(None)));
    assert!(matches!(voice_clone_prompt_for::<u32>(VoiceMode::Auto, None), Ok(None)));
    assert!(matches!(
        voice_clone_prompt_for::<u32>(VoiceMode::Clone, None),
        Err(AppError::SpeechEngineUnavailable(ref m)) if m == "instrução de voz clonada indisponível"
    ));
}
