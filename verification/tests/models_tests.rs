use dublagem::models::{
    check_manifest_schema, compare_file_hash, conventional_model_paths, ensure_dir, ensure_file,
    expected_file_hash, is_sha256, is_usable_model_dir, missing_model_error,
    model_dir_or_discovered, resolve_entry, ManifestModelKey, ModelDirLayout,
};
use dublagem::speech::{ptbr_voice_profiles, synthesis_progress_message, SynthesisProgress};
use dublagem::error::AppError;

#[test]
fn stale_model_dir_gives_way_to_discovered_models() {
    let stale = vec!["D:".to_string(), "models".to_string()];
    let found = vec!["portable".to_string(), "models".to_string()];
    assert_eq!(model_dir_or_discovered(Some(stale.clone()), false, Some(found.clone())), Some(found.clone()));
    assert_eq!(model_dir_or_discovered(Some(stale.clone()), true, Some(found.clone())), Some(stale.clone()));
    assert_eq!(model_dir_or_discovered(Some(stale.clone()), false, None), Some(stale));
    assert_eq!(model_dir_or_discovered(None, false, Some(found.clone())), Some(found));
}

#[test]
fn usable_model_layouts() {
    let manifested = ModelDirLayout {
        is_dir: true,
        has_manifest_file: true,
        has_whisper_file: false,
        has_whisper_vad_file: false,
        has_omnivoice_dir: false,
    };
    assert!(is_usable_model_dir(&manifested));
    let conventional = ModelDirLayout {
        is_dir: true,
        has_manifest_file: false,
        has_whisper_file: true,
        has_whisper_vad_file: true,
        has_omnivoice_dir: true,
    };
    assert!(is_usable_model_dir(&conventional));
    let partial = ModelDirLayout { has_omnivoice_dir: false, ..conventional };
    assert!(!is_usable_model_dir(&partial));
}

#[test]
fn conventional_layout_paths() {
    let paths = conventional_model_paths(&vec!["m".to_string()]);
    assert_eq!(paths.whisper_model_path, vec!["m", "whisper", "ggml-large-v3.bin"]);
    assert_eq!(paths.whisper_vad_model_path, vec!["m", "whisper", "ggml-silero-v6.2.0.bin"]);
    assert_eq!(paths.omnivoice_model_dir, vec!["m", "omnivoice"]);
}

#[test]
fn missing_models_are_reported() {
    let error = ensure_file(false, "/m/whisper/ggml-large-v3.bin", "whisper-rs ggml large-v3")
        .expect_err("missing");
    assert!(error.message().contains("whisper-rs ggml large-v3"));
    assert!(ensure_file(true, "x", "y").is_ok());
    assert!(ensure_dir(false, "/m/omnivoice", "OmniVoice Candle").is_err());
    match missing_model_error("modelo", "/x") {
        AppError::SpeechEngineUnavailable(message) => assert_eq!(
            message,
            "modelo ainda não foi provisionado. Caminho esperado: /x. Baixe e registre o modelo antes de executar aprendizado de máquina local."
        ),
        _ => panic!("unexpected error kind"),
    }
}

#[test]
fn reads_the_manifest_entries() {
    assert!(check_manifest_schema(1).is_ok());
    assert!(check_manifest_schema(2).expect_err("v2").message().contains("schemaVersion 2"));
    let entries = vec![
        ManifestModelKey { id: "a".to_string(), engine: "x".to_string() },
        ManifestModelKey { id: "whisper-large-v3-ggml".to_string(), engine: "whisper-rs".to_string() },
    ];
    assert_eq!(resolve_entry(&entries, "whisper-large-v3-ggml", "whisper-rs").ok(), Some(1));
    let missing = resolve_entry(&entries, "omnivoice-candle", "omnivoice-candle").expect_err("absent");
    assert!(missing.message().contains("sem entrada omnivoice-candle para omnivoice-candle"));
}

#[test]
fn checks_sha256_texts_and_digests() {
    let hex = "A".repeat(64);
    assert!(is_sha256(&hex));
    assert!(!is_sha256("abc"));
    assert!(!is_sha256(&"g".repeat(64)));
    assert_eq!(expected_file_hash("f", None).ok(), Some(None));
    assert!(expected_file_hash("f", Some("zz")).is_err());
    let lower = expected_file_hash("f", Some(&"0A".repeat(32))).expect("valid").expect("some");
    assert_eq!(lower, "0a".repeat(32));
    let digest = [0x0au8; 32];
    assert!(compare_file_hash("f", &lower, &digest).is_ok());
    assert!(compare_file_hash("f", &"00".repeat(32), &digest).is_err());
}

#[test]
fn speech_progress_and_stock_voices() {
    let progress = SynthesisProgress::new(0, 0);
    assert_eq!(progress.total_segments, 1);
    assert_eq!(synthesis_progress_message(progress), "Sintese GPU v14: request unico preparado.");
    assert_eq!(
        synthesis_progress_message(SynthesisProgress::new(2, 5)),
        "Sintese GPU v14: request 2 de 5 concluido."
    );
    assert_eq!(
        synthesis_progress_message(SynthesisProgress::new(0, 4)),
        "Sintese GPU v14: 4 requests preparados."
    );
    let profiles = ptbr_voice_profiles();
    assert_eq!(profiles.len(), 6);
    assert_eq!(profiles[0].id, "male_adult");
    assert_eq!(profiles[5].reference_text, "Que dia lindo para uma aventura nova!");
}
