use dublagem::audio::{
    audio_family_from_filename, dubbed_output_path, final_guard_ms, is_audio_file, ms_to_samples,
    samples_to_ms, timing_profile_spans,
};

#[test]
fn extracts_audio_families_from_known_game_names() {
    let cases = [
        ("_ancientstonegolem_9000_boss_00_00001.wav", "ancientstonegolem"),
        ("dragon_common_dragon_boss_9000_narration_00005.wav", "dragon_common_dragon_boss"),
        ("ndw_adult_1_questdialog_hello_00664.wav", "ndw_adult_1"),
        ("unique_kliff_0090_0120_player_00000.wav", "unique_kliff"),
    ];

    for (filename, expected) in cases {
        assert_eq!(audio_family_from_filename(filename), expected);
    }
}

#[test]
fn builds_dubbed_output_path_inside_family_folder() {
    let path = dubbed_output_path(
        &vec![r"E:\audio\saida".to_string()],
        "unique_kliff_0090_0120_player_00000.wav",
    );

    assert!(path.ends_with(&[
        "unique_kliff".to_string(),
        "unique_kliff_0090_0120_player_00000.wav".to_string()
    ]));
}

#[test]
fn family_falls_back_for_names_without_words() {
    assert_eq!(audio_family_from_filename("_00001.wav"), "outros");
}

#[test]
fn recognises_audio_extensions_case_insensitively() {
    assert!(is_audio_file("fala.WAV"));
    assert!(is_audio_file("fala.mp3"));
    assert!(!is_audio_file("notas.txt"));
    assert!(!is_audio_file("semextensao"));
}

#[test]
fn converts_between_samples_and_milliseconds() {
    assert_eq!(samples_to_ms(24_000, 24_000), 1_000);
    assert_eq!(samples_to_ms(12, 24_000), 1);
    assert_eq!(samples_to_ms(100, 0), 0);
    assert_eq!(ms_to_samples(1_500, 16_000), 24_000);
    assert_eq!(samples_to_ms(ms_to_samples(250, 24_000), 24_000), 250);
}

#[test]
fn guard_stays_between_limits() {
    assert_eq!(final_guard_ms(0), 120);
    assert_eq!(final_guard_ms(10), 80);
    assert_eq!(final_guard_ms(200), 200);
    assert_eq!(final_guard_ms(1_000), 450);
}

#[test]
fn families_are_read_in_lower_case() {
    assert_eq!(audio_family_from_filename("Unique_Kliff_0090_0120_Player_00000.WAV"), "unique_kliff");
    assert_eq!(dublagem::audio::audio_family_from_lowered("ndw_adult_1_questdialog_00664"), "ndw_adult_1");
    assert_eq!(dublagem::audio::audio_family_from_lowered("00001"), "outros");
}

#[test]
fn audio_names_are_read_from_the_last_path_component() {
    assert_eq!(audio_family_from_filename("dir/a_b_00001.wav"), "a_b");
    assert_eq!(audio_family_from_filename("vozes/npc_guarda_00012.wav"), audio_family_from_filename("npc_guarda_00012.wav"));
    assert!(!is_audio_file("a/.wav"));
    assert!(is_audio_file("pasta.mp3/fala.wav"));
    assert!(!is_audio_file("fala.wav/.."));
    assert!(is_audio_file("audio/fala.ogg/."));
    assert!(!is_audio_file("/"));
}

#[test]
fn timing_profile_preserves_guarded_tail_without_truncating_voice() {
    // 1000 samples at 1 kHz: 100 of silence, 700 of voice, 200 of silence.
    assert_eq!(timing_profile_spans(1000, 100, 200, 200), (100, 200, 700));
}

#[test]
fn timing_profile_caps_silences_and_keeps_some_voice() {
    assert_eq!(timing_profile_spans(100, 50, 0, 0), (0, 35, 80));
    assert_eq!(timing_profile_spans(1000, 900, 500, 0), (620, 300, 80));
    assert_eq!(timing_profile_spans(0, 0, 0, 0), (0, 35, 80));
}
