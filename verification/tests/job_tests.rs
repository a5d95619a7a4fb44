use dublagem::domain::{quality_issue_texts, QualityFindings};
use dublagem::error::AppError;
use dublagem::job::{custom_text, require_input_audio};
use dublagem::models::verify_weights_digest;
use dublagem::units::rebalance_text_units;

const ABC_SHA256: &str = "ba7816bf8f01cfea414140de5dae2223b00361a396177a9cb410ff61f20015ad";

#[test]
fn weights_digest_matches_recorded_hash_in_any_case() {
    assert!(verify_weights_digest("w.bin", Some(ABC_SHA256), b"abc").is_ok());
    assert!(verify_weights_digest("w.bin", Some(&ABC_SHA256.to_uppercase()), b"abc").is_ok());
    assert!(verify_weights_digest("w.bin", None, b"abc").is_ok());
}

#[test]
fn weights_digest_mismatch_is_reported() {
    assert!(matches!(
        verify_weights_digest("w.bin", Some(ABC_SHA256), b"abd"),
        Err(AppError::InvalidConfig(ref m)) if m == "sha256 divergente para w.bin"
    ));
}

#[test]
fn malformed_recorded_hash_is_reported() {
    assert!(matches!(
        verify_weights_digest("w.bin", Some("xyz"), b"abc"),
        Err(AppError::InvalidConfig(ref m)) if m == "sha256 invalido no manifesto para w.bin"
    ));
}

#[test]
fn job_needs_an_input_audio() {
    assert!(matches!(
        require_input_audio(0),
        Err(AppError::InvalidConfig(ref m)) if m == "selecione ao menos um audio de origem"
    ));
    assert!(require_input_audio(2).is_ok());
}

#[test]
fn custom_text_is_used_as_typed_unless_blank() {
    assert_eq!(custom_text(Some("  Ola mundo ")), Some("  Ola mundo "));
    assert_eq!(custom_text(Some(" \t ")), None);
    assert_eq!(custom_text(None), None);
}

#[test]
fn quality_issues_follow_the_findings() {
    let findings = QualityFindings {
        silent: false,
        near_clipping: true,
        high_zero_crossing: true,
        too_quiet: false,
        too_loud: true,
    };
    assert_eq!(
        quality_issue_texts(&findings, "0.52"),
        vec![
            "Audio proximo de clipping.".to_string(),
            "ZCR alto demais (0.52).".to_string(),
            "Volume médio alto; pode haver compressão ou distorção.".to_string(),
        ]
    );
    let none = QualityFindings {
        silent: false,
        near_clipping: false,
        high_zero_crossing: false,
        too_quiet: false,
        too_loud: false,
    };
    assert!(quality_issue_texts(&none, "0.10").is_empty());
}

#[test]
fn word_split_rebalancing_keeps_every_word() {
    let units = vec!["um dois".to_string(), "tres".to_string()];
    assert_eq!(
        rebalance_text_units(units, 5),
        vec!["".to_string(), "um".to_string(), "".to_string(), "dois".to_string(), "tres".to_string()]
    );
}

#[test]
fn clause_rebalancing_can_cut_inside_a_word() {
    let units = vec!["um dois tres.quatro cinco seis".to_string()];
    assert_eq!(
        rebalance_text_units(units, 2),
        vec!["um dois tres.".to_string(), "quatro cinco seis".to_string()]
    );
}
