use dublagem::error::AppError;
use dublagem::project::{loaded_metadata_version, parse_usize, validate_project_file, validate_project_line};

#[test]
fn project_file_keys_and_texts_are_checked() {
    match validate_project_file("  ", None) {
        Err(AppError::InvalidConfig(message)) => {
            assert_eq!(message, "metadados de projeto contem chave de arquivo vazia")
        }
        _ => panic!("expected an empty key error"),
    }
    assert!(validate_project_file("line.wav", Some("[sigh] Ola")).is_ok());
    assert!(validate_project_file("line.wav", Some("Ola [angry]")).is_err());
    assert!(validate_project_file("line.wav", None).is_ok());
}

#[test]
fn project_lines_need_numeric_keys_and_native_tags() {
    assert!(validate_project_line("line.wav", "0", &vec!["[sigh]".to_string()]).is_ok());
    match validate_project_line("line.wav", "primeira", &vec![]) {
        Err(AppError::InvalidConfig(message)) => {
            assert_eq!(message, "linha invalida em metadados de line.wav: primeira")
        }
        _ => panic!("expected an invalid line error"),
    }
    assert!(validate_project_line("line.wav", "1", &vec!["[shout]".to_string()]).is_err());
}

#[test]
fn reads_line_numbers_and_versions() {
    assert_eq!(parse_usize("42"), Some(42));
    assert_eq!(parse_usize("+7"), Some(7));
    assert_eq!(parse_usize("-1"), None);
    assert_eq!(parse_usize(""), None);
    assert_eq!(parse_usize("18446744073709551616"), None);
    assert_eq!(loaded_metadata_version(0), 1);
    assert_eq!(loaded_metadata_version(3), 3);
}
