use dublagem::layout::{
    approved_output_candidates, approved_output_path, chunk_count_from_folder_name,
    chunk_folder_name, ignored_output_path, metadata_path, output_artifact_from_probes,
    output_artifact_probes, rejected_output_path, APPROVED_DIR_NAME, IGNORED_DIR_NAME,
    REJECTED_DIR_NAME,
};
use dublagem::domain::AudioFileStatus;

fn parts(items: &[&str]) -> Vec<String> {
    items.iter().map(|item| item.to_string()).collect()
}

#[test]
fn resolves_approved_output_under_chunk_folder() {
    let path = approved_output_path(
        &vec![r"E:\audio\saida".to_string()],
        "unique_kliff_0090_0120_player_00000.wav",
        2,
    );

    assert!(path.ends_with(&parts(&[
        APPROVED_DIR_NAME,
        "Chunk 2",
        "unique_kliff_0090_0120_player_00000.wav"
    ])));
}

#[test]
fn names_chunk_folders_and_reads_them_back() {
    assert_eq!(chunk_folder_name(0), "Chunk 1");
    assert_eq!(chunk_folder_name(12), "Chunk 12");
    assert_eq!(chunk_count_from_folder_name("Chunk 12"), Some(12));
    assert_eq!(chunk_count_from_folder_name("Chunk +3"), Some(3));
    assert_eq!(chunk_count_from_folder_name("Chunk 0"), None);
    assert_eq!(chunk_count_from_folder_name("Chunk x"), None);
    assert_eq!(chunk_count_from_folder_name("chunk 2"), None);
}

#[test]
fn places_ignored_rejected_and_metadata_files() {
    let out = parts(&["saida"]);
    assert_eq!(ignored_output_path(&out, "a.wav"), parts(&["saida", IGNORED_DIR_NAME, "a.wav"]));
    assert_eq!(rejected_output_path(&out, "a.wav"), parts(&["saida", REJECTED_DIR_NAME, "a.wav"]));
    assert_eq!(metadata_path(&out), parts(&["saida", "nsg_dub_project.json"]));
}

#[test]
fn searches_preferred_folder_then_others_by_chunk_count() {
    let out = parts(&["saida"]);
    let folders = parts(&["Chunk 12", "notas", "Chunk 2", "Chunk 03", "Chunk 3"]);
    let candidates = approved_output_candidates(&out, "a.wav", 3, &folders);
    assert_eq!(
        candidates,
        vec![
            parts(&["saida", "Aprovados", "Chunk 3", "a.wav"]),
            parts(&["saida", "Aprovados", "Chunk 2", "a.wav"]),
            parts(&["saida", "Aprovados", "Chunk 03", "a.wav"]),
            parts(&["saida", "Aprovados", "Chunk 12", "a.wav"]),
        ]
    );
}

#[test]
fn first_existing_output_decides_the_state() {
    let out = parts(&["saida"]);
    let probes = output_artifact_probes(&out, "a.wav", 1, &parts(&["Chunk 4"]));
    assert_eq!(probes.len(), 4);
    let none = output_artifact_from_probes(probes.clone(), &vec![false, false, false, false]);
    assert_eq!(none.status, AudioFileStatus::Pending);
    assert!(none.path.is_none());
    let dubbed = output_artifact_from_probes(probes.clone(), &vec![false, false, false, true]);
    assert_eq!(dubbed.status, AudioFileStatus::Dubbed);
    assert_eq!(dubbed.path, Some(parts(&["saida", "Aprovados", "Chunk 4", "a.wav"])));
    let rejected = output_artifact_from_probes(probes, &vec![true, true, false, true]);
    assert_eq!(rejected.status, AudioFileStatus::Rejected);
}
