use dublagem::plan::plan_synthesis_chunks;
use dublagem::segments::LineText;
use dublagem::tags::strip_omnivoice_native_tags;

fn override_line(line_index: usize, target_text: &str, tags: &[&str]) -> LineText {
    LineText {
        line_index,
        target_text: target_text.to_string(),
        tags: tags.iter().map(|t| t.to_string()).collect(),
    }
}

#[test]
fn whole_file_synthesis_uses_single_omnivoice_segment() {
    let text = "Primeira frase. Segunda frase longa para simular um arquivo maior. Terceira frase para garantir que o texto permaneça em uma única síntese dentro do limite oficial. Quarta frase para preservar pontuação natural.";
    let chunks = plan_synthesis_chunks(
        text,
        "Original first sentence. Original second sentence.",
        &Vec::new(),
        &Vec::new(),
        1,
        1,
    );
    assert_eq!(chunks.len(), 1);
    assert_eq!(chunks[0].text, text);
    assert!(chunks[0].text.ends_with('.'));
    assert_eq!(chunks[0].source_text, "Original first sentence. Original second sentence.");
    assert_eq!((chunks[0].first_window, chunks[0].last_window), (0, 0));
    assert_eq!((chunks[0].chunk_index, chunks[0].total_chunks), (1, 1));
    assert_eq!(chunks[0].settings_line, None);
}

#[test]
fn whole_file_synthesis_merges_excess_acoustic_windows_for_single_text_unit() {
    let chunks = plan_synthesis_chunks(
        "Fique em guarda enquanto a névoa baixa",
        "Stay alert while the fog drops.",
        &Vec::new(),
        &Vec::new(),
        3,
        1,
    );
    assert_eq!(chunks.len(), 1);
    assert_eq!(chunks[0].text, "Fique em guarda enquanto a névoa baixa.");
    assert_eq!((chunks[0].first_window, chunks[0].last_window), (0, 2));
}

#[test]
fn whole_file_synthesis_prefers_comma_boundary_without_repeated_words() {
    let chunks = plan_synthesis_chunks(
        "Uno com a natureza, mas nunca vi uma meditação tão poderosa antes.",
        "One with nature, but I have never seen meditation this powerful before.",
        &Vec::new(),
        &Vec::new(),
        3,
        1,
    );
    assert_eq!(chunks.len(), 2);
    assert_eq!(chunks[0].text, "Uno com a natureza.");
    assert_eq!(chunks[1].text, "mas nunca vi uma meditação tão poderosa antes.");
    assert!(!chunks[0].text.contains("nunca"));
    assert_eq!(chunks[0].source_text, "One with nature,");
    assert_eq!(chunks[1].source_text, "but I have never seen meditation this powerful before.");
    assert_eq!((chunks[0].first_window, chunks[0].last_window), (0, 0));
    assert_eq!((chunks[1].first_window, chunks[1].last_window), (1, 2));
    assert_eq!((chunks[1].chunk_index, chunks[1].total_chunks), (2, 2));
}

#[test]
fn line_overrides_become_independent_segments_with_line_settings() {
    let lines = vec![
        override_line(0, "[sigh] Primeira frase.", &["[sigh]"]),
        override_line(1, "Segunda frase.", &[]),
    ];
    let chunks = plan_synthesis_chunks(
        "Primeira frase. Segunda frase.",
        "Original first sentence. Original second sentence.",
        &Vec::new(),
        &lines,
        2,
        1,
    );
    assert_eq!(chunks.len(), 2);
    assert_eq!(chunks[0].text, "[sigh] Primeira frase.");
    assert_eq!(chunks[0].settings_line, Some(0));
    assert_eq!(chunks[1].text, "Segunda frase.");
    assert_eq!(chunks[1].settings_line, Some(1));
    assert_eq!(chunks[0].source_text, "Original first sentence.");
    assert_eq!(chunks[1].source_text, "Original second sentence.");
}

#[test]
fn whole_file_synthesis_preserves_inline_native_tags() {
    let chunks = plan_synthesis_chunks("[sigh] Ola [question-ah]?", "Original.", &Vec::new(), &Vec::new(), 1, 1);
    assert_eq!(chunks[0].text, "[sigh] Ola [question-ah]?");
}

#[test]
fn pinned_tags_are_applied_to_whole_file_synthesis() {
    let chunks = plan_synthesis_chunks("Ola mundo", "Original.", &vec!["[sigh]".to_string()], &Vec::new(), 1, 1);
    assert_eq!(chunks[0].text, "[sigh] Ola mundo.");
}

#[test]
fn sanitized_fallback_line_overrides_strip_native_tags() {
    let lines = vec![override_line(0, &strip_omnivoice_native_tags("Ola [surprise-oh] mundo."), &[])];
    let chunks = plan_synthesis_chunks("Fallback sem marcador.", "Original.", &Vec::new(), &lines, 1, 1);
    assert_eq!(chunks.len(), 1);
    assert_eq!(chunks[0].text, "Ola mundo.");
}

#[test]
fn blank_overrides_fall_back_to_the_whole_line() {
    let lines = vec![override_line(0, "   ", &[])];
    let chunks = plan_synthesis_chunks("Texto inteiro", "Original.", &Vec::new(), &lines, 1, 1);
    assert_eq!(chunks.len(), 1);
    assert_eq!(chunks[0].text, "Texto inteiro.");
    assert_eq!(chunks[0].settings_line, None);
}

#[test]
fn nothing_to_plan_without_text_or_windows() {
    assert!(plan_synthesis_chunks("   ", "Original.", &Vec::new(), &Vec::new(), 2, 1).is_empty());
    assert!(plan_synthesis_chunks("Texto.", "Original.", &Vec::new(), &Vec::new(), 0, 1).is_empty());
}

#[test]
fn whole_file_synthesis_accepts_long_form_duration_for_chunked_inference() {
    // One speech window a little longer than a single request may take:
    // its span asks for two chunks, but a plan never cuts a window in two.
    let chunks = plan_synthesis_chunks("Texto acima do limite.", "Original.", &Vec::new(), &Vec::new(), 1, 2);
    assert_eq!(chunks.len(), 1);
    assert_eq!(chunks[0].text, "Texto acima do limite.");
    assert_eq!((chunks[0].first_window, chunks[0].last_window), (0, 0));
}
