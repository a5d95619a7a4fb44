use dublagem::segments::{global_synthesis_text, line_override_synthesis_segments, LineText};

fn line(line_index: usize, target_text: &str, tags: &[&str]) -> LineText {
    LineText {
        line_index,
        target_text: target_text.to_string(),
        tags: tags.iter().map(|t| t.to_string()).collect(),
    }
}

#[test]
fn whole_file_text_keeps_inline_native_tags() {
    assert_eq!(
        global_synthesis_text(&Vec::new(), "[sigh] Ola [question-ah]?"),
        Some("[sigh] Ola [question-ah]?".to_string())
    );
}

#[test]
fn whole_file_text_gets_pinned_tags_and_final_period() {
    assert_eq!(
        global_synthesis_text(&vec!["[sigh]".to_string()], "Ola   mundo"),
        Some("[sigh] Ola mundo.".to_string())
    );
    assert_eq!(global_synthesis_text(&Vec::new(), "   "), None);
}

#[test]
fn line_overrides_become_segments_in_line_order() {
    let lines = vec![
        line(1, "Segunda frase.", &[]),
        line(0, "[sigh] Primeira frase.", &["[sigh]"]),
        line(2, "   ", &["[sigh]"]),
    ];
    let segments = line_override_synthesis_segments(&Vec::new(), &lines);
    assert_eq!(segments.len(), 2);
    assert_eq!(segments[0].text, "[sigh] Primeira frase.");
    assert_eq!(segments[0].chunk_index, 1);
    assert_eq!(segments[0].source, 1);
    assert_eq!(segments[1].text, "Segunda frase.");
    assert_eq!(segments[1].chunk_index, 2);
    assert_eq!(segments[1].source, 0);
}

#[test]
fn line_overrides_get_pinned_and_own_tags_once() {
    let lines = vec![line(3, "Ola mundo", &["[sigh]", "[surprise-oh]"]), line(3, "De novo,", &[])];
    let segments = line_override_synthesis_segments(&vec!["[sigh]".to_string()], &lines);
    assert_eq!(segments.len(), 2);
    assert_eq!(segments[0].text, "[sigh] [surprise-oh] Ola mundo.");
    assert_eq!(segments[0].source, 0);
    assert_eq!(segments[1].text, "[sigh] De novo.");
    assert_eq!(segments[1].chunk_index, 4);
    assert_eq!(segments[1].source, 1);
}
