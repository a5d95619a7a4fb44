use dublagem::units::{
    alignment_chunk_count, blank_units, combine_text_units, merge_tiny_text_units, rebalance_text_units,
    rebalance_window_groups, scaled_source_index, split_text_candidates,
    split_text_candidates_with_soft_boundaries, split_text_units, word_count,
};

fn owned(parts: &[&str]) -> Vec<String> {
    parts.iter().map(|p| p.to_string()).collect()
}

const NATURE: &str = "Uno com a natureza, mas nunca vi uma meditação tão poderosa antes.";

#[test]
fn counts_words_between_any_whitespace() {
    assert_eq!(word_count("  um\tdois\n tres "), 3);
    assert_eq!(word_count("   "), 0);
}

#[test]
fn folds_tiny_units_into_their_neighbours() {
    let merged = merge_tiny_text_units(owned(&["Oi.", "Tudo bem com você?", "Sim."]));
    assert_eq!(merged, owned(&["Oi. Tudo bem com você? Sim."]));
}

#[test]
fn folding_keeps_units_of_three_words_apart() {
    let units = owned(&["Uno com a natureza,", "mas nunca vi uma meditação tão poderosa antes."]);
    assert_eq!(merge_tiny_text_units(units.clone()), units);
}

#[test]
fn folding_keeps_every_word_in_order() {
    let units = owned(&["Oi,", "tudo bem", "com você hoje?", "Sim", "claro."]);
    let merged = merge_tiny_text_units(units.clone());
    assert!(merged.len() > 1);
    assert!(merged.iter().all(|unit| word_count(unit) >= 3));
    let before: Vec<&str> = units.iter().flat_map(|u| u.split_whitespace()).collect();
    let after: Vec<&str> = merged.iter().flat_map(|u| u.split_whitespace()).collect();
    assert_eq!(before, after);
    assert_eq!(merged, owned(&["Oi, tudo bem", "com você hoje? Sim claro."]));
}

#[test]
fn cuts_at_clause_marks_only_when_asked() {
    assert_eq!(split_text_candidates(NATURE), owned(&[NATURE]));
    assert_eq!(
        split_text_candidates_with_soft_boundaries(NATURE),
        owned(&["Uno com a natureza,", "mas nunca vi uma meditação tão poderosa antes."])
    );
}

#[test]
fn cuts_at_sentence_marks_and_collapses_spaces() {
    assert_eq!(
        split_text_candidates("Fique  em guarda agora. Vamos   sair daqui!  "),
        owned(&["Fique em guarda agora.", "Vamos sair daqui!"])
    );
    assert_eq!(split_text_candidates("   "), Vec::<String>::new());
}

#[test]
fn rebalancing_splits_one_unit_at_a_comma() {
    assert_eq!(
        rebalance_text_units(owned(&[NATURE]), 2),
        owned(&["Uno com a natureza,", "mas nunca vi uma meditação tão poderosa antes."])
    );
}

#[test]
fn rebalancing_edge_cases() {
    assert_eq!(rebalance_text_units(owned(&["a b c"]), 0), Vec::<String>::new());
    assert_eq!(rebalance_text_units(owned(&["  ", ""]), 2), owned(&["", ""]));
    assert_eq!(rebalance_text_units(owned(&["um", " ", "dois"]), 2), owned(&["um", "dois"]));
    assert_eq!(
        rebalance_text_units(owned(&["a.", "b.", "c."]), 2),
        owned(&["a.", "b. c."])
    );
}

#[test]
fn splitting_falls_back_to_words() {
    assert_eq!(
        split_text_units("um dois três quatro cinco".to_string(), 2),
        owned(&["um dois", "três quatro cinco"])
    );
    assert_eq!(split_text_units("   ".to_string(), 3), owned(&["", "", ""]));
}

#[test]
fn combining_shares_units_in_order() {
    assert_eq!(
        combine_text_units(owned(&["a", "b", "c", "d", "e"]), 2),
        owned(&["a b", "c d e"])
    );
    assert_eq!(blank_units(2), owned(&["", ""]));
}

#[test]
fn scales_indices_and_groups_windows() {
    assert_eq!(scaled_source_index(2, 3, 2), 2);
    assert_eq!(scaled_source_index(1, 4, 2), 2);
    assert_eq!(scaled_source_index(3, 1, 5), 0);
    assert_eq!(scaled_source_index(3, 4, 0), 0);
    assert_eq!(rebalance_window_groups(3, 2), vec![(0, 0), (1, 2)]);
    assert_eq!(rebalance_window_groups(2, 3), vec![(0, 0), (1, 1)]);
}

#[test]
fn alignment_chunks_follow_clauses_within_window_limits() {
    assert_eq!(alignment_chunk_count(0, 3, false, Some(NATURE), 1), 0);
    assert_eq!(alignment_chunk_count(3, 1, false, Some(NATURE), 1), 2);
    assert_eq!(alignment_chunk_count(3, 3, false, Some(NATURE), 1), 3);
    assert_eq!(alignment_chunk_count(1, 1, false, Some(NATURE), 1), 1);
    assert_eq!(alignment_chunk_count(5, 1, false, None, 1), 1);
    assert_eq!(alignment_chunk_count(5, 0, true, Some(NATURE), 4), 4);
    assert_eq!(alignment_chunk_count(5, 0, true, None, 0), 1);
    assert_eq!(alignment_chunk_count(2, 0, false, Some("   "), 1), 1);
}
