use dublagem::error::AppError;
use dublagem::reference::{
    active_sample_blocks, concatenated_block_slices, loud_sample_runs, short_reference_selection,
    truncate_slices,
};

#[test]
fn finds_maximal_loud_runs() {
    assert_eq!(loud_sample_runs(&vec![false, true, true, false, true]), vec![(1, 3), (4, 5)]);
    assert_eq!(loud_sample_runs(&vec![true, true]), vec![(0, 2)]);
    assert_eq!(loud_sample_runs(&vec![false, false]), Vec::<(usize, usize)>::new());
    assert_eq!(loud_sample_runs(&Vec::new()), Vec::<(usize, usize)>::new());
}

#[test]
fn merges_runs_across_short_pauses() {
    let loud = vec![false, true, true, false, true, false, false, false, true];
    // 10 samples a second: a tenth of a second is one sample.
    assert_eq!(active_sample_blocks(&loud, 10), vec![(1, 5), (8, 9)]);
    // 40 samples a second: four samples of pause still merge.
    assert_eq!(active_sample_blocks(&loud, 40), vec![(1, 9)]);
    assert_eq!(active_sample_blocks(&loud, 0), vec![(1, 3), (4, 5), (8, 9)]);
}

#[test]
fn joins_blocks_up_to_a_limit() {
    assert_eq!(
        concatenated_block_slices(&vec![(0, 3), (5, 10), (12, 20)], 6),
        vec![(0, 3), (5, 8)]
    );
    assert_eq!(concatenated_block_slices(&vec![(0, 3)], 0), Vec::<(usize, usize)>::new());
    assert_eq!(truncate_slices(&vec![(0, 3), (5, 10)], 4), vec![(0, 3), (5, 6)]);
}

#[test]
fn short_reference_starts_at_first_active_block() {
    let selection = short_reference_selection(100, &vec![(10, 20), (40, 90)], 50, 30, 60).unwrap();
    assert_eq!(selection.start, 10);
    assert_eq!(selection.slices, vec![(10, 60)]);
}

#[test]
fn short_reference_joins_blocks_when_the_window_is_too_short() {
    let selection = short_reference_selection(100, &vec![(95, 100)], 50, 30, 60).unwrap();
    assert_eq!(selection.slices, vec![(95, 100)]);
    let selection = short_reference_selection(200, &vec![(150, 170), (180, 200)], 100, 60, 200).unwrap();
    assert_eq!(selection.start, 150);
    assert_eq!(selection.slices, vec![(150, 170), (180, 200)]);
}

#[test]
fn short_reference_without_active_blocks_and_with_a_cap() {
    let selection = short_reference_selection(100, &Vec::new(), 50, 30, 60).unwrap();
    assert_eq!((selection.start, selection.slices), (0, vec![(0, 50)]));
    let selection = short_reference_selection(100, &Vec::new(), 50, 30, 20).unwrap();
    assert_eq!(selection.slices, vec![(0, 20)]);
}

#[test]
fn short_reference_errors() {
    assert!(matches!(
        short_reference_selection(0, &Vec::new(), 50, 30, 60),
        Err(AppError::UnsupportedCodec(ref m)) if m == "áudio de referência vazio"
    ));
    assert!(matches!(
        short_reference_selection(100, &Vec::new(), 50, 30, 0),
        Err(AppError::UnsupportedCodec(ref m)) if m == "não foi possível extrair referência curta válida"
    ));
}
