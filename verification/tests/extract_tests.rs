use trast::extract::{extract, Entity, TokenSpan, NO_ENTITY_LABEL, SCORE_SCALE};
use trast::vocab::LabelVocab;

fn vocab_of(labels: &[&str]) -> LabelVocab {
    LabelVocab::new(labels.iter().map(|s| s.to_string()).collect())
}

fn reserved_row(width: usize) -> Vec<u32> {
    // arg-max at the reserved label 0
    let mut row = vec![100_000u32; width];
    row[NO_ENTITY_LABEL] = 900_000;
    row
}

fn labeled_row(width: usize, label: usize, confidence: u32) -> Vec<u32> {
    let mut row = vec![0u32; width];
    row[label] = confidence;
    row
}

#[test]
fn all_reserved_rows_yield_no_entities() {
    let vocab = vocab_of(&["O", "PER", "ORG"]);
    let sentence = b"Idag slapper KB tre nya sprakmodeller.".to_vec();
    let tokens = vec![
        TokenSpan { start: 0, end: 4 },
        TokenSpan { start: 5, end: 12 },
        TokenSpan { start: 13, end: 15 },
    ];
    let scores = vec![reserved_row(3), reserved_row(3), reserved_row(3)];
    let entities = extract(&tokens, &scores, &sentence, &vocab);
    assert!(entities.is_empty());
}

#[test]
fn empty_input_yields_no_entities() {
    let vocab = vocab_of(&["O", "PER"]);
    let sentence = b"".to_vec();
    let entities = extract(&Vec::new(), &Vec::new(), &sentence, &vocab);
    assert!(entities.is_empty());
}

#[test]
fn swedish_sentence_with_one_org() {
    // One organisation, "KB", among reserved labels on each side.
    let vocab = vocab_of(&["O", "ORG"]);
    let sentence = b"Idag slapper KB tre nya sprakmodeller.".to_vec();
    let tokens = vec![
        TokenSpan { start: 0, end: 4 },
        TokenSpan { start: 5, end: 12 },
        TokenSpan { start: 13, end: 15 },
        TokenSpan { start: 16, end: 19 },
        TokenSpan { start: 20, end: 23 },
        TokenSpan { start: 24, end: 37 },
        TokenSpan { start: 37, end: 38 },
    ];
    let scores = vec![
        reserved_row(2),
        reserved_row(2),
        labeled_row(2, 1, 950_000),
        reserved_row(2),
        reserved_row(2),
        reserved_row(2),
        reserved_row(2),
    ];
    let entities = extract(&tokens, &scores, &sentence, &vocab);
    assert_eq!(entities.len(), 1);
    assert_eq!(entities[0].label, "ORG".to_string());
    assert_eq!(entities[0].word, b"KB".to_vec());
    assert_eq!(entities[0].start, 13);
    assert_eq!(entities[0].end, 15);
    assert_eq!(entities[0].score, 950_000);
}

#[test]
fn adjacent_equal_labels_merge_into_one_entity() {
    // Two adjacent tokens labeled alike span "Anna" and "Svensson"; the
    // merge keeps one entity across the space between them.
    let vocab = vocab_of(&["O", "PER"]);
    let sentence = b"Anna Svensson".to_vec();
    let tokens = vec![TokenSpan { start: 0, end: 4 }, TokenSpan { start: 5, end: 13 }];
    let scores = vec![labeled_row(2, 1, 800_000), labeled_row(2, 1, 700_000)];
    let entities = extract(&tokens, &scores, &sentence, &vocab);
    assert_eq!(entities.len(), 1);
    assert_eq!(entities[0].label, "PER".to_string());
    assert_eq!(entities[0].word, b"Anna Svensson".to_vec());
    assert_eq!(entities[0].start, 0);
    assert_eq!(entities[0].end, 13);
    // the span's score is the larger of the two row confidences
    assert_eq!(entities[0].score, 800_000);
}

#[test]
fn uniform_run_spans_first_start_to_last_end() {
    let vocab = vocab_of(&["O", "LOC"]);
    let sentence = b"the river Nile delta".to_vec();
    let tokens = vec![
        TokenSpan { start: 4, end: 9 },
        TokenSpan { start: 10, end: 14 },
        TokenSpan { start: 15, end: 20 },
    ];
    let scores = vec![
        labeled_row(2, 1, 600_000),
        labeled_row(2, 1, 990_000),
        labeled_row(2, 1, 720_000),
    ];
    let entities = extract(&tokens, &scores, &sentence, &vocab);
    assert_eq!(entities.len(), 1);
    assert_eq!(entities[0].start, 4);
    assert_eq!(entities[0].end, 20);
    assert_eq!(entities[0].score, 990_000);
    assert_eq!(entities[0].word, b"river Nile delta".to_vec());
}

#[test]
fn extract_is_deterministic() {
    let vocab = vocab_of(&["O", "PER", "ORG"]);
    let sentence = b"Anna works at KB".to_vec();
    let tokens = vec![
        TokenSpan { start: 0, end: 4 },
        TokenSpan { start: 5, end: 10 },
        TokenSpan { start: 11, end: 13 },
        TokenSpan { start: 14, end: 16 },
    ];
    let scores = vec![
        labeled_row(3, 1, 880_000),
        reserved_row(3),
        reserved_row(3),
        labeled_row(3, 2, 910_000),
    ];
    let first = extract(&tokens, &scores, &sentence, &vocab);
    let second = extract(&tokens, &scores, &sentence, &vocab);
    assert_eq!(first, second);
    assert_eq!(first.len(), 2);
}

#[test]
fn distinct_labels_split_entities() {
    let vocab = vocab_of(&["O", "PER", "ORG"]);
    let sentence = b"Anna KB".to_vec();
    let tokens = vec![TokenSpan { start: 0, end: 4 }, TokenSpan { start: 5, end: 7 }];
    let scores = vec![labeled_row(3, 1, 800_000), labeled_row(3, 2, 600_000)];
    let entities = extract(&tokens, &scores, &sentence, &vocab);
    assert_eq!(entities.len(), 2);
    assert_eq!(entities[0].label, "PER".to_string());
    assert_eq!(entities[0].word, b"Anna".to_vec());
    assert_eq!(entities[1].label, "ORG".to_string());
    assert_eq!(entities[1].word, b"KB".to_vec());
}

#[test]
fn empty_span_is_dropped() {
    // A labeled token with an empty offset range yields no entity.
    let vocab = vocab_of(&["O", "PER"]);
    let sentence = b"abc".to_vec();
    let tokens = vec![TokenSpan { start: 2, end: 2 }];
    let scores = vec![labeled_row(2, 1, 990_000)];
    let entities = extract(&tokens, &scores, &sentence, &vocab);
    assert!(entities.is_empty());
}

#[test]
fn arg_max_tie_takes_earliest_label() {
    // Equal confidences: the earliest label id wins, as the scan does.
    let vocab = vocab_of(&["O", "PER", "ORG"]);
    let sentence = b"xy".to_vec();
    let tokens = vec![TokenSpan { start: 0, end: 2 }];
    let mut row = vec![0u32; 3];
    row[1] = 500_000;
    row[2] = 500_000;
    let entities = extract(&tokens, &vec![row], &sentence, &vocab);
    assert_eq!(entities.len(), 1);
    assert_eq!(entities[0].label, "PER".to_string());
}

#[test]
fn scores_stay_within_scale() {
    let vocab = vocab_of(&["O", "PER"]);
    let sentence = b"Anna".to_vec();
    let tokens = vec![TokenSpan { start: 0, end: 4 }];
    let scores = vec![labeled_row(2, 1, SCORE_SCALE)];
    let entities: Vec<Entity> = extract(&tokens, &scores, &sentence, &vocab);
    assert_eq!(entities.len(), 1);
    assert!(entities[0].score <= SCORE_SCALE);
}
