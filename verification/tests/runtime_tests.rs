use trast::runtime::{recognize, token_spans, tokenize};
use trast::vocab::LabelVocab;
use trast::ServiceError;

const TOKENIZER_JSON: &str = r#"{
  "version": "1.0",
  "truncation": null,
  "padding": null,
  "added_tokens": [],
  "normalizer": null,
  "pre_tokenizer": { "type": "WhitespaceSplit" },
  "post_processor": null,
  "decoder": null,
  "model": {
    "type": "WordLevel",
    "vocab": { "anna": 0, "svensson": 1, "[UNK]": 2 },
    "unk_token": "[UNK]"
  }
}"#;

fn test_tokenizer() -> tokenizers::Tokenizer {
    tokenizers::Tokenizer::from_bytes(TOKENIZER_JSON.as_bytes()).expect("tokenizer definition")
}

fn label_vocab() -> LabelVocab {
    LabelVocab::new(vec!["O".to_string(), "PER".to_string()])
}

#[test]
fn tokenizing_yields_parallel_arrays_with_byte_offsets() {
    let tokenizer = test_tokenizer();
    let input = tokenize(&tokenizer, "anna svensson").expect("tokenized");
    assert_eq!(input.token_count(), 2);
    assert_eq!(input.ids.len(), 2);
    assert_eq!(input.type_ids.len(), 2);
    assert_eq!(input.attention.len(), 2);
    assert_eq!(input.offsets, vec![(0, 4), (5, 13)]);
}

#[test]
fn token_spans_mirror_the_offsets() {
    let tokenizer = test_tokenizer();
    let input = tokenize(&tokenizer, "anna svensson").expect("tokenized");
    let tokens = token_spans(&input);
    assert_eq!(tokens.len(), 2);
    assert_eq!(tokens[0].start, 0);
    assert_eq!(tokens[0].end, 4);
    assert_eq!(tokens[1].start, 5);
    assert_eq!(tokens[1].end, 13);
}

#[test]
fn recognize_runs_the_extraction_end_to_end() {
    let tokenizer = test_tokenizer();
    let sentence = "anna svensson";
    let input = tokenize(&tokenizer, sentence).expect("tokenized");
    let tokens = token_spans(&input);
    // per-token fixed-point confidences, both rows arg-max at PER
    let scores = vec![vec![100_000u32, 900_000], vec![200_000, 800_000]];
    let entities = recognize(&label_vocab(), &sentence.as_bytes().to_vec(), &tokens, &scores)
        .expect("valid shapes");
    assert_eq!(entities.len(), 1);
    assert_eq!(entities[0].label, "PER".to_string());
    assert_eq!(entities[0].word, b"anna svensson".to_vec());
    assert_eq!(entities[0].score, 900_000);
}

#[test]
fn shape_mismatch_is_an_engine_error() {
    let vocab = label_vocab();
    let sentence = b"anna svensson".to_vec();
    let tokenizer = test_tokenizer();
    let input = tokenize(&tokenizer, "anna svensson").expect("tokenized");
    let tokens = token_spans(&input);

    // one row missing
    let short = vec![vec![100_000u32, 900_000]];
    assert_eq!(recognize(&vocab, &sentence, &tokens, &short), Err(ServiceError::Engine));

    // a row narrower than the label vocabulary
    let narrow = vec![vec![100_000u32], vec![100_000u32, 900_000]];
    assert_eq!(recognize(&vocab, &sentence, &tokens, &narrow), Err(ServiceError::Engine));

    // a token offset outside the sentence
    let scores = vec![vec![100_000u32, 900_000], vec![200_000, 800_000]];
    assert_eq!(
        recognize(&vocab, &b"anna".to_vec(), &tokens, &scores),
        Err(ServiceError::Engine)
    );
}

#[test]
fn unknown_words_still_tokenize() {
    let tokenizer = test_tokenizer();
    let input = tokenize(&tokenizer, "bertil anna").expect("tokenized");
    assert_eq!(input.token_count(), 2);
    assert_eq!(input.offsets, vec![(0, 6), (7, 11)]);
}
