use trast::vocab::LabelVocab;
use trast::ServiceError;

fn entry(id: u64, label: &str) -> (u64, String) {
    (id, label.to_string())
}

#[test]
fn entries_in_any_order_build_the_mapping() {
    let entries = vec![entry(2, "ORG"), entry(0, "O"), entry(1, "PER")];
    let vocab = LabelVocab::from_entries(&entries).expect("well keyed");
    assert_eq!(vocab.len(), 3);
    assert_eq!(vocab.get(0).as_str(), "O");
    assert_eq!(vocab.get(1).as_str(), "PER");
    assert_eq!(vocab.get(2).as_str(), "ORG");
}

#[test]
fn duplicate_id_is_malformed() {
    let entries = vec![entry(0, "O"), entry(1, "PER"), entry(1, "ORG")];
    assert!(LabelVocab::from_entries(&entries).is_none());
}

#[test]
fn id_out_of_range_is_malformed() {
    let entries = vec![entry(0, "O"), entry(5, "PER")];
    assert!(LabelVocab::from_entries(&entries).is_none());
}

#[test]
fn empty_document_builds_an_empty_mapping() {
    let entries: Vec<(u64, String)> = Vec::new();
    let vocab = LabelVocab::from_entries(&entries).expect("trivially well keyed");
    assert_eq!(vocab.len(), 0);
}

#[test]
fn every_failure_kind_shows_the_same_public_message() {
    let kinds = [
        ServiceError::ResourceIo,
        ServiceError::ResourceParse,
        ServiceError::Engine,
        ServiceError::Tokenization,
        ServiceError::Task,
    ];
    for kind in kinds {
        assert_eq!(kind.public_message(), "internal error".to_string());
    }
}
