//! The boundary to the model runtime.
//!
//! The tokenizer and the model engine are external collaborators: given one
//! sentence they produce, deterministically for a loaded resource, the
//! token sequences and one score row per token. This module holds the one
//! call into the tokenizer crate, the validation of everything that comes
//! back over that boundary, and the checked entry point that worker jobs
//! run: validate the shapes, then extract.

use vstd::prelude::*;

verus! {

use crate::error::ServiceError;
use crate::extract::{entity_views, extract, row_views, spec_extract, Entity, TokenSpan};
use crate::vocab::LabelVocab;

/// The tokenizer of the loaded resource, opaque to the library.
#[verifier::external_type_specification]
#[verifier::external_body]
pub struct ExTokenizer(tokenizers::Tokenizer);

/// One tokenized sentence: the three integer sequences the model takes as a
/// single-row batch, and the half-open byte-offset range of each token.
pub struct TokenizedInput {
    pub ids: Vec<u32>,
    pub type_ids: Vec<u32>,
    pub attention: Vec<u32>,
    pub offsets: Vec<(usize, usize)>,
}

impl TokenizedInput {
    /// The four arrays are parallel: one entry of each per token.
    pub open spec fn wf(&self) -> bool {
        &&& self.ids@.len() == self.type_ids@.len()
        &&& self.ids@.len() == self.attention@.len()
        &&& self.ids@.len() == self.offsets@.len()
    }

    pub fn token_count(&self) -> (n: usize)
        ensures
            n == self.ids@.len(),
    {
        self.ids.len()
    }
}

/// Relies on `tokenizers::Tokenizer::encode`: tokenizes one sentence with
/// byte offsets into the text. Its parallel arrays are carried over as
/// returned; `tokenize` validates them, since the crate does not promise
/// their lengths.
#[verifier::external_body]
fn encode_text(tokenizer: &tokenizers::Tokenizer, sentence: &str) -> (r: Result<
    TokenizedInput,
    ServiceError,
>)
    ensures
        r matches Err(e) ==> e == ServiceError::Tokenization,
{
    match tokenizer.encode(tokenizers::EncodeInput::Single(sentence.into()), true) {
        Ok(enc) => Ok(TokenizedInput {
            ids: enc.get_ids().to_vec(),
            type_ids: enc.get_type_ids().to_vec(),
            attention: enc.get_attention_mask().to_vec(),
            offsets: enc.get_offsets().to_vec(),
        }),
        Err(_) => Err(ServiceError::Tokenization),
    }
}

/// Tokenizes one sentence and checks what came over the boundary: the id,
/// type-id, attention and offset arrays must be parallel. Any tokenizer
/// failure, including a shape violation, is a tokenization error.
pub fn tokenize(tokenizer: &tokenizers::Tokenizer, sentence: &str) -> (r: Result<
    TokenizedInput,
    ServiceError,
>)
    ensures
        r matches Ok(inp) ==> inp.wf(),
        r matches Err(e) ==> e == ServiceError::Tokenization,
{
    let inp = match encode_text(tokenizer, sentence) {
        Ok(inp) => inp,
        Err(e) => {
            return Err(e);
        },
    };
    let n = inp.ids.len();
    if inp.type_ids.len() == n && inp.attention.len() == n && inp.offsets.len() == n {
        Ok(inp)
    } else {
        Err(ServiceError::Tokenization)
    }
}

/// The token spans of a tokenized sentence, in row order.
pub fn token_spans(inp: &TokenizedInput) -> (tokens: Vec<TokenSpan>)
    ensures
        tokens@.len() == inp.offsets@.len(),
        forall|i: int|
            0 <= i < tokens@.len() ==> (#[trigger] tokens@[i]).start == inp.offsets@[i].0
                && tokens@[i].end == inp.offsets@[i].1,
{
    let mut tokens: Vec<TokenSpan> = Vec::new();
    let mut i: usize = 0;
    let n = inp.offsets.len();
    while i < n
        invariant
            i <= n,
            n == inp.offsets@.len(),
            tokens@.len() == i,
            forall|k: int|
                0 <= k < i ==> (#[trigger] tokens@[k]).start == inp.offsets@[k].0 && tokens@[k].end
                    == inp.offsets@[k].1,
        decreases n - i,
    {
        let (start, end) = inp.offsets[i];
        tokens.push(TokenSpan { start, end });
        i += 1;
    }
    tokens
}

/// The shapes the extractor's contract needs: one score row per token, every
/// row as wide as the label vocabulary, every token offset inside the
/// sentence.
pub open spec fn valid_shape(
    tokens: Seq<TokenSpan>,
    rows: Seq<Seq<u32>>,
    labels: Seq<Seq<char>>,
    sentence: Seq<u8>,
) -> bool {
    &&& tokens.len() == rows.len()
    &&& forall|i: int| 0 <= i < rows.len() ==> (#[trigger] rows[i]).len() == labels.len()
    &&& forall|i: int| 0 <= i < tokens.len() ==> (#[trigger] tokens[i]).end <= sentence.len()
}

/// What one worker job computes for one sentence: checks the shape of the
/// model output against the tokens, the vocabulary and the sentence, then
/// extracts the entities. A shape mismatch is an engine error; on a valid
/// shape the result is exactly the extraction.
pub fn recognize(
    vocab: &LabelVocab,
    sentence: &Vec<u8>,
    tokens: &Vec<TokenSpan>,
    scores: &Vec<Vec<u32>>,
) -> (r: Result<Vec<Entity>, ServiceError>)
    requires
        vocab.wf(),
    ensures
        ({
            let rows = row_views(scores@);
            match r {
                Ok(entities) => valid_shape(tokens@, rows, vocab@, sentence@) && entity_views(
                    entities@,
                ) == spec_extract(tokens@, rows, vocab@, sentence@),
                Err(e) => e == ServiceError::Engine && !valid_shape(
                    tokens@,
                    rows,
                    vocab@,
                    sentence@,
                ),
            }
        }),
{
    let ghost rows = row_views(scores@);
    let n = tokens.len();
    if scores.len() != n {
        return Err(ServiceError::Engine);
    }
    let width = vocab.len();
    let mut i: usize = 0;
    while i < n
        invariant
            i <= n,
            n == tokens@.len(),
            n == scores@.len(),
            width == vocab@.len(),
            rows == row_views(scores@),
            forall|k: int| 0 <= k < i ==> (#[trigger] rows[k]).len() == vocab@.len(),
            forall|k: int| 0 <= k < i ==> (#[trigger] tokens@[k]).end <= sentence@.len(),
        decreases n - i,
    {
        if scores[i].len() != width {
            proof {
                assert(rows[i as int].len() != vocab@.len());
            }
            return Err(ServiceError::Engine);
        }
        if tokens[i].end > sentence.len() {
            return Err(ServiceError::Engine);
        }
        i += 1;
    }
    proof {
        assert forall|k: int| 0 <= k < scores@.len() implies (#[trigger] scores@[k])@.len()
            == vocab@.len() by {
            assert(rows[k] == scores@[k]@);
        }
    }
    Ok(extract(tokens, scores, sentence, vocab))
}

} // verus!
