//! The entity extractor: a pure, single-pass merge of per-token label
//! confidences into labeled spans of the sentence.
//!
//! Each score row holds one fixed-point confidence per label id (the caller's
//! numerically stable softmax, scaled by [`SCORE_SCALE`]). Per row the
//! arg-max label is taken (the earliest column on ties); consecutive rows
//! with the same arg-max label are greedily merged into one span whose score
//! is the largest row confidence and whose offsets are the union of the token
//! offsets. Spans labeled with the reserved "no entity" id, and empty spans,
//! are dropped; the survivors are resolved against the label vocabulary.
//!
//! The merge is by label contiguity alone: it does not read tag prefix
//! conventions, so two adjacent entities of one label become one span. That
//! is the contract to preserve, not a defect to fix.

use vstd::prelude::*;

verus! {

use crate::bytes::copy_range;
use crate::vocab::LabelVocab;

/// The reserved label id meaning "no entity".
pub const NO_ENTITY_LABEL: usize = 0;

/// The fixed-point unit: a confidence of 1.0 is stored as `SCORE_SCALE`.
pub const SCORE_SCALE: u32 = 1_000_000;

/// The half-open byte-offset range of one token in the sentence, in row
/// order of the score matrix.
#[derive(Clone, Copy, Debug, PartialEq, Eq, Structural)]
pub struct TokenSpan {
    pub start: usize,
    pub end: usize,
}

/// An in-progress span while scanning score rows left to right.
#[derive(Clone, Copy, Debug, PartialEq, Eq, Structural)]
pub struct RawSpan {
    pub label: usize,
    pub score: u32,
    pub start: usize,
    pub end: usize,
}

/// A recognized entity: a labeled, contiguous byte range of the sentence
/// with a fixed-point confidence.
#[derive(Clone, Debug, PartialEq, Eq)]
pub struct Entity {
    pub label: String,
    pub score: u32,
    pub word: Vec<u8>,
    pub start: usize,
    pub end: usize,
}

/// The mathematical value of an [`Entity`].
#[verifier::ext_equal]
pub struct EntityModel {
    pub label: Seq<char>,
    pub score: u32,
    pub word: Seq<u8>,
    pub start: usize,
    pub end: usize,
}

impl View for Entity {
    type V = EntityModel;

    open spec fn view(&self) -> EntityModel {
        EntityModel {
            label: self.label@,
            score: self.score,
            word: self.word@,
            start: self.start,
            end: self.end,
        }
    }
}

/// The views of a sequence of score-row vectors.
pub open spec fn row_views(scores: Seq<Vec<u32>>) -> Seq<Seq<u32>> {
    scores.map_values(|r: Vec<u32>| r@)
}

/// The views of a sequence of entities.
pub open spec fn entity_views(es: Seq<Entity>) -> Seq<EntityModel> {
    es.map_values(|e: Entity| e@)
}

pub open spec fn max_u32(a: u32, b: u32) -> u32 {
    if a >= b {
        a
    } else {
        b
    }
}

pub open spec fn min_usize(a: usize, b: usize) -> usize {
    if a <= b {
        a
    } else {
        b
    }
}

pub open spec fn max_usize(a: usize, b: usize) -> usize {
    if a >= b {
        a
    } else {
        b
    }
}

/// The arg-max of the first `n` entries of a row: the index of the largest
/// entry, the earliest such index on ties.
pub open spec fn arg_max_prefix(row: Seq<u32>, n: int) -> int
    decreases n,
{
    if n <= 1 {
        0
    } else {
        let prev = arg_max_prefix(row, n - 1);
        if row[n - 1] > row[prev] {
            n - 1
        } else {
            prev
        }
    }
}

/// The arg-max label id of a score row.
pub open spec fn arg_max(row: Seq<u32>) -> int {
    arg_max_prefix(row, row.len() as int)
}

/// The confidence of a row: its entry at the arg-max label.
pub open spec fn row_confidence(row: Seq<u32>) -> u32 {
    row[arg_max(row)]
}

pub proof fn lemma_arg_max_prefix_bounds(row: Seq<u32>, n: int)
    requires
        1 <= n <= row.len(),
    ensures
        0 <= arg_max_prefix(row, n) < n,
        forall|i: int| 0 <= i < n ==> #[trigger] row[i] <= row[arg_max_prefix(row, n)],
        forall|i: int| 0 <= i < arg_max_prefix(row, n) ==> #[trigger] row[i] < row[arg_max_prefix(row, n)],
    decreases n,
{
    if n > 1 {
        lemma_arg_max_prefix_bounds(row, n - 1);
    }
}

/// The largest entry of a row sits at its arg-max, which is in range.
pub proof fn lemma_arg_max_bounds(row: Seq<u32>)
    requires
        row.len() >= 1,
    ensures
        0 <= arg_max(row) < row.len(),
        forall|i: int| 0 <= i < row.len() ==> #[trigger] row[i] <= row_confidence(row),
{
    lemma_arg_max_prefix_bounds(row, row.len() as int);
}

/// Folds one token into the open spans: the last span is extended while its
/// label matches, otherwise a new span is opened.
pub open spec fn merge_step(acc: Seq<RawSpan>, label: usize, score: u32, tok: TokenSpan) -> Seq<
    RawSpan,
> {
    if acc.len() > 0 && acc.last().label == label {
        acc.update(
            acc.len() - 1,
            RawSpan {
                label,
                score: max_u32(acc.last().score, score),
                start: min_usize(acc.last().start, tok.start),
                end: max_usize(acc.last().end, tok.end),
            },
        )
    } else {
        acc.push(RawSpan { label, score, start: tok.start, end: tok.end })
    }
}

/// The spans accumulated after scanning the first `n` rows.
pub open spec fn merged_prefix(tokens: Seq<TokenSpan>, rows: Seq<Seq<u32>>, n: int) -> Seq<RawSpan>
    decreases n,
{
    if n <= 0 {
        Seq::empty()
    } else {
        merge_step(
            merged_prefix(tokens, rows, n - 1),
            arg_max(rows[n - 1]) as usize,
            row_confidence(rows[n - 1]),
            tokens[n - 1],
        )
    }
}

/// The spans of the whole scan.
pub open spec fn merged_spans(tokens: Seq<TokenSpan>, rows: Seq<Seq<u32>>) -> Seq<RawSpan> {
    merged_prefix(tokens, rows, rows.len() as int)
}

/// Whether a raw span survives the filter: a real label and a nonempty range.
pub open spec fn kept(s: RawSpan) -> bool {
    s.label != NO_ENTITY_LABEL && s.end > s.start
}

/// The entity a surviving span maps to: label id resolved through the
/// vocabulary, word taken from the sentence bytes.
pub open spec fn entity_of(s: RawSpan, labels: Seq<Seq<char>>, sentence: Seq<u8>) -> EntityModel {
    EntityModel {
        label: labels[s.label as int],
        score: s.score,
        word: sentence.subrange(s.start as int, s.end as int),
        start: s.start,
        end: s.end,
    }
}

/// The entities emitted from the first `n` spans.
pub open spec fn emitted_prefix(
    spans: Seq<RawSpan>,
    labels: Seq<Seq<char>>,
    sentence: Seq<u8>,
    n: int,
) -> Seq<EntityModel>
    decreases n,
{
    if n <= 0 {
        Seq::empty()
    } else {
        let rest = emitted_prefix(spans, labels, sentence, n - 1);
        if kept(spans[n - 1]) {
            rest.push(entity_of(spans[n - 1], labels, sentence))
        } else {
            rest
        }
    }
}

/// What `extract` returns: merge, filter, resolve.
pub open spec fn spec_extract(
    tokens: Seq<TokenSpan>,
    rows: Seq<Seq<u32>>,
    labels: Seq<Seq<char>>,
    sentence: Seq<u8>,
) -> Seq<EntityModel> {
    let spans = merged_spans(tokens, rows);
    emitted_prefix(spans, labels, sentence, spans.len() as int)
}

/// The largest row confidence among the first `n` rows.
pub open spec fn run_confidence(rows: Seq<Seq<u32>>, n: int) -> u32
    decreases n,
{
    if n <= 1 {
        row_confidence(rows[0])
    } else {
        max_u32(run_confidence(rows, n - 1), row_confidence(rows[n - 1]))
    }
}

/// The smallest token start among the first `n` tokens.
pub open spec fn min_start(tokens: Seq<TokenSpan>, n: int) -> usize
    decreases n,
{
    if n <= 1 {
        tokens[0].start
    } else {
        min_usize(min_start(tokens, n - 1), tokens[n - 1].start)
    }
}

/// The largest token end among the first `n` tokens.
pub open spec fn max_end(tokens: Seq<TokenSpan>, n: int) -> usize
    decreases n,
{
    if n <= 1 {
        tokens[0].end
    } else {
        max_usize(max_end(tokens, n - 1), tokens[n - 1].end)
    }
}

/// `run_confidence` is the maximum of the row confidences.
pub proof fn lemma_run_confidence_is_max(rows: Seq<Seq<u32>>, n: int)
    requires
        1 <= n <= rows.len(),
    ensures
        forall|i: int| 0 <= i < n ==> row_confidence(#[trigger] rows[i]) <= run_confidence(rows, n),
        exists|i: int| 0 <= i < n && run_confidence(rows, n) == row_confidence(#[trigger] rows[i]),
    decreases n,
{
    if n > 1 {
        lemma_run_confidence_is_max(rows, n - 1);
        if row_confidence(rows[n - 1]) >= run_confidence(rows, n - 1) {
            assert(run_confidence(rows, n) == row_confidence(rows[n - 1]));
        } else {
            let i = choose|i: int|
                0 <= i < n - 1 && run_confidence(rows, n - 1) == row_confidence(#[trigger] rows[i]);
            assert(run_confidence(rows, n) == row_confidence(rows[i]));
        }
    } else {
        assert(run_confidence(rows, n) == row_confidence(rows[0]));
    }
}

/// `min_start` is the minimum of the token starts.
pub proof fn lemma_min_start_is_min(tokens: Seq<TokenSpan>, n: int)
    requires
        1 <= n <= tokens.len(),
    ensures
        forall|i: int| 0 <= i < n ==> min_start(tokens, n) <= (#[trigger] tokens[i]).start,
        exists|i: int| 0 <= i < n && min_start(tokens, n) == (#[trigger] tokens[i]).start,
    decreases n,
{
    if n > 1 {
        lemma_min_start_is_min(tokens, n - 1);
        if tokens[n - 1].start <= min_start(tokens, n - 1) {
            assert(min_start(tokens, n) == tokens[n - 1].start);
        } else {
            let i = choose|i: int|
                0 <= i < n - 1 && min_start(tokens, n - 1) == (#[trigger] tokens[i]).start;
            assert(min_start(tokens, n) == tokens[i].start);
        }
    } else {
        assert(min_start(tokens, n) == tokens[0].start);
    }
}

/// `max_end` is the maximum of the token ends.
pub proof fn lemma_max_end_is_max(tokens: Seq<TokenSpan>, n: int)
    requires
        1 <= n <= tokens.len(),
    ensures
        forall|i: int| 0 <= i < n ==> (#[trigger] tokens[i]).end <= max_end(tokens, n),
        exists|i: int| 0 <= i < n && max_end(tokens, n) == (#[trigger] tokens[i]).end,
    decreases n,
{
    if n > 1 {
        lemma_max_end_is_max(tokens, n - 1);
        if tokens[n - 1].end >= max_end(tokens, n - 1) {
            assert(max_end(tokens, n) == tokens[n - 1].end);
        } else {
            let i = choose|i: int|
                0 <= i < n - 1 && max_end(tokens, n - 1) == (#[trigger] tokens[i]).end;
            assert(max_end(tokens, n) == tokens[i].end);
        }
    } else {
        assert(max_end(tokens, n) == tokens[0].end);
    }
}

proof fn lemma_merged_all_reserved(tokens: Seq<TokenSpan>, rows: Seq<Seq<u32>>, n: int)
    requires
        forall|i: int| 0 <= i < n ==> arg_max(#[trigger] rows[i]) == NO_ENTITY_LABEL,
    ensures
        forall|k: int|
            0 <= k < merged_prefix(tokens, rows, n).len() ==> (#[trigger] merged_prefix(
                tokens,
                rows,
                n,
            )[k]).label == NO_ENTITY_LABEL,
    decreases n,
{
    if n > 0 {
        lemma_merged_all_reserved(tokens, rows, n - 1);
        let prev = merged_prefix(tokens, rows, n - 1);
        let cur = merged_prefix(tokens, rows, n);
        let lab = arg_max(rows[n - 1]) as usize;
        assert(arg_max(rows[n - 1]) == NO_ENTITY_LABEL);
        assert forall|k: int| 0 <= k < cur.len() implies (#[trigger] cur[k]).label
            == NO_ENTITY_LABEL by {
            if prev.len() > 0 && prev.last().label == lab {
                assert(prev[prev.len() - 1].label == NO_ENTITY_LABEL);
                if k < cur.len() - 1 {
                    assert(cur[k] == prev[k]);
                }
            } else {
                if k < prev.len() {
                    assert(cur[k] == prev[k]);
                }
            }
        }
    }
}

proof fn lemma_emitted_none_kept(
    spans: Seq<RawSpan>,
    labels: Seq<Seq<char>>,
    sentence: Seq<u8>,
    n: int,
)
    requires
        forall|k: int| 0 <= k < n ==> !kept(#[trigger] spans[k]),
    ensures
        emitted_prefix(spans, labels, sentence, n) == Seq::<EntityModel>::empty(),
    decreases n,
{
    if n > 0 {
        lemma_emitted_none_kept(spans, labels, sentence, n - 1);
    }
}

/// When every row's arg-max is the reserved "no entity" label, extraction
/// yields no entities.
pub proof fn lemma_all_reserved_yields_no_entities(
    tokens: Seq<TokenSpan>,
    rows: Seq<Seq<u32>>,
    labels: Seq<Seq<char>>,
    sentence: Seq<u8>,
)
    requires
        tokens.len() == rows.len(),
        forall|i: int| 0 <= i < rows.len() ==> arg_max(#[trigger] rows[i]) == NO_ENTITY_LABEL,
    ensures
        spec_extract(tokens, rows, labels, sentence) == Seq::<EntityModel>::empty(),
{
    let spans = merged_spans(tokens, rows);
    lemma_merged_all_reserved(tokens, rows, rows.len() as int);
    lemma_emitted_none_kept(spans, labels, sentence, spans.len() as int);
}

proof fn lemma_merged_uniform(tokens: Seq<TokenSpan>, rows: Seq<Seq<u32>>, lab: usize, n: int)
    requires
        1 <= n <= rows.len(),
        tokens.len() == rows.len(),
        forall|i: int| 0 <= i < n ==> arg_max(#[trigger] rows[i]) == lab,
    ensures
        ({
            let spans = merged_prefix(tokens, rows, n);
            spans.len() == 1 && spans[0].label == lab && spans[0].score == run_confidence(rows, n)
                && spans[0].start == min_start(tokens, n) && spans[0].end == max_end(tokens, n)
        }),
    decreases n,
{
    let prev = merged_prefix(tokens, rows, n - 1);
    let cur = merged_prefix(tokens, rows, n);
    assert(arg_max(rows[n - 1]) == lab);
    if n > 1 {
        lemma_merged_uniform(tokens, rows, lab, n - 1);
        assert(prev.last() == prev[0]);
        assert(cur.len() == 1);
        assert(cur[0].score == max_u32(run_confidence(rows, n - 1), row_confidence(rows[n - 1])));
        assert(cur[0].start == min_usize(min_start(tokens, n - 1), tokens[n - 1].start));
        assert(cur[0].end == max_usize(max_end(tokens, n - 1), tokens[n - 1].end));
    } else {
        assert(prev.len() == 0);
        assert(cur == prev.push(
            RawSpan {
                label: lab,
                score: row_confidence(rows[0]),
                start: tokens[0].start,
                end: tokens[0].end,
            },
        ));
    }
}

/// When one or more consecutive tokens all share the same non-reserved
/// arg-max label and their offsets are ordered, extraction yields exactly one
/// entity: it spans from the first token's start to the last token's end and
/// scores the largest per-row confidence (see [`lemma_run_confidence_is_max`]).
pub proof fn lemma_uniform_run_yields_one_entity(
    tokens: Seq<TokenSpan>,
    rows: Seq<Seq<u32>>,
    labels: Seq<Seq<char>>,
    sentence: Seq<u8>,
    lab: usize,
)
    requires
        1 <= rows.len(),
        tokens.len() == rows.len(),
        lab != NO_ENTITY_LABEL,
        forall|i: int| 0 <= i < rows.len() ==> arg_max(#[trigger] rows[i]) == lab,
        forall|i: int|
            0 <= i < tokens.len() ==> tokens[0].start <= (#[trigger] tokens[i]).start,
        forall|i: int|
            0 <= i < tokens.len() ==> (#[trigger] tokens[i]).end <= tokens[tokens.len() - 1].end,
        forall|i: int| 0 <= i < tokens.len() ==> (#[trigger] tokens[i]).start < tokens[i].end,
    ensures
        ({
            let es = spec_extract(tokens, rows, labels, sentence);
            let start = tokens[0].start;
            let end = tokens[tokens.len() - 1].end;
            es.len() == 1 && es[0].label == labels[lab as int] && es[0].score == run_confidence(
                rows,
                rows.len() as int,
            ) && es[0].word == sentence.subrange(start as int, end as int) && es[0].start == start
                && es[0].end == end
        }),
{
    let n = rows.len() as int;
    lemma_merged_uniform(tokens, rows, lab, n);
    lemma_min_start_is_min(tokens, n);
    lemma_max_end_is_max(tokens, n);
    let j = choose|i: int| 0 <= i < n && min_start(tokens, n) == (#[trigger] tokens[i]).start;
    assert(tokens[0].start <= tokens[j].start);
    assert(min_start(tokens, n) <= tokens[0].start);
    assert(min_start(tokens, n) == tokens[0].start);
    let m = choose|i: int| 0 <= i < n && max_end(tokens, n) == (#[trigger] tokens[i]).end;
    assert(tokens[m].end <= tokens[n - 1].end);
    assert(tokens[n - 1].end <= max_end(tokens, n));
    assert(max_end(tokens, n) == tokens[n - 1].end);
    let spans = merged_spans(tokens, rows);
    assert(spans.len() == 1);
    assert(spans[0].start == tokens[0].start);
    assert(spans[0].end == tokens[n - 1].end);
    assert(tokens[0].start < tokens[0].end);
    assert(tokens[0].end <= max_end(tokens, n));
    assert(kept(spans[0]));
    assert(emitted_prefix(spans, labels, sentence, 0) == Seq::<EntityModel>::empty());
    assert(emitted_prefix(spans, labels, sentence, 1) =~= Seq::<EntityModel>::empty().push(
        entity_of(spans[0], labels, sentence),
    ));
}

/// Extraction is a pure function: any two results of `spec_extract` on the
/// same inputs are the same entities.
pub proof fn lemma_extract_idempotent(
    tokens: Seq<TokenSpan>,
    rows: Seq<Seq<u32>>,
    labels: Seq<Seq<char>>,
    sentence: Seq<u8>,
    first: Seq<EntityModel>,
    second: Seq<EntityModel>,
)
    requires
        first == spec_extract(tokens, rows, labels, sentence),
        second == spec_extract(tokens, rows, labels, sentence),
    ensures
        first == second,
{
}

proof fn lemma_merged_prefix_bounds(
    tokens: Seq<TokenSpan>,
    rows: Seq<Seq<u32>>,
    n: int,
    endmax: int,
    cap: u32,
)
    requires
        0 <= n <= rows.len(),
        tokens.len() == rows.len(),
        forall|i: int| 0 <= i < n ==> (#[trigger] rows[i]).len() >= 1,
        forall|i: int| 0 <= i < n ==> (#[trigger] tokens[i]).end <= endmax,
        forall|i: int, j: int|
            0 <= i < n && 0 <= j < rows[i].len() ==> #[trigger] rows[i][j] <= cap,
    ensures
        forall|k: int|
            0 <= k < merged_prefix(tokens, rows, n).len() ==> (#[trigger] merged_prefix(
                tokens,
                rows,
                n,
            )[k]).end <= endmax && merged_prefix(tokens, rows, n)[k].score <= cap,
    decreases n,
{
    if n > 0 {
        lemma_merged_prefix_bounds(tokens, rows, n - 1, endmax, cap);
        lemma_arg_max_bounds(rows[n - 1]);
        assert(row_confidence(rows[n - 1]) <= cap);
        let prev = merged_prefix(tokens, rows, n - 1);
        let cur = merged_prefix(tokens, rows, n);
        let lab = arg_max(rows[n - 1]) as usize;
        assert forall|k: int| 0 <= k < cur.len() implies (#[trigger] cur[k]).end <= endmax
            && cur[k].score <= cap by {
            if prev.len() > 0 && prev.last().label == lab {
                assert(prev[prev.len() - 1].end <= endmax);
                if k < cur.len() - 1 {
                    assert(cur[k] == prev[k]);
                }
            } else {
                if k < prev.len() {
                    assert(cur[k] == prev[k]);
                }
            }
        }
    }
}

proof fn lemma_emitted_prefix_shape(
    spans: Seq<RawSpan>,
    labels: Seq<Seq<char>>,
    sentence: Seq<u8>,
    n: int,
    endmax: int,
    cap: u32,
)
    requires
        forall|k: int|
            0 <= k < n ==> (#[trigger] spans[k]).end <= endmax && spans[k].score <= cap,
    ensures
        forall|k: int|
            0 <= k < emitted_prefix(spans, labels, sentence, n).len() ==> {
                let e = #[trigger] emitted_prefix(spans, labels, sentence, n)[k];
                e.start < e.end && e.end <= endmax && e.score <= cap && e.word
                    == sentence.subrange(e.start as int, e.end as int)
            },
    decreases n,
{
    if n > 0 {
        lemma_emitted_prefix_shape(spans, labels, sentence, n - 1, endmax, cap);
        let rest = emitted_prefix(spans, labels, sentence, n - 1);
        let cur = emitted_prefix(spans, labels, sentence, n);
        if kept(spans[n - 1]) {
            assert forall|k: int| 0 <= k < cur.len() implies {
                let e = #[trigger] cur[k];
                e.start < e.end && e.end <= endmax && e.score <= cap && e.word
                    == sentence.subrange(e.start as int, e.end as int)
            } by {
                if k < rest.len() {
                    assert(cur[k] == rest[k]);
                } else {
                    assert(cur[k] == entity_of(spans[n - 1], labels, sentence));
                }
            }
        }
    }
}

/// Every extracted entity is well formed: a nonempty range inside the
/// sentence, a confidence within the fixed-point scale whenever the rows are,
/// and a word that is exactly the sentence bytes of its range.
pub proof fn lemma_entity_invariants(
    tokens: Seq<TokenSpan>,
    rows: Seq<Seq<u32>>,
    labels: Seq<Seq<char>>,
    sentence: Seq<u8>,
)
    requires
        tokens.len() == rows.len(),
        forall|i: int| 0 <= i < rows.len() ==> (#[trigger] rows[i]).len() >= 1,
        forall|i: int| 0 <= i < tokens.len() ==> (#[trigger] tokens[i]).end <= sentence.len(),
        forall|i: int, j: int|
            0 <= i < rows.len() && 0 <= j < rows[i].len() ==> #[trigger] rows[i][j] <= SCORE_SCALE,
    ensures
        forall|k: int|
            0 <= k < spec_extract(tokens, rows, labels, sentence).len() ==> {
                let e = #[trigger] spec_extract(tokens, rows, labels, sentence)[k];
                e.start < e.end && e.end <= sentence.len() && e.score <= SCORE_SCALE && e.word
                    == sentence.subrange(e.start as int, e.end as int)
            },
{
    let n = rows.len() as int;
    let spans = merged_spans(tokens, rows);
    lemma_merged_prefix_bounds(tokens, rows, n, sentence.len() as int, SCORE_SCALE);
    lemma_emitted_prefix_shape(
        spans,
        labels,
        sentence,
        spans.len() as int,
        sentence.len() as int,
        SCORE_SCALE,
    );
}

/// The arg-max label id of one score row with its confidence, the earliest
/// label on ties.
fn row_arg_max(row: &Vec<u32>) -> (r: (usize, u32))
    requires
        row@.len() >= 1,
    ensures
        r.0 as int == arg_max(row@),
        r.1 == row_confidence(row@),
{
    let mut best: usize = 0;
    let mut j: usize = 1;
    while j < row.len()
        invariant
            1 <= j <= row@.len(),
            best < j,
            best as int == arg_max_prefix(row@, j as int),
        decreases row@.len() - j,
    {
        if row[j] > row[best] {
            best = j;
        }
        j += 1;
    }
    (best, row[best])
}

/// Turns per-token score rows and token offsets into merged entity spans.
///
/// Pure and deterministic: the result is exactly [`spec_extract`] of the
/// inputs. A shape mismatch between `tokens`, `scores`, the vocabulary width
/// and the sentence bounds is a caller bug, excluded by precondition; see
/// [`crate::runtime`] for the checked entry point.
pub fn extract(
    tokens: &Vec<TokenSpan>,
    scores: &Vec<Vec<u32>>,
    sentence: &Vec<u8>,
    vocab: &LabelVocab,
) -> (entities: Vec<Entity>)
    requires
        vocab.wf(),
        tokens@.len() == scores@.len(),
        forall|i: int| 0 <= i < scores@.len() ==> (#[trigger] scores@[i])@.len() == vocab@.len(),
        forall|i: int| 0 <= i < tokens@.len() ==> (#[trigger] tokens@[i]).end <= sentence@.len(),
    ensures
        entity_views(entities@) == spec_extract(tokens@, row_views(scores@), vocab@, sentence@),
{
    let ghost rows: Seq<Seq<u32>> = row_views(scores@);
    let n = tokens.len();
    let mut spans: Vec<RawSpan> = Vec::new();
    let mut i: usize = 0;
    while i < n
        invariant
            i <= n,
            n == tokens@.len(),
            n == scores@.len(),
            vocab.wf(),
            rows == row_views(scores@),
            forall|k: int| 0 <= k < n ==> (#[trigger] scores@[k])@.len() == vocab@.len(),
            forall|k: int| 0 <= k < n ==> (#[trigger] tokens@[k]).end <= sentence@.len(),
            spans@ == merged_prefix(tokens@, rows, i as int),
            forall|k: int|
                0 <= k < spans@.len() ==> (#[trigger] spans@[k]).label < vocab@.len()
                    && spans@[k].end <= sentence@.len(),
        decreases n - i,
    {
        let row = &scores[i];
        proof {
            assert(rows[i as int] == row@);
            lemma_arg_max_bounds(row@);
        }
        let (lab, conf) = row_arg_max(row);
        let tok = tokens[i];
        let m = spans.len();
        if m > 0 && spans[m - 1].label == lab {
            let prev = spans[m - 1];
            spans[m - 1] =
                RawSpan {
                    label: lab,
                    score: if prev.score >= conf {
                        prev.score
                    } else {
                        conf
                    },
                    start: if prev.start <= tok.start {
                        prev.start
                    } else {
                        tok.start
                    },
                    end: if prev.end >= tok.end {
                        prev.end
                    } else {
                        tok.end
                    },
                };
        } else {
            spans.push(RawSpan { label: lab, score: conf, start: tok.start, end: tok.end });
        }
        proof {
            assert(spans@ =~= merged_prefix(tokens@, rows, i + 1 as int));
        }
        i += 1;
    }

    let mut entities: Vec<Entity> = Vec::new();
    let mut k: usize = 0;
    while k < spans.len()
        invariant
            k <= spans@.len(),
            vocab.wf(),
            forall|j: int|
                0 <= j < spans@.len() ==> (#[trigger] spans@[j]).label < vocab@.len()
                    && spans@[j].end <= sentence@.len(),
            entity_views(entities@) == emitted_prefix(spans@, vocab@, sentence@, k as int),
        decreases spans@.len() - k,
    {
        let s = spans[k];
        if s.label != NO_ENTITY_LABEL && s.end > s.start {
            let label = vocab.get(s.label).clone();
            let word = copy_range(sentence, s.start, s.end);
            let e = Entity { label, score: s.score, word, start: s.start, end: s.end };
            proof {
                assert(e@ =~= entity_of(spans@[k as int], vocab@, sentence@));
            }
            entities.push(e);
        }
        proof {
            assert(entity_views(entities@) =~= emitted_prefix(
                spans@,
                vocab@,
                sentence@,
                k + 1 as int,
            ));
        }
        k += 1;
    }
    proof {
        assert(spans@ == merged_spans(tokens@, rows));
    }
    entities
}

} // verus!
