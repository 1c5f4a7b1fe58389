//! Core of a named-entity-recognition service.
//!
//! The library holds the parts of the service with real invariants: the
//! entity extractor that merges per-token label confidences into entity
//! spans, the label vocabulary loaded with the model resource, the dispatch
//! actor's state machine with single-flight resource construction and
//! idle eviction, the bounded inbound queue that gives callers backpressure,
//! and the request-tracing decisions of the transport middleware. Everything
//! here is pure computation on plain values; the tokenizer, the model
//! engine, transport and telemetry are external collaborators driven from
//! outside the library.

pub mod bytes;
pub mod dispatch;
pub mod error;
pub mod extract;
pub mod queue;
pub mod runtime;
pub mod trace;
pub mod vocab;

pub use error::ServiceError;
