//! The failure kinds of the service and their user-visible face.
//!
//! Every failure is local: a construction failure is reported only to the
//! request that triggered construction, a per-job failure only to the request
//! that owns the job. No kind is fatal to the service. At the transport
//! boundary every kind collapses to the same generic message, so that no
//! internal detail leaks to callers.

use vstd::prelude::*;

verus! {

/// The classified failures of the service.
#[derive(Clone, Copy, Debug, PartialEq, Eq, Structural)]
pub enum ServiceError {
    /// A resource artifact was missing or unreadable, locally or remotely.
    ResourceIo,
    /// A resource artifact was read but malformed (label mapping, tokenizer
    /// definition).
    ResourceParse,
    /// The model engine failed, including a shape mismatch between the
    /// tokenized input and the loaded model.
    Engine,
    /// The tokenizer failed in a way not otherwise classified.
    Tokenization,
    /// A worker-pool job could not run to completion.
    Task,
}

impl ServiceError {
    /// The message shown to callers: the same for every kind, so the detailed
    /// classification stays server-side.
    pub fn public_message(&self) -> (m: String)
        ensures
            m@ == "internal error"@,
    {
        "internal error".to_owned()
    }
}

} // verus!
