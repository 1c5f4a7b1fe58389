//! The request-tracing decisions of the transport middleware.
//!
//! The middleware attributes one tracing span to each incoming request and
//! records the grpc status when the response leaves. Health and readiness
//! probes are the documented exception: they get no span. The decisions —
//! how a request path splits into service and method, which services are
//! probes, and which status codes count as errors — are made here on plain
//! bytes; the transport adapter only carries them out.

use vstd::prelude::*;

verus! {

use crate::bytes::copy_range;

/// The first index at or after `i` holding no `/`, scanning forward.
pub open spec fn skip_slashes(s: Seq<u8>, i: int) -> int
    decreases s.len() - i,
{
    if 0 <= i < s.len() && s[i] == 47u8 {
        skip_slashes(s, i + 1)
    } else {
        i
    }
}

/// The first index at or after `i` holding a `/`, or the length.
pub open spec fn find_slash(s: Seq<u8>, i: int) -> int
    decreases s.len() - i,
{
    if 0 <= i < s.len() {
        if s[i] == 47u8 {
            i
        } else {
            find_slash(s, i + 1)
        }
    } else {
        s.len() as int
    }
}

/// How a request path splits into service and method: leading slashes are
/// trimmed, the service runs to the next slash, the method is the rest. A
/// path without that separating slash names no route.
pub open spec fn spec_split_route(s: Seq<u8>) -> Option<(Seq<u8>, Seq<u8>)> {
    let start = skip_slashes(s, 0);
    let sep = find_slash(s, start);
    if sep < s.len() {
        Some((s.subrange(start, sep), s.subrange(sep + 1, s.len() as int)))
    } else {
        None
    }
}

/// The byte string `grpc.health`, the service-name prefix of the probes.
pub open spec fn health_prefix() -> Seq<u8> {
    seq![103u8, 114u8, 112u8, 99u8, 46u8, 104u8, 101u8, 97u8, 108u8, 116u8, 104u8]
}

/// The byte string `0`, the grpc status of a successful call.
pub open spec fn ok_status() -> Seq<u8> {
    seq![48u8]
}

/// Splits a request path into its service and method names, exactly as
/// [`spec_split_route`] says.
pub fn split_route(path: &Vec<u8>) -> (r: Option<(Vec<u8>, Vec<u8>)>)
    ensures
        ({
            match (r, spec_split_route(path@)) {
                (Some(route), Some(spec_route)) => route.0@ == spec_route.0 && route.1@
                    == spec_route.1,
                (None, None) => true,
                _ => false,
            }
        }),
{
    let n = path.len();
    let mut start: usize = 0;
    while start < n && path[start] == 47u8
        invariant
            0 <= start <= n,
            n == path@.len(),
            skip_slashes(path@, 0) == skip_slashes(path@, start as int),
        decreases n - start,
    {
        start += 1;
    }
    let mut sep: usize = start;
    while sep < n && path[sep] != 47u8
        invariant
            start <= sep <= n,
            n == path@.len(),
            find_slash(path@, start as int) == find_slash(path@, sep as int),
        decreases n - sep,
    {
        sep += 1;
    }
    if sep < n {
        let service = copy_range(path, start, sep);
        let method = copy_range(path, sep + 1, n);
        Some((service, method))
    } else {
        None
    }
}

fn health_prefix_bytes() -> (v: Vec<u8>)
    ensures
        v@ == health_prefix(),
{
    let mut v: Vec<u8> = Vec::new();
    v.push(103u8);
    v.push(114u8);
    v.push(112u8);
    v.push(99u8);
    v.push(46u8);
    v.push(104u8);
    v.push(101u8);
    v.push(97u8);
    v.push(108u8);
    v.push(116u8);
    v.push(104u8);
    proof {
        assert(v@ =~= health_prefix());
    }
    v
}

/// Whether a service name belongs to the health and readiness probes, which
/// get no tracing span.
pub fn is_health_probe(service: &Vec<u8>) -> (probe: bool)
    ensures
        probe == (service@.len() >= health_prefix().len() && service@.subrange(
            0,
            health_prefix().len() as int,
        ) == health_prefix()),
{
    let pat = health_prefix_bytes();
    if service.len() < pat.len() {
        return false;
    }
    let mut i: usize = 0;
    while i < pat.len()
        invariant
            0 <= i <= pat@.len(),
            pat@ == health_prefix(),
            pat@.len() <= service@.len(),
            forall|k: int| 0 <= k < i ==> service@[k] == pat@[k],
        decreases pat@.len() - i,
    {
        if service[i] != pat[i] {
            proof {
                assert(service@.subrange(0, health_prefix().len() as int)[i as int]
                    != health_prefix()[i as int]);
            }
            return false;
        }
        i += 1;
    }
    proof {
        assert(service@.subrange(0, health_prefix().len() as int) =~= health_prefix());
    }
    true
}

/// The grpc status of a response: the code the transport carried, or `0`
/// (success) when it carried none.
pub fn status_code_or_default(code: Option<Vec<u8>>) -> (status: Vec<u8>)
    ensures
        ({
            match code {
                Some(c) => status@ == c@,
                None => status@ == ok_status(),
            }
        }),
{
    match code {
        Some(c) => c,
        None => {
            let mut v: Vec<u8> = Vec::new();
            v.push(48u8);
            proof {
                assert(v@ =~= ok_status());
            }
            v
        },
    }
}

/// Whether a grpc status code is recorded as an error: anything but `0`.
pub fn is_error_status(status: &Vec<u8>) -> (error: bool)
    ensures
        error == (status@ != ok_status()),
{
    if status.len() == 1 && status[0] == 48u8 {
        proof {
            assert(status@ =~= ok_status());
        }
        false
    } else {
        proof {
            if status@ == ok_status() {
                assert(status@.len() == 1 && status@[0] == 48u8);
            }
        }
        true
    }
}

/// The layer that wraps a service in the tracing middleware.
#[derive(Clone, Copy, Debug, Default)]
pub struct TraceLayer;

/// A service wrapped so that each request gets a tracing span — except the
/// health probes — and each response has its grpc status recorded. The
/// wrapped service is carried as is; the transport adapter polls and calls
/// it, asking this module for every decision.
#[derive(Clone, Debug)]
pub struct TraceMiddleware<S> {
    inner: S,
}

impl TraceLayer {
    /// Wraps a service in the tracing middleware.
    pub fn layer<S>(&self, service: S) -> (m: TraceMiddleware<S>)
        ensures
            m.service() == service,
    {
        TraceMiddleware { inner: service }
    }
}

impl<S> TraceMiddleware<S> {
    /// The wrapped service.
    pub closed spec fn service(&self) -> S {
        self.inner
    }

    pub fn new(service: S) -> (m: TraceMiddleware<S>)
        ensures
            m.service() == service,
    {
        TraceMiddleware { inner: service }
    }

    /// Hands the wrapped service back.
    pub fn into_service(self) -> (s: S)
        ensures
            s == self.service(),
    {
        self.inner
    }
}

} // verus!
