//! The transport message: the versioned envelope every router and
//! transport worker exchanges.
//!
//! Wire form, in fixed field order: a version byte; the onward route;
//! the return route; the length-prefixed payload; then a presence byte
//! (`0` or `1`) followed, when it is `1`, by a length-prefixed tracing
//! token. A decoder treats "no bytes left" and "a presence byte other
//! than `1`" both as "token absent", never as an error: that is what
//! lets tracing-aware and tracing-unaware peers interoperate, and what
//! keeps room for optional fields appended after this one. Any failure
//! in the mandatory prefix is fatal and yields a single protocol error;
//! no partial message is ever returned.

use crate::bare::{
    bytes_dec, bytes_enc, lemma_bytes_enc_dec, read_slice, size_of_slice, utf8_to_string,
    write_slice,
};
use crate::route::{
    route_dec, route_enc, Address, AddressV, lemma_route_enc_dec, lemma_route_enc_truncated,
    Route,
};
use opentelemetry::trace::{Span, TraceContextExt, Tracer};
use opentelemetry::propagation::TextMapPropagator;
use vstd::assert_seqs_equal;
use vstd::prelude::*;
use vstd::utf8::valid_utf8;

verus! {

/// Ghost form of a transport message.
pub ghost struct TransportMessageV {
    pub version: u8,
    pub onward_route: Seq<AddressV>,
    pub return_route: Seq<AddressV>,
    pub payload: Seq<u8>,
    pub tracing_context: Option<Seq<u8>>,
}

/// A generic transport message: the envelope carrying a payload across
/// a multi-hop path. Exactly one component owns it at a time; every
/// hop's rewrite is decode, rewrite routes, re-encode — never a shared
/// mutation.
#[derive(Clone, Debug)]
pub struct TransportMessage {
    /// The wire-format version; at least 1.
    pub version: u8,
    /// The hops still to traverse; every router pops its own head.
    pub onward_route: Route,
    /// The hops already traversed; every router pushes its own address
    /// to the front, so replies can retrace the path.
    pub return_route: Route,
    /// Opaque application data, length-prefixed on the wire.
    pub payload: Vec<u8>,
    /// An optional tracing token: the UTF-8 bytes of an opaque
    /// correlation token. Absent in version-1-only deployments.
    pub tracing_context: Option<Vec<u8>>,
}

impl View for TransportMessage {
    type V = TransportMessageV;

    open spec fn view(&self) -> TransportMessageV {
        TransportMessageV {
            version: self.version,
            onward_route: self.onward_route@,
            return_route: self.return_route@,
            payload: self.payload@,
            tracing_context: match self.tracing_context {
                Some(t) => Some(t@),
                None => None,
            },
        }
    }
}

impl PartialEq for TransportMessage {
    fn eq(&self, other: &Self) -> (r: bool) {
        let routes_eq = self.onward_route == other.onward_route && self.return_route
            == other.return_route;
        let payload_eq = self.payload == other.payload;
        proof {
            if payload_eq {
                assert_seqs_equal!(self.payload@, other.payload@);
            }
        }
        let tc_eq = match (&self.tracing_context, &other.tracing_context) {
            (Some(a), Some(b)) => {
                let e = *a == *b;
                proof {
                    if e {
                        assert_seqs_equal!(a@, b@);
                    }
                }
                e
            },
            (None, None) => true,
            _ => false,
        };
        self.version == other.version && routes_eq && payload_eq && tc_eq
    }
}

impl Eq for TransportMessage {

}

impl vstd::std_specs::cmp::PartialEqSpecImpl for TransportMessage {
    open spec fn obeys_eq_spec() -> bool {
        true
    }

    open spec fn eq_spec(&self, other: &Self) -> bool {
        self@ == other@
    }
}

/// The error a failed encoding reports: the encoded form would not fit
/// in a buffer this machine can hold.
#[derive(Clone, Copy, Debug, PartialEq, Eq, Structural)]
pub enum EncodeError {
    SizeOverflow,
}

/// The single error a failed decoding reports: the envelope's
/// mandatory prefix could not be decoded. The caller gets no partial
/// message.
#[derive(Clone, Copy, Debug, PartialEq, Eq, Structural)]
pub enum ProtocolError {
    DecodeFailed,
}

/// Wire form of the mandatory prefix: version byte, onward route,
/// return route, length-prefixed payload.
pub open spec fn message_enc_prefix(m: TransportMessageV) -> Seq<u8> {
    seq![m.version] + route_enc(m.onward_route) + route_enc(m.return_route) + bytes_enc(
        m.payload,
    )
}

/// Wire form of the optional trailing region: a presence byte, then
/// the token when present.
pub open spec fn trailing_enc(tc: Option<Seq<u8>>) -> Seq<u8> {
    match tc {
        Some(t) => seq![1u8] + bytes_enc(t),
        None => seq![0u8],
    }
}

/// Wire form of a whole message.
pub open spec fn message_enc(m: TransportMessageV) -> Seq<u8> {
    message_enc_prefix(m) + trailing_enc(m.tracing_context)
}

/// Spec-level reading of the trailing region: no bytes at all, or a
/// presence byte other than `1`, or an unreadable or non-UTF-8 token,
/// all mean "absent" — never an error.
pub open spec fn trailing_dec(rest: Seq<u8>) -> Option<Seq<u8>> {
    if rest.len() == 0 {
        None
    } else if rest[0] == 1 {
        match bytes_dec(rest.skip(1)) {
            Some(t) => if valid_utf8(t.0) {
                Some(t.0)
            } else {
                None
            },
            None => None,
        }
    } else {
        None
    }
}

/// Spec-level reader of a whole message: the mandatory prefix read
/// positionally — any failure there is fatal — then the trailing
/// region.
pub open spec fn message_dec(s: Seq<u8>) -> Option<TransportMessageV> {
    if s.len() == 0 {
        None
    } else {
        match route_dec(s.skip(1)) {
            Some(t1) => match route_dec(s.skip(1 + t1.1 as int)) {
                Some(t2) => match bytes_dec(s.skip(1 + t1.1 + t2.1 as int)) {
                    Some(t3) => Some(
                        TransportMessageV {
                            version: s[0],
                            onward_route: t1.0,
                            return_route: t2.0,
                            payload: t3.0,
                            tracing_context: trailing_dec(s.skip(1 + t1.1 + t2.1 + t3.1 as int)),
                        },
                    ),
                    None => None,
                },
                None => None,
            },
            None => None,
        }
    }
}

/// Relies on opentelemetry's global tracer and propagator: starts a
/// fresh trace span linked to the span named by the previous token, so
/// the traces can be navigated as one, and returns the fresh span's
/// token. The result depends on the tracing backend, so nothing is
/// promised of it.
#[verifier::external_body]
fn fresh_linked_token(prev: &[u8]) -> (r: Vec<u8>) {
    let mut carrier = std::collections::HashMap::new();
    carrier.insert("traceparent".to_string(), String::from_utf8_lossy(prev).into_owned());
    let parent = opentelemetry::global::get_text_map_propagator(|p| p.extract(&carrier));
    let link = opentelemetry::trace::Link::with_context(parent.span().span_context().clone());
    let tracer = opentelemetry::global::tracer("routing_codec");
    let builder = opentelemetry::trace::SpanBuilder::from_name("message_trace").with_links(
        vec![link],
    );
    let span = tracer.build_with_context(builder, &opentelemetry::Context::new());
    let sc = span.span_context().clone();
    format!("00-{}-{}-01", sc.trace_id(), sc.span_id()).into_bytes()
}

/// Relies on opentelemetry's ambient context: returns a token for the
/// span the process is currently in. The result depends on that
/// ambient state, so nothing is promised of it.
#[verifier::external_body]
fn current_context_token() -> (r: Vec<u8>) {
    let cx = opentelemetry::Context::current();
    let sc = cx.span().span_context().clone();
    format!("00-{}-{}-01", sc.trace_id(), sc.span_id()).into_bytes()
}

impl TransportMessage {
    /// Creates a new v1 transport message: the baseline, universally
    /// decodable form, with no tracing token.
    pub fn v1(onward_route: Route, return_route: Route, payload: Vec<u8>) -> (r:
        TransportMessage)
        ensures
            r@ == (TransportMessageV {
                version: 1u8,
                onward_route: onward_route@,
                return_route: return_route@,
                payload: payload@,
                tracing_context: None,
            }),
    {
        TransportMessage {
            version: 1,
            onward_route,
            return_route,
            payload,
            tracing_context: None,
        }
    }

    /// Returns the message carrying a fresh tracing token, correlated
    /// through the tracing backend to the token the message arrived
    /// with: each message carries one bounded token rather than an
    /// ever-growing chain of identifiers across trust boundaries. The
    /// routing fields and the payload are untouched.
    pub fn start_new_tracing_context(self, tracing_context: &[u8]) -> (r: TransportMessage)
        ensures
            r@.version == self@.version,
            r@.onward_route == self@.onward_route,
            r@.return_route == self@.return_route,
            r@.payload == self@.payload,
            r@.tracing_context is Some,
    {
        let token = fresh_linked_token(tracing_context);
        TransportMessage {
            version: self.version,
            onward_route: self.onward_route,
            return_route: self.return_route,
            payload: self.payload,
            tracing_context: Some(token),
        }
    }

    /// The tracing token to correlate work on this message under: the
    /// token the message carries when present, else a token for the
    /// process's current trace context.
    pub fn tracing_context(&self) -> (r: Vec<u8>)
        ensures
            self@.tracing_context matches Some(t) ==> r@ == t,
    {
        match &self.tracing_context {
            Some(t) => {
                let mut out: Vec<u8> = Vec::new();
                out.extend_from_slice(t.as_slice());
                proof {
                    assert_seqs_equal!(out@, t@);
                }
                out
            },
            None => current_context_token(),
        }
    }

    /// One router hop as a pure transform: pops the next hop off the
    /// onward route and pushes the router's own address onto the
    /// return route, returning the rewritten message and the hop to
    /// forward it to. `None` means the onward route was empty: the
    /// message is at its destination.
    pub fn forward(self, local_address: Address) -> (r: Option<(TransportMessage, Address)>)
        ensures
            self@.onward_route.len() == 0 ==> r is None,
            self@.onward_route.len() > 0 ==> (r matches Some(p) && {
                &&& p.0@.version == self@.version
                &&& p.0@.onward_route == self@.onward_route.skip(1)
                &&& p.0@.return_route == seq![local_address@] + self@.return_route
                &&& p.0@.payload == self@.payload
                &&& p.0@.tracing_context == self@.tracing_context
                &&& p.1@ == self@.onward_route[0]
            }),
    {
        let mut onward = self.onward_route;
        let next = match onward.pop_front() {
            Some(a) => a,
            None => {
                return None;
            },
        };
        let mut ret = self.return_route;
        ret.push_front(local_address);
        let out = TransportMessage {
            version: self.version,
            onward_route: onward,
            return_route: ret,
            payload: self.payload,
            tracing_context: self.tracing_context,
        };
        Some((out, next))
    }

    /// Serializes the message in a single pass, pre-computing the
    /// total size from the components' declared sizes. Fails only when
    /// the encoded form would not fit in a buffer this machine can
    /// hold.
    pub fn encode(self) -> (r: Result<Vec<u8>, EncodeError>)
        ensures
            r matches Ok(v) ==> v@ == message_enc(self@),
            r is Err <==> message_enc(self@).len() > usize::MAX,
    {
        let onward_size = match self.onward_route.encoded_size() {
            Some(u) => u,
            None => {
                return Err(EncodeError::SizeOverflow);
            },
        };
        let return_size = match self.return_route.encoded_size() {
            Some(u) => u,
            None => {
                return Err(EncodeError::SizeOverflow);
            },
        };
        let payload_size = match size_of_slice(self.payload.as_slice()) {
            Some(u) => u,
            None => {
                return Err(EncodeError::SizeOverflow);
            },
        };
        let tracing_size: usize = match &self.tracing_context {
            Some(t) => {
                let inner = match size_of_slice(t.as_slice()) {
                    Some(u) => u,
                    None => {
                        return Err(EncodeError::SizeOverflow);
                    },
                };
                match inner.checked_add(1) {
                    Some(u) => u,
                    None => {
                        return Err(EncodeError::SizeOverflow);
                    },
                }
            },
            None => 1,
        };
        let total = match (1usize).checked_add(onward_size) {
            Some(u) => u,
            None => {
                return Err(EncodeError::SizeOverflow);
            },
        };
        let total = match total.checked_add(return_size) {
            Some(u) => u,
            None => {
                return Err(EncodeError::SizeOverflow);
            },
        };
        let total = match total.checked_add(payload_size) {
            Some(u) => u,
            None => {
                return Err(EncodeError::SizeOverflow);
            },
        };
        let total = match total.checked_add(tracing_size) {
            Some(u) => u,
            None => {
                return Err(EncodeError::SizeOverflow);
            },
        };
        let mut encoded: Vec<u8> = Vec::with_capacity(total);
        encoded.push(self.version);
        self.onward_route.manual_encode(&mut encoded);
        self.return_route.manual_encode(&mut encoded);
        write_slice(&mut encoded, self.payload.as_slice());
        match &self.tracing_context {
            Some(t) => {
                encoded.push(1);
                write_slice(&mut encoded, t.as_slice());
            },
            None => {
                encoded.push(0);
            },
        }
        proof {
            assert_seqs_equal!(encoded@, message_enc(self@));
        }
        Ok(encoded)
    }

    /// Deserializes a message. Every decoding failure in the mandatory
    /// prefix surfaces as the one protocol error; the trailing region
    /// can only make the token absent, never fail the decode.
    pub fn decode(s: &[u8]) -> (r: Result<TransportMessage, ProtocolError>)
        ensures
            r matches Ok(m) ==> message_dec(s@) == Some(m@),
            r is Ok <==> message_dec(s@) is Some,
            r matches Err(e) ==> e == ProtocolError::DecodeFailed,
    {
        match Self::internal_decode(s) {
            Some(m) => Ok(m),
            None => Err(ProtocolError::DecodeFailed),
        }
    }

    /// Positional decoding of the fields; `None` aggregates every
    /// failure in the mandatory prefix.
    fn internal_decode(s: &[u8]) -> (r: Option<TransportMessage>)
        ensures
            r matches Some(m) ==> message_dec(s@) == Some(m@),
            r is Some <==> message_dec(s@) is Some,
    {
        let slen = s.len();
        if slen == 0 {
            return None;
        }
        let version = *vstd::slice::slice_index_get(s, 0);
        let mut index: usize = 1;
        let onward_route = match Route::manual_decode(s, &mut index) {
            Some(r) => r,
            None => {
                return None;
            },
        };
        let return_route = match Route::manual_decode(s, &mut index) {
            Some(r) => r,
            None => {
                return None;
            },
        };
        let payload_slice = match read_slice(s, &mut index) {
            Some(p) => p,
            None => {
                return None;
            },
        };
        let payload = vstd::slice::slice_to_vec(payload_slice);
        let ghost rest = s@.skip(index as int);
        let tracing_context: Option<Vec<u8>> = if index < slen {
            let flag = *vstd::slice::slice_index_get(s, index);
            proof {
                assert(rest[0] == flag);
            }
            if flag == 1 {
                index = index + 1;
                proof {
                    assert_seqs_equal!(s@.skip(index as int), rest.skip(1));
                }
                match read_slice(s, &mut index) {
                    Some(sub) => {
                        if utf8_to_string(sub).is_some() {
                            Some(vstd::slice::slice_to_vec(sub))
                        } else {
                            None
                        }
                    },
                    None => None,
                }
            } else {
                None
            }
        } else {
            proof {
                assert(rest.len() == 0);
            }
            None
        };
        Some(
            TransportMessage {
                version,
                onward_route,
                return_route,
                payload,
                tracing_context,
            },
        )
    }
}

/// Decoding an encoded mandatory prefix, with any bytes at all after
/// it, recovers the mandatory fields exactly; the bytes after the
/// prefix alone decide the token.
pub proof fn lemma_message_prefix_dec(m: TransportMessageV, tail: Seq<u8>)
    ensures
        message_dec(message_enc_prefix(m) + tail) == Some(
            TransportMessageV {
                version: m.version,
                onward_route: m.onward_route,
                return_route: m.return_route,
                payload: m.payload,
                tracing_context: trailing_dec(tail),
            },
        ),
{
    let a = route_enc(m.onward_route);
    let b = route_enc(m.return_route);
    let c = bytes_enc(m.payload);
    let s = message_enc_prefix(m) + tail;
    assert(s.len() > 0);
    assert(s[0] == m.version);
    assert_seqs_equal!(s.skip(1), a + (b + (c + tail)));
    lemma_route_enc_dec(m.onward_route, b + (c + tail));
    assert_seqs_equal!(s.skip(1 + a.len() as int), b + (c + tail));
    lemma_route_enc_dec(m.return_route, c + tail);
    assert_seqs_equal!(s.skip(1 + a.len() + b.len() as int), c + tail);
    lemma_bytes_enc_dec(m.payload, tail);
    assert_seqs_equal!(s.skip(1 + a.len() + b.len() + c.len() as int), tail);
}

/// The trailing region round-trips: an absent token encodes to a
/// presence byte the reader reports as absent; a present token is
/// recovered exactly when its bytes are valid UTF-8, and reported
/// absent otherwise.
pub proof fn lemma_trailing_enc_dec(tc: Option<Seq<u8>>)
    ensures
        tc is None ==> trailing_dec(trailing_enc(tc)) is None,
        tc matches Some(t) ==> trailing_dec(trailing_enc(tc)) == (if valid_utf8(t) {
            Some(t)
        } else {
            None
        }),
{
    match tc {
        None => {
            assert(trailing_enc(tc)[0] == 0);
        },
        Some(t) => {
            let d = trailing_enc(tc);
            assert(d[0] == 1);
            assert_seqs_equal!(d.skip(1), bytes_enc(t) + Seq::<u8>::empty());
            lemma_bytes_enc_dec(t, Seq::empty());
        },
    }
}

/// Round-trip: decoding an encoded message recovers it exactly, for
/// every message without a token and for every message whose token is
/// valid UTF-8 — the only tokens a decoder reports present.
pub proof fn lemma_message_enc_dec(m: TransportMessageV)
    ensures
        m.tracing_context is None ==> message_dec(message_enc(m)) == Some(m),
        m.tracing_context matches Some(t) ==> (valid_utf8(t) ==> message_dec(message_enc(m))
            == Some(m)),
{
    lemma_message_prefix_dec(m, trailing_enc(m.tracing_context));
    lemma_trailing_enc_dec(m.tracing_context);
}

/// Backward compatibility: an envelope from a tracing-unaware encoder
/// — the mandatory prefix with no trailing byte at all — decodes
/// successfully, with the token reported absent.
pub proof fn lemma_message_dec_no_trailing(m: TransportMessageV)
    requires
        m.tracing_context is None,
    ensures
        message_dec(message_enc_prefix(m)) == Some(m),
{
    lemma_message_prefix_dec(m, Seq::empty());
    assert_seqs_equal!(message_enc_prefix(m) + Seq::<u8>::empty(), message_enc_prefix(m));
}

/// Forward tolerance: a presence byte other than `1`, followed by
/// arbitrary bytes, still decodes the mandatory fields exactly, with
/// the token reported absent — unknown trailing data is never fatal.
pub proof fn lemma_message_dec_flag_tolerance(m: TransportMessageV, flag: u8, junk: Seq<u8>)
    requires
        m.tracing_context is None,
        flag != 1,
    ensures
        message_dec(message_enc_prefix(m) + (seq![flag] + junk)) == Some(m),
{
    lemma_message_prefix_dec(m, seq![flag] + junk);
    assert((seq![flag] + junk)[0] == flag);
}

/// Truncation safety: cutting an encoded envelope at any byte boundary
/// up to the payload length prefix leaves bytes no decoder accepts —
/// never a partially populated message.
pub proof fn lemma_message_dec_truncated(m: TransportMessageV, j: int)
    requires
        0 <= j <= 1 + route_enc(m.onward_route).len() + route_enc(m.return_route).len(),
    ensures
        message_dec(message_enc(m).take(j)) is None,
{
    let a = route_enc(m.onward_route);
    let b = route_enc(m.return_route);
    let s = message_enc(m);
    let w = s.take(j);
    if j == 0 {
        assert(w.len() == 0);
    } else {
        assert(s[0] == m.version);
        assert(w[0] == m.version);
        if j - 1 < a.len() {
            assert_seqs_equal!(w.skip(1), a.take(j - 1));
            lemma_route_enc_truncated(m.onward_route, j - 1);
        } else {
            assert_seqs_equal!(w.skip(1), a + b.take(j - 1 - a.len()));
            lemma_route_enc_dec(m.onward_route, b.take(j - 1 - a.len()));
            assert_seqs_equal!(w.skip(1 + a.len() as int), b.take(j - 1 - a.len()));
            if j - 1 - a.len() < b.len() {
                lemma_route_enc_truncated(m.return_route, j - 1 - a.len());
            } else {
                assert_seqs_equal!(b.take(j - 1 - a.len()), b);
                lemma_route_enc_dec(m.return_route, Seq::empty());
                assert_seqs_equal!(b + Seq::<u8>::empty(), b);
                assert(w.skip(1 + a.len() + b.len() as int).len() == 0);
            }
        }
    }
}

/// One hop at the model level: the onward route loses its head, the
/// return route gains the router's own address at the front.
pub open spec fn hop(onward: Seq<AddressV>, ret: Seq<AddressV>, local: AddressV) -> (
    Seq<AddressV>,
    Seq<AddressV>,
) {
    (onward.skip(1), seq![local] + ret)
}

/// The routes after the message has passed one router per entry of
/// `locals`, in order.
pub open spec fn hops(onward: Seq<AddressV>, ret: Seq<AddressV>, locals: Seq<AddressV>) -> (
    Seq<AddressV>,
    Seq<AddressV>,
)
    decreases locals.len(),
{
    if locals.len() == 0 {
        (onward, ret)
    } else {
        let h = hop(onward, ret, locals[0]);
        hops(h.0, h.1, locals.skip(1))
    }
}

/// Route-stack lockstep: after `k` hops, an onward route of length at
/// least `k` has lost exactly its first `k` addresses and the return
/// route has grown by exactly `k`; after as many hops as the onward
/// route is long, the onward route is empty.
pub proof fn lemma_route_stack_lockstep(
    onward: Seq<AddressV>,
    ret: Seq<AddressV>,
    locals: Seq<AddressV>,
)
    requires
        locals.len() <= onward.len(),
    ensures
        hops(onward, ret, locals).0 == onward.skip(locals.len() as int),
        hops(onward, ret, locals).1.len() == ret.len() + locals.len(),
        locals.len() == onward.len() ==> hops(onward, ret, locals).0.len() == 0,
    decreases locals.len(),
{
    if locals.len() == 0 {
        assert_seqs_equal!(onward.skip(0), onward);
    } else {
        lemma_route_stack_lockstep(onward.skip(1), seq![locals[0]] + ret, locals.skip(1));
        assert_seqs_equal!(
            onward.skip(1).skip(locals.len() - 1),
            onward.skip(locals.len() as int)
        );
    }
}

} // verus!
