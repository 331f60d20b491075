//! The producer facade's decision logic: payload encoding dispatch, the
//! dead-letter line format, the per-request outcome bookkeeping, the
//! client configuration key mapping, line decoding for the line-oriented
//! sources, the bounded fan-in state, and the ingress loop's shutdown
//! discipline.
use vstd::prelude::*;

use crate::base64::{b64_decode, b64_encode, base64_decode, base64_encode};
use crate::registry::{EncodeError, SchemaRegistry};
use crate::util::clone_bytes;
use crate::value::DeserError;

verus! {

/// The producer send timeout, in milliseconds.
pub const SEND_TIMEOUT_MS: u64 = 3000;

/// The Kafka side of the configuration: bootstrap address, topic, extra
/// client options, and the optional dead-letter file name.
pub struct Producer {
    pub bootstrap_server: Vec<u8>,
    pub topic: Vec<u8>,
    pub schema_registry_url: Option<Vec<u8>>,
    pub producer_config: Vec<(Vec<u8>, Vec<u8>)>,
    pub dead_letters: Option<Vec<u8>>,
}

/// Index of the first `=` in a `KEY=VALUE` argument.
pub open spec fn spec_find_eq(s: Seq<u8>, i: int) -> Option<int>
    decreases
            (if 0 <= i && i < s.len() {
                s.len() - i
            } else {
                0
            }),
{
    if !(0 <= i < s.len()) {
        None
    } else if s[i] == 61 {
        Some(i)
    } else {
        spec_find_eq(s, i + 1)
    }
}

/// Lowercase an ASCII letter.
pub open spec fn spec_lower(c: u8) -> u8 {
    if 65 <= c <= 90 {
        (c + 32) as u8
    } else {
        c
    }
}

/// The configured key mapping: each byte lowercased, then `_` to `.`, then
/// every `..` (which only a doubled underscore can produce) back to `_`.
pub open spec fn spec_map_key(s: Seq<u8>) -> Seq<u8>
    decreases s.len(),
{
    if s.len() == 0 {
        Seq::<u8>::empty()
    } else if s.len() >= 2 && s[0] == 95 && s[1] == 95 {
        seq![95u8] + spec_map_key(s.skip(2))
    } else if s[0] == 95 {
        seq![46u8] + spec_map_key(s.skip(1))
    } else {
        seq![spec_lower(s[0])] + spec_map_key(s.skip(1))
    }
}

impl Producer {
    /// Split a `KEY=VALUE` argument at its first equals sign.
    pub fn parse_tuple(s: &[u8]) -> (r: Result<(Vec<u8>, Vec<u8>), DeserError>)
        ensures
            match r {
                Ok((k, v)) => match spec_find_eq(s@, 0) {
                    Some(p) => k@ == s@.take(p) && v@ == s@.skip(p + 1),
                    None => false,
                },
                Err(_) => spec_find_eq(s@, 0) is None,
            },
    {
        let mut p: usize = 0;
        while p < s.len() && s[p] != 61
            invariant
                p <= s.len(),
                spec_find_eq(s@, 0) == spec_find_eq(s@, p as int),
            decreases s.len() - p,
        {
            p = p + 1;
        }
        if p >= s.len() {
            return Err(DeserError::TypeMismatch);
        }
        let mut key: Vec<u8> = Vec::new();
        let mut i: usize = 0;
        while i < p
            invariant
                i <= p <= s.len(),
                key@ == s@.take(i as int),
            decreases p - i,
        {
            key.push(s[i]);
            i = i + 1;
            proof {
                assert(s@.take(i - 1) + seq![s@[i - 1]] =~= s@.take(i as int));
            }
        }
        let mut value: Vec<u8> = Vec::new();
        let mut j: usize = p + 1;
        while j < s.len()
            invariant
                p + 1 <= j <= s.len(),
                value@ == s@.subrange(p + 1, j as int),
            decreases s.len() - j,
        {
            value.push(s[j]);
            j = j + 1;
            proof {
                assert(s@.subrange(p + 1, j - 1) + seq![s@[j - 1]] =~= s@.subrange(
                    p + 1,
                    j as int,
                ));
            }
        }
        proof {
            assert(s@.subrange(p + 1, s@.len() as int) =~= s@.skip(p + 1));
        }
        Ok((key, value))
    }

    /// Map an environment key (with the override prefix already removed)
    /// to the downstream client's configuration key.
    pub fn map_env_key(key: &[u8]) -> (r: Vec<u8>)
        ensures
            r@ == spec_map_key(key@),
    {
        let mut out: Vec<u8> = Vec::new();
        let mut i: usize = 0;
        proof {
            assert(key@.skip(0) =~= key@);
            assert(out@ + spec_map_key(key@) =~= spec_map_key(key@));
        }
        while i < key.len()
            invariant
                i <= key.len(),
                out@ + spec_map_key(key@.skip(i as int)) == spec_map_key(key@),
            decreases key.len() - i,
        {
            let ghost i0 = i as int;
            let ghost out0 = out@;
            proof {
                let t = key@.skip(i0);
                assert(t.skip(1) =~= key@.skip(i0 + 1));
                assert(t.len() >= 2 ==> t.skip(2) =~= key@.skip(i0 + 2));
                assert(t[0] == key@[i0]);
                assert(t.len() >= 2 ==> t[1] == key@[i0 + 1]);
            }
            let c = key[i];
            if c == 95 && i + 1 < key.len() && key[i + 1] == 95 {
                out.push(95);
                i = i + 2;
            } else if c == 95 {
                out.push(46);
                i = i + 1;
            } else {
                let lc: u8 = if 65 <= c && c <= 90 {
                    c + 32
                } else {
                    c
                };
                out.push(lc);
                i = i + 1;
            }
            proof {
                assert(out@ + spec_map_key(key@.skip(i as int)) =~= out0 + spec_map_key(
                    key@.skip(i0),
                ));
            }
        }
        proof {
            assert(key@.skip(key@.len() as int) =~= Seq::<u8>::empty());
            assert(out@ + Seq::<u8>::empty() =~= out@);
        }
        out
    }

    /// The downstream client configuration: the defaults first, then the
    /// environment overrides with their keys mapped, then the explicit
    /// arguments; later entries override earlier ones when applied.
    pub fn client_config(
        &self,
        defaults: &Vec<(Vec<u8>, Vec<u8>)>,
        env_overrides: &Vec<(Vec<u8>, Vec<u8>)>,
    ) -> (r: Vec<(Vec<u8>, Vec<u8>)>)
        ensures
            r@.len() == defaults@.len() + env_overrides@.len() + self.producer_config@.len(),
            forall|i: int|
                0 <= i < defaults@.len() ==> #[trigger] r@[i].0@ == defaults@[i].0@ && r@[i].1@
                    == defaults@[i].1@,
            forall|i: int|
                0 <= i < env_overrides@.len() ==> #[trigger] r@[defaults@.len() + i].0@
                    == spec_map_key(env_overrides@[i].0@) && r@[defaults@.len() + i].1@
                    == env_overrides@[i].1@,
            forall|i: int|
                0 <= i < self.producer_config@.len() ==> #[trigger] r@[defaults@.len()
                    + env_overrides@.len() + i].0@ == self.producer_config@[i].0@ && r@[
                    defaults@.len() + env_overrides@.len() + i].1@ == self.producer_config@[i].1@,
    {
        let mut out: Vec<(Vec<u8>, Vec<u8>)> = Vec::new();
        let mut i: usize = 0;
        while i < defaults.len()
            invariant
                i <= defaults@.len(),
                out@.len() == i,
                forall|q: int|
                    0 <= q < i ==> #[trigger] out@[q].0@ == defaults@[q].0@ && out@[q].1@
                        == defaults@[q].1@,
            decreases defaults.len() - i,
        {
            out.push((clone_bytes(&defaults[i].0), clone_bytes(&defaults[i].1)));
            i = i + 1;
        }
        let mut j: usize = 0;
        while j < env_overrides.len()
            invariant
                j <= env_overrides@.len(),
                out@.len() == defaults@.len() + j,
                forall|q: int|
                    0 <= q < defaults@.len() ==> #[trigger] out@[q].0@ == defaults@[q].0@
                        && out@[q].1@ == defaults@[q].1@,
                forall|q: int|
                    0 <= q < j ==> #[trigger] out@[defaults@.len() + q].0@ == spec_map_key(
                        env_overrides@[q].0@,
                    ) && out@[defaults@.len() + q].1@ == env_overrides@[q].1@,
            decreases env_overrides.len() - j,
        {
            out.push(
                (
                    Producer::map_env_key(env_overrides[j].0.as_slice()),
                    clone_bytes(&env_overrides[j].1),
                ),
            );
            j = j + 1;
        }
        let mut k: usize = 0;
        while k < self.producer_config.len()
            invariant
                k <= self.producer_config@.len(),
                out@.len() == defaults@.len() + env_overrides@.len() + k,
                forall|q: int|
                    0 <= q < defaults@.len() ==> #[trigger] out@[q].0@ == defaults@[q].0@
                        && out@[q].1@ == defaults@[q].1@,
                forall|q: int|
                    0 <= q < env_overrides@.len() ==> #[trigger] out@[defaults@.len() + q].0@
                        == spec_map_key(env_overrides@[q].0@) && out@[defaults@.len() + q].1@
                        == env_overrides@[q].1@,
                forall|q: int|
                    0 <= q < k ==> #[trigger] out@[defaults@.len() + env_overrides@.len() + q].0@
                        == self.producer_config@[q].0@ && out@[defaults@.len()
                        + env_overrides@.len() + q].1@ == self.producer_config@[q].1@,
            decreases self.producer_config.len() - k,
        {
            out.push(
                (
                    clone_bytes(&self.producer_config[k].0),
                    clone_bytes(&self.producer_config[k].1),
                ),
            );
            k = k + 1;
        }
        out
    }
}

/// Decode one line from a line-oriented source: the raw bytes, or their
/// base64 decoding when the source is flagged.
pub fn decode_line(line: &[u8], base64: bool) -> (r: Result<Vec<u8>, DeserError>)
    ensures
        match r {
            Ok(v) => if base64 {
                b64_decode(line@) == Some(v@)
            } else {
                v@ == line@
            },
            Err(e) => base64 && b64_decode(line@) is None && e == DeserError::InvalidBase64,
        },
{
    if base64 {
        match base64_decode(line) {
            Some(v) => Ok(v),
            None => Err(DeserError::InvalidBase64),
        }
    } else {
        let mut v: Vec<u8> = Vec::new();
        let mut i: usize = 0;
        while i < line.len()
            invariant
                i <= line.len(),
                v@ == line@.take(i as int),
            decreases line.len() - i,
        {
            v.push(line[i]);
            i = i + 1;
            proof {
                assert(line@.take(i - 1) + seq![line@[i - 1]] =~= line@.take(i as int));
            }
        }
        proof {
            assert(line@.take(line@.len() as int) =~= line@);
        }
        Ok(v)
    }
}

/// The dead-letter log line for a payload: its base64, then a newline.
pub fn dead_letter_line(payload: &[u8]) -> (r: Vec<u8>)
    ensures
        r@ == b64_encode(payload@) + seq![10u8],
{
    let mut line = base64_encode(payload);
    line.push(10);
    line
}

/// What became of one payload handed to `send`.
#[derive(Debug, Clone, Copy, PartialEq, Eq, Structural)]
pub enum SendOutcome {
    /// The broker acknowledged the record.
    Delivered,
    /// The send failed and the payload went to the dead-letter log.
    DeadLettered,
    /// The send failed and no dead-letter log is configured: the payload
    /// is dropped with an error log entry.
    Dropped,
}

/// Settle a send: exactly one of the three outcomes holds for every
/// combination of broker result and configuration.
pub fn settle_send(produce_ok: bool, dead_letters_configured: bool) -> (r: SendOutcome)
    ensures
        (r == SendOutcome::Delivered) == produce_ok,
        (r == SendOutcome::DeadLettered) == (!produce_ok && dead_letters_configured),
        (r == SendOutcome::Dropped) == (!produce_ok && !dead_letters_configured),
{
    if produce_ok {
        SendOutcome::Delivered
    } else if dead_letters_configured {
        SendOutcome::DeadLettered
    } else {
        SendOutcome::Dropped
    }
}

/// Every payload entering `send` meets exactly one of the three outcomes.
pub proof fn lemma_send_exactly_one(produce_ok: bool, dead_letters_configured: bool, r: SendOutcome)
    requires
        (r == SendOutcome::Delivered) == produce_ok,
        (r == SendOutcome::DeadLettered) == (!produce_ok && dead_letters_configured),
        (r == SendOutcome::Dropped) == (!produce_ok && !dead_letters_configured),
    ensures
        r == SendOutcome::Delivered || r == SendOutcome::DeadLettered || r == SendOutcome::Dropped,
        r == SendOutcome::Delivered ==> r != SendOutcome::DeadLettered && r != SendOutcome::Dropped,
        r == SendOutcome::DeadLettered ==> r != SendOutcome::Delivered && r != SendOutcome::Dropped,
        r == SendOutcome::Dropped ==> r != SendOutcome::Delivered && r != SendOutcome::DeadLettered,
{
}

/// The counters and dead-letter log of the producer, as the metrics
/// endpoint sees them.
pub struct SendLedger {
    pub success: u64,
    pub failure: u64,
    pub produced: u64,
    pub dead_letters: Vec<Vec<u8>>,
}

impl SendLedger {
    pub fn new() -> (r: SendLedger)
        ensures
            r.success == 0 && r.failure == 0 && r.produced == 0 && r.dead_letters@.len() == 0,
    {
        SendLedger { success: 0, failure: 0, produced: 0, dead_letters: Vec::new() }
    }

    /// Record one settled send: exactly one of a success increment, a
    /// failure increment with a dead-letter append, or a failure increment
    /// alone (the drop) happens.
    pub fn record(&mut self, payload: &[u8], outcome: SendOutcome)
        requires
            old(self).success < 0xffffffffffffffff,
            old(self).failure < 0xffffffffffffffff,
            old(self).produced < 0xffffffffffffffff,
        ensures
            outcome == SendOutcome::Delivered ==> final(self).success == old(self).success + 1
                && final(self).produced == old(self).produced + 1 && final(self).failure == old(
                self,
            ).failure && final(self).dead_letters@ == old(self).dead_letters@,
            outcome == SendOutcome::DeadLettered ==> final(self).failure == old(self).failure + 1
                && final(self).success == old(self).success && final(self).produced == old(
                self,
            ).produced && final(self).dead_letters@.len() == old(self).dead_letters@.len() + 1
                && final(self).dead_letters@.last()@ == b64_encode(payload@) + seq![10u8],
            outcome == SendOutcome::Dropped ==> final(self).failure == old(self).failure + 1
                && final(self).success == old(self).success && final(self).produced == old(
                self,
            ).produced && final(self).dead_letters@ == old(self).dead_letters@,
    {
        match outcome {
            SendOutcome::Delivered => {
                self.success = self.success + 1;
                self.produced = self.produced + 1;
            },
            SendOutcome::DeadLettered => {
                self.failure = self.failure + 1;
                let line = dead_letter_line(payload);
                self.dead_letters.push(line);
            },
            SendOutcome::Dropped => {
                self.failure = self.failure + 1;
            },
        }
    }
}

/// Encode a payload for the wire: the identity when no schema registry is
/// configured, the framed Avro record otherwise.
pub fn encode_payload(registry: &Option<SchemaRegistry>, payload: &[u8]) -> (r: Result<
    Vec<u8>,
    EncodeError,
>)
    ensures
        match *registry {
            None => r is Ok && r->Ok_0@ == payload@,
            Some(ref sr) => match crate::jsontext::spec_parse_json(payload@) {
                None => r == Err::<Vec<u8>, EncodeError>(EncodeError::InvalidJson),
                Some(jv) => match crate::deser::spec_deser(sr.schema, jv) {
                    Err(e) => r == Err::<Vec<u8>, EncodeError>(EncodeError::Deser(e)),
                    Ok(sv) => r is Ok && (exists|v: crate::value::Value|
                        crate::value::value_view(v) == sv && r->Ok_0@ == crate::avro::spec_framed(
                            sr.id,
                            v,
                        )),
                },
            },
        },
{
    match registry {
        None => {
            let mut v: Vec<u8> = Vec::new();
            let mut i: usize = 0;
            while i < payload.len()
                invariant
                    i <= payload.len(),
                    v@ == payload@.take(i as int),
                decreases payload.len() - i,
            {
                v.push(payload[i]);
                i = i + 1;
                proof {
                    assert(payload@.take(i - 1) + seq![payload@[i - 1]] =~= payload@.take(i as int));
                }
            }
            proof {
                assert(payload@.take(payload@.len() as int) =~= payload@);
            }
            Ok(v)
        },
        Some(sr) => sr.encode(payload),
    }
}

/// Bounded-concurrency dispatch: the number of in-flight sends never
/// exceeds the configured ceiling.
pub struct FanIn {
    limit: usize,
    in_flight: usize,
}

impl FanIn {
    /// The concurrency ceiling is respected.
    pub closed spec fn wf(self) -> bool {
        self.in_flight <= self.limit
    }

    pub fn new(limit: usize) -> (r: FanIn)
        ensures
            r.wf(),
            r.limit() == limit,
            r.in_flight() == 0,
    {
        FanIn { limit, in_flight: 0 }
    }

    pub closed spec fn limit(self) -> usize {
        self.limit
    }

    pub closed spec fn in_flight(self) -> usize {
        self.in_flight
    }

    /// Admit one send when a slot is free; never exceeds the limit.
    pub fn try_begin(&mut self) -> (r: bool)
        requires
            old(self).wf(),
        ensures
            final(self).wf(),
            final(self).limit() == old(self).limit(),
            r == (old(self).in_flight() < old(self).limit()),
            r ==> final(self).in_flight() == old(self).in_flight() + 1,
            !r ==> final(self).in_flight() == old(self).in_flight(),
    {
        if self.in_flight < self.limit {
            self.in_flight = self.in_flight + 1;
            true
        } else {
            false
        }
    }

    /// A send completed and releases its slot.
    pub fn complete(&mut self)
        requires
            old(self).wf(),
            old(self).in_flight() > 0,
        ensures
            final(self).wf(),
            final(self).limit() == old(self).limit(),
            final(self).in_flight() == old(self).in_flight() - 1,
    {
        self.in_flight = self.in_flight - 1;
    }
}

/// An event observed by an ingress run loop.
#[derive(Debug, Clone, Copy, PartialEq, Eq, Structural)]
pub enum IngressEvent {
    /// A payload arrived.
    Message,
    /// A read returned an operating-system error; the source itself is
    /// still alive.
    TransportError,
    /// The underlying source is exhausted.
    StreamEnd,
    /// The shutdown broadcast fired.
    Shutdown,
}

/// What the run loop does next.
#[derive(Debug, Clone, Copy, PartialEq, Eq, Structural)]
pub enum IngressAction {
    /// Hand the payload to the producer.
    Dispatch,
    /// Keep reading: the caller logs the transport error and the stream
    /// goes on.
    Continue,
    /// Leave the loop; no further payload is acknowledged.
    Finish,
}

/// The shutdown discipline of an ingress run loop: once the shutdown
/// signal has been observed, or the source ended, no further payload is
/// dispatched.
pub struct IngressLoop {
    pub shutdown_seen: bool,
    pub finished: bool,
}

impl IngressLoop {
    pub fn new() -> (r: IngressLoop)
        ensures
            !r.shutdown_seen && !r.finished,
    {
        IngressLoop { shutdown_seen: false, finished: false }
    }

    /// Decide the next action for an event. A payload is dispatched if and
    /// only if neither shutdown nor the end of the stream has been seen; a
    /// transport error keeps the loop running unless the loop is already
    /// done; the stream's end and the shutdown signal finish it.
    pub fn step(&mut self, event: IngressEvent) -> (r: IngressAction)
        ensures
            (r == IngressAction::Dispatch) == (!old(self).shutdown_seen && !old(self).finished
                && event == IngressEvent::Message),
            (r == IngressAction::Continue) == (!old(self).shutdown_seen && !old(self).finished
                && event == IngressEvent::TransportError),
            (r == IngressAction::Finish) == (old(self).shutdown_seen || old(self).finished || event
                == IngressEvent::StreamEnd || event == IngressEvent::Shutdown),
            final(self).shutdown_seen == (old(self).shutdown_seen || event
                == IngressEvent::Shutdown),
            final(self).finished == (old(self).finished || event == IngressEvent::StreamEnd
                || event == IngressEvent::Shutdown),
            old(self).shutdown_seen ==> r == IngressAction::Finish,
    {
        let was_done = self.shutdown_seen || self.finished;
        if event == IngressEvent::Shutdown {
            self.shutdown_seen = true;
        }
        if event == IngressEvent::StreamEnd || event == IngressEvent::Shutdown {
            self.finished = true;
        }
        if was_done || event == IngressEvent::StreamEnd || event == IngressEvent::Shutdown {
            IngressAction::Finish
        } else if event == IngressEvent::Message {
            IngressAction::Dispatch
        } else {
            IngressAction::Continue
        }
    }
}

/// The HTTP status for a push request: 204 on success, 500 on error.
pub fn rest_response_code(send_ok: bool) -> (r: u16)
    ensures
        r == (if send_ok {
            204int
        } else {
            500int
        }),
{
    if send_ok {
        204
    } else {
        500
    }
}

/// A CoAP response status.
#[derive(Debug, Clone, Copy, PartialEq, Eq, Structural)]
pub enum CoapStatus {
    Changed,
    InternalServerError,
    NotFound,
    MethodNotAllowed,
}

/// The CoAP response for a request: Changed on a successful POST to
/// `produce`, InternalServerError on a failed one, NotFound for any other
/// path, MethodNotAllowed for any other method.
pub fn coap_response(is_post: bool, path_is_produce: bool, send_ok: bool) -> (r: CoapStatus)
    ensures
        is_post && path_is_produce && send_ok ==> r == CoapStatus::Changed,
        is_post && path_is_produce && !send_ok ==> r == CoapStatus::InternalServerError,
        is_post && !path_is_produce ==> r == CoapStatus::NotFound,
        !is_post ==> r == CoapStatus::MethodNotAllowed,
{
    if !is_post {
        CoapStatus::MethodNotAllowed
    } else if !path_is_produce {
        CoapStatus::NotFound
    } else if send_ok {
        CoapStatus::Changed
    } else {
        CoapStatus::InternalServerError
    }
}

} // verus!
