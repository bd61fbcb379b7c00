//! The reader side of a connection: bytes from the server's output in,
//! decoded payloads (tagged with their correlation identifier) out.

use vstd::prelude::*;
use crate::codec::{lemma_consumed_in_bounds, lemma_parse_extend, parse_frame, DecodeStep, FrameDecoder, FrameParse, ProtocolError};
use crate::messages::{json_has_method, json_id_of, read_envelope};

verus! {

/// A payload received from the server, with the `id` it carries, if any, and
/// whether it has a `method` (a request or notification from the server).
#[derive(Debug)]
pub struct Incoming {
    pub payload: Vec<u8>,
    pub id: Option<u64>,
    pub has_method: bool,
}

impl Incoming {
    /// The identifier this payload answers: the `id` of a response; requests
    /// and notifications from the server answer nothing.
    pub open spec fn spec_response_id(&self) -> Option<u64> {
        if self.has_method {
            None
        } else {
            self.id
        }
    }

    pub fn response_id(&self) -> (r: Option<u64>)
        ensures
            r == self.spec_response_id(),
    {
        if self.has_method {
            None
        } else {
            self.id
        }
    }
}

/// What the reader observed on the server's output.
#[derive(Debug)]
pub enum ReadEvent {
    Bytes(Vec<u8>),
    EndOfStream,
    Failed,
}

/// Why a connection ended.
#[derive(Debug, Clone, Copy, PartialEq, Eq, Structural)]
pub enum ConnectionEnd {
    /// The server closed its output: the process exited.
    ProcessExited,
    /// Reading the server's output failed.
    ReadFailed,
    /// The server sent a malformed frame.
    Protocol(ProtocolError),
}

/// The result of one reader step: payloads to dispatch, in arrival order, and
/// whether the connection is over.
#[derive(Debug)]
pub struct ReaderStep {
    pub incoming: Vec<Incoming>,
    pub end: Option<ConnectionEnd>,
}

/// The frames that can be taken one after another from the front of a stream.
pub struct Drained {
    pub payloads: Seq<Seq<u8>>,
    pub rest: Seq<u8>,
    pub error: Option<ProtocolError>,
}

/// Takes complete frames off the front of `s` until one is pending or malformed.
pub open spec fn drain(s: Seq<u8>) -> Drained
    decreases s.len(),
{
    match parse_frame(s) {
        FrameParse::Complete { payload, consumed } => {
            if 0 < consumed <= s.len() {
                let next = drain(s.subrange(consumed as int, s.len() as int));
                Drained { payloads: seq![payload] + next.payloads, ..next }
            } else {
                Drained { payloads: Seq::empty(), rest: s, error: None }
            }
        },
        FrameParse::Incomplete => Drained { payloads: Seq::empty(), rest: s, error: None },
        FrameParse::Malformed { error } => Drained { payloads: Seq::empty(), rest: s, error: Some(error) },
    }
}

pub open spec fn incoming_payloads(v: Seq<Incoming>) -> Seq<Seq<u8>> {
    v.map_values(|i: Incoming| i.payload@)
}

pub open spec fn tagged(v: Seq<Incoming>) -> bool {
    forall|k: int|
        0 <= k < v.len() ==> (#[trigger] v[k]).id == json_id_of(v[k].payload@) && v[k].has_method
            == json_has_method(v[k].payload@)
}

/// Once the front of a stream is malformed, later bytes change nothing that
/// was dispatched or reported.
proof fn lemma_drain_error_extend(x: Seq<u8>, y: Seq<u8>)
    requires
        drain(x).error is Some,
    ensures
        drain(x + y).payloads == drain(x).payloads,
        drain(x + y).error == drain(x).error,
    decreases x.len(),
{
    lemma_parse_extend(x, y, 0, None);
    if let FrameParse::Complete { payload, consumed } = parse_frame(x) {
        lemma_consumed_in_bounds(x);
        let c = consumed as int;
        assert((x + y).subrange(c, (x + y).len() as int) =~= x.subrange(c, x.len() as int) + y);
        lemma_drain_error_extend(x.subrange(c, x.len() as int), y);
    }
}

/// Delivering a stream in two pieces, `x` then `y`, dispatches the same
/// payloads in the same order, leaves the same bytes waiting and ends the
/// same way as delivering `x + y` at once.
pub proof fn lemma_drain_split(x: Seq<u8>, y: Seq<u8>)
    requires
        drain(x).error is None,
    ensures
        drain(x + y).payloads == drain(x).payloads + drain(drain(x).rest + y).payloads,
        drain(x + y).rest == drain(drain(x).rest + y).rest,
        drain(x + y).error == drain(drain(x).rest + y).error,
    decreases x.len(),
{
    match parse_frame(x) {
        FrameParse::Complete { payload, consumed } => {
            lemma_parse_extend(x, y, 0, None);
            lemma_consumed_in_bounds(x);
            let c = consumed as int;
            let tail = x.subrange(c, x.len() as int);
            assert((x + y).subrange(c, (x + y).len() as int) =~= tail + y);
            lemma_drain_split(tail, y);
            assert(drain(x + y).payloads =~= drain(x).payloads + drain(drain(x).rest + y).payloads);
        },
        _ => {
            assert(drain(x).payloads + drain(drain(x).rest + y).payloads =~= drain(x + y).payloads);
        },
    }
}

/// What the reader has dispatched, kept and reported after the first `n`
/// bytes of `s` arrived one at a time, each through one reader step.
pub open spec fn bytewise(s: Seq<u8>, n: nat) -> Drained
    decreases n,
{
    if n == 0 || n > s.len() {
        Drained { payloads: Seq::empty(), rest: Seq::empty(), error: None }
    } else {
        let p = bytewise(s, (n - 1) as nat);
        if p.error is Some {
            p
        } else {
            let d = drain(p.rest.push(s[n - 1]));
            Drained { payloads: p.payloads + d.payloads, ..d }
        }
    }
}

/// Feeding a stream one byte at a time dispatches exactly the payloads that
/// feeding the same bytes at once does, in the same order.
pub proof fn lemma_bytewise_delivery(s: Seq<u8>, n: nat)
    requires
        n <= s.len(),
    ensures
        bytewise(s, n).payloads == drain(s.subrange(0, n as int)).payloads,
        bytewise(s, n).error == drain(s.subrange(0, n as int)).error,
        bytewise(s, n).error is None ==> bytewise(s, n).rest == drain(s.subrange(0, n as int)).rest,
    decreases n,
{
    if n == 0 {
        assert(s.subrange(0, 0) =~= Seq::<u8>::empty());
        assert(parse_frame(Seq::<u8>::empty()) is Incomplete);
    } else {
        lemma_bytewise_delivery(s, (n - 1) as nat);
        let x = s.subrange(0, n - 1);
        let y = seq![s[n - 1]];
        assert(x + y =~= s.subrange(0, n as int));
        let p = bytewise(s, (n - 1) as nat);
        if p.error is Some {
            lemma_drain_error_extend(x, y);
        } else {
            lemma_drain_split(x, y);
            assert(p.rest.push(s[n - 1]) =~= drain(x).rest + y);
        }
    }
}

/// What the first `n` bytes of a stream dispatch is a prefix of what the
/// whole stream dispatches: no payload is handed out before its frame has
/// arrived in full, and none differs from the one-piece delivery.
pub proof fn lemma_prefix_dispatch(s: Seq<u8>, n: int)
    requires
        0 <= n <= s.len(),
    ensures
        drain(s.subrange(0, n)).payloads.len() <= drain(s).payloads.len(),
        drain(s.subrange(0, n)).payloads == drain(s).payloads.subrange(
            0,
            drain(s.subrange(0, n)).payloads.len() as int,
        ),
{
    let x = s.subrange(0, n);
    let y = s.subrange(n, s.len() as int);
    assert(x + y =~= s);
    if drain(x).error is Some {
        lemma_drain_error_extend(x, y);
        assert(drain(s).payloads.subrange(0, drain(x).payloads.len() as int) =~= drain(x).payloads);
    } else {
        lemma_drain_split(x, y);
        assert(drain(s).payloads.subrange(0, drain(x).payloads.len() as int) =~= drain(x).payloads);
    }
}

/// One step of the reader loop. New bytes are appended to what was left over
/// and every complete frame is taken off; the end of the output or a failed
/// read ends the connection and dispatches nothing.
pub fn reader_step(decoder: &mut FrameDecoder, event: ReadEvent) -> (r: ReaderStep)
    ensures
        tagged(r.incoming@),
        event is Bytes ==> {
            let d = drain(old(decoder)@ + event->Bytes_0@);
            &&& incoming_payloads(r.incoming@) == d.payloads
            &&& final(decoder)@ == d.rest
            &&& r.end == match d.error {
                Some(e) => Some(ConnectionEnd::Protocol(e)),
                None => None,
            }
        },
        event is EndOfStream ==> r.incoming@.len() == 0 && r.end == Some(ConnectionEnd::ProcessExited)
            && final(decoder)@ == old(decoder)@,
        event is Failed ==> r.incoming@.len() == 0 && r.end == Some(ConnectionEnd::ReadFailed)
            && final(decoder)@ == old(decoder)@,
{
    let mut incoming: Vec<Incoming> = Vec::new();
    match event {
        ReadEvent::EndOfStream => ReaderStep { incoming, end: Some(ConnectionEnd::ProcessExited) },
        ReadEvent::Failed => ReaderStep { incoming, end: Some(ConnectionEnd::ReadFailed) },
        ReadEvent::Bytes(b) => {
            decoder.feed(b.as_slice());
            let ghost all = decoder@;
            proof {
                assert(incoming_payloads(incoming@) + drain(decoder@).payloads =~= drain(all).payloads);
            }
            loop
                invariant
                    all == old(decoder)@ + b@,
                    event is Bytes && event->Bytes_0@ == b@,
                    tagged(incoming@),
                    incoming_payloads(incoming@) + drain(decoder@).payloads == drain(all).payloads,
                    drain(decoder@).rest == drain(all).rest,
                    drain(decoder@).error == drain(all).error,
                decreases decoder@.len(),
            {
                let ghost before = decoder@;
                match decoder.next_payload() {
                    DecodeStep::Frame { payload, consumed } => {
                        proof {
                            lemma_consumed_in_bounds(before);
                        }
                        let (has_method, id) = read_envelope(payload.as_slice());
                        let ghost p = payload@;
                        let ghost old_incoming = incoming@;
                        incoming.push(Incoming { payload, id, has_method });
                        proof {
                            assert(incoming_payloads(incoming@) =~= incoming_payloads(old_incoming).push(p));
                            assert(drain(before).payloads =~= seq![p] + drain(decoder@).payloads);
                            assert(incoming_payloads(incoming@) + drain(decoder@).payloads
                                =~= incoming_payloads(old_incoming) + drain(before).payloads);
                        }
                    },
                    DecodeStep::Pending => {
                        proof {
                            assert(parse_frame(before) is Incomplete);
                            assert(drain(decoder@).rest == decoder@);
                            assert(drain(decoder@).payloads =~= Seq::<Seq<u8>>::empty());
                            assert(incoming_payloads(incoming@) =~= drain(all).payloads);
                        }
                        return ReaderStep { incoming, end: None };
                    },
                    DecodeStep::Error(e) => {
                        proof {
                            assert(parse_frame(before) == (FrameParse::Malformed { error: e }));
                            assert(drain(decoder@).error == Some(e));
                            assert(drain(decoder@).payloads =~= Seq::<Seq<u8>>::empty());
                            assert(incoming_payloads(incoming@) =~= drain(all).payloads);
                        }
                        return ReaderStep { incoming, end: Some(ConnectionEnd::Protocol(e)) };
                    },
                }
            }
        },
    }
}

} // verus!
