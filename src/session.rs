//! The handshake state machine and the outbound gate of one server connection.
//!
//! A session decides, for every event, which frames the writer puts on the wire
//! next. It performs no I/O: the caller writes the returned frames in order.

use vstd::prelude::*;
use crate::codec::{encode, frame};
use crate::messages::{
    initialize_request, initialized_notification, initialize_text, initialized_text,
    HANDSHAKE_REQUEST_ID,
};

verus! {

/// Progress of the initialization handshake.
#[derive(Debug, Clone, Copy, PartialEq, Eq, Structural)]
pub enum HandshakeState {
    NotStarted,
    AwaitingServerCapabilities,
    Ready,
}

/// An outbound message: its JSON text, and whether it may only be written once
/// the handshake is complete.
#[derive(Debug)]
pub struct ChannelCommData {
    pub data: String,
    pub requires_handshake_complete: bool,
}

impl ChannelCommData {
    pub fn new(data: String, requires_handshake_complete: bool) -> (r: Self)
        ensures
            r.data@ == data@,
            r.requires_handshake_complete == requires_handshake_complete,
    {
        ChannelCommData { data, requires_handshake_complete }
    }

    /// The message text.
    pub fn to_string(&self) -> (r: String)
        ensures
            r@ == self.data@,
    {
        self.data.clone()
    }
}

/// What a frame handed to the writer was.
pub enum WireEntry {
    Handshake,
    Confirmation,
    Message { requires_handshake_complete: bool },
}

/// The frame that carries text `t`.
pub open spec fn text_frame(t: Seq<char>) -> Seq<u8> {
    frame(vstd::utf8::encode_utf8(t))
}

/// The bytes of each frame in `v`.
pub open spec fn frames_view(v: &Vec<Vec<u8>>) -> Seq<Seq<u8>> {
    v@.map_values(|f: Vec<u8>| f@)
}

pub open spec fn message_frames(msgs: Seq<ChannelCommData>) -> Seq<Seq<u8>> {
    msgs.map_values(|m: ChannelCommData| text_frame(m.data@))
}

pub open spec fn message_entries(msgs: Seq<ChannelCommData>) -> Seq<WireEntry> {
    msgs.map_values(
        |m: ChannelCommData| WireEntry::Message { requires_handshake_complete: m.requires_handshake_complete },
    )
}

/// Whether a message submitted in `state` must wait: until the handshake is
/// complete, every message does.
pub open spec fn must_hold(state: HandshakeState) -> bool {
    state != HandshakeState::Ready
}

/// The abstract state of a session.
pub struct SessionView {
    pub state: HandshakeState,
    /// Messages submitted and not yet released, in submission order.
    pub held: Seq<ChannelCommData>,
    /// False once the session was shut down or its server was lost.
    pub open: bool,
    /// True once the server connection was found dead.
    pub dead: bool,
    /// Every frame released to the writer so far, in order.
    pub wire: Seq<WireEntry>,
}

/// Before the confirmation notification only the handshake request is on the
/// wire; every message comes after the confirmation; the confirmation appears
/// at most once.
pub open spec fn wire_respects_handshake(wire: Seq<WireEntry>) -> bool {
    &&& forall|i: int|
        0 <= i < wire.len() && (#[trigger] wire[i]) is Message ==> exists|j: int|
            0 <= j < i && wire[j] == WireEntry::Confirmation
    &&& forall|i: int, j: int|
        0 <= i < wire.len() && 0 <= j < wire.len() && #[trigger] wire[i] == WireEntry::Confirmation
            && #[trigger] wire[j] == WireEntry::Confirmation ==> i == j
    &&& forall|i: int, j: int|
        0 <= i < j < wire.len() && #[trigger] wire[j] == WireEntry::Confirmation ==> #[trigger] wire[i]
            == WireEntry::Handshake
}

/// Whatever sequence of events led to a session, nothing but the handshake
/// request is released before the confirmation notification, every message
/// is released after it, and the confirmation is released at most once.
pub proof fn lemma_handshake_gates_wire(s: SessionView)
    requires
        s.wf(),
    ensures
        wire_respects_handshake(s.wire),
{
    if s.state == HandshakeState::Ready {
        assert forall|i: int| 0 <= i < s.wire.len() && (#[trigger] s.wire[i]) is Message implies exists|
            j: int,
        | 0 <= j < i && s.wire[j] == WireEntry::Confirmation by {
            assert(s.wire[1] == WireEntry::Confirmation);
        }
    }
}

pub struct LspSession {
    state: HandshakeState,
    held: Vec<ChannelCommData>,
    open: bool,
    dead: bool,
    wire: Ghost<Seq<WireEntry>>,
}

impl View for LspSession {
    type V = SessionView;

    closed spec fn view(&self) -> SessionView {
        SessionView {
            state: self.state,
            held: self.held@,
            open: self.open,
            dead: self.dead,
            wire: self.wire@,
        }
    }
}

impl SessionView {
    /// The session's invariant.
    pub open spec fn wf(self) -> bool {
        &&& self.state == HandshakeState::NotStarted ==> self.wire.len() == 0
        &&& self.state == HandshakeState::AwaitingServerCapabilities ==> self.wire == seq![
            WireEntry::Handshake,
        ]
        &&& self.state == HandshakeState::Ready ==> {
            &&& self.held.len() == 0
            &&& self.wire.len() >= 2
            &&& self.wire[0] == WireEntry::Handshake
            &&& self.wire[1] == WireEntry::Confirmation
            &&& forall|i: int| 2 <= i < self.wire.len() ==> (#[trigger] self.wire[i]) is Message
        }
        &&& !self.open ==> self.held.len() == 0
        &&& self.dead ==> !self.open
    }
}

fn message_frame(text: &String) -> (r: Vec<u8>)
    ensures
        r@ == text_frame(text@),
{
    encode(text.as_str().as_bytes())
}

impl LspSession {
    /// A session whose handshake has not started yet.
    pub fn new() -> (r: Self)
        ensures
            r@.wf(),
            r@.state == HandshakeState::NotStarted,
            r@.held.len() == 0,
            r@.open,
            !r@.dead,
            r@.wire.len() == 0,
    {
        LspSession {
            state: HandshakeState::NotStarted,
            held: Vec::new(),
            open: true,
            dead: false,
            wire: Ghost(Seq::empty()),
        }
    }

    pub fn handshake_state(&self) -> (r: HandshakeState)
        ensures
            r == self@.state,
    {
        self.state
    }

    /// Whether the session still accepts and releases messages.
    pub fn is_open(&self) -> (r: bool)
        ensures
            r == self@.open,
    {
        self.open
    }

    /// Whether the server connection was found dead.
    pub fn is_dead(&self) -> (r: bool)
        ensures
            r == self@.dead,
    {
        self.dead
    }

    /// Number of messages waiting for the handshake.
    pub fn held_count(&self) -> (r: usize)
        ensures
            r == self@.held.len(),
    {
        self.held.len()
    }

    /// Queues a message. Once the handshake is complete it is released at
    /// once; before that it is held. A closed session drops it.
    pub fn submit(&mut self, msg: ChannelCommData) -> (r: Vec<Vec<u8>>)
        requires
            old(self)@.wf(),
        ensures
            final(self)@.wf(),
            !old(self)@.open ==> r@.len() == 0 && final(self)@ == old(self)@,
            old(self)@.open && must_hold(old(self)@.state) ==> r@.len() == 0
                && final(self)@ == (SessionView { held: old(self)@.held.push(msg), ..old(self)@ }),
            old(self)@.open && !must_hold(old(self)@.state) ==> frames_view(&r) == seq![
                text_frame(msg.data@),
            ] && final(self)@ == (SessionView {
                wire: old(self)@.wire.push(
                    WireEntry::Message { requires_handshake_complete: msg.requires_handshake_complete },
                ),
                ..old(self)@
            }),
    {
        let mut out: Vec<Vec<u8>> = Vec::new();
        if !self.open {
            return out;
        }
        let hold = match self.state {
            HandshakeState::Ready => false,
            _ => true,
        };
        if hold {
            self.held.push(msg);
        } else {
            out.push(message_frame(&msg.data));
            self.wire = Ghost(
                self.wire@.push(
                    WireEntry::Message { requires_handshake_complete: msg.requires_handshake_complete },
                ),
            );
            proof {
                assert(frames_view(&out) =~= seq![text_frame(msg.data@)]);
            }
        }
        out
    }

    /// Starts the handshake: only the handshake request for workspace `root`
    /// is released; messages submitted so far stay held.
    pub fn start(&mut self, root: &str) -> (r: Vec<Vec<u8>>)
        requires
            old(self)@.wf(),
        ensures
            final(self)@.wf(),
            !(old(self)@.open && old(self)@.state == HandshakeState::NotStarted) ==> r@.len() == 0
                && final(self)@ == old(self)@,
            old(self)@.open && old(self)@.state == HandshakeState::NotStarted ==> frames_view(&r)
                == seq![text_frame(initialize_text(root@))] && final(self)@ == (SessionView {
                state: HandshakeState::AwaitingServerCapabilities,
                wire: seq![WireEntry::Handshake],
                ..old(self)@
            }),
    {
        let mut out: Vec<Vec<u8>> = Vec::new();
        if !self.open {
            return out;
        }
        match self.state {
            HandshakeState::NotStarted => {},
            _ => {
                return out;
            },
        }
        let request = initialize_request(root);
        out.push(message_frame(&request));
        self.state = HandshakeState::AwaitingServerCapabilities;
        self.wire = Ghost(Seq::empty().push(WireEntry::Handshake));
        proof {
            assert(frames_view(&out) =~= seq![text_frame(initialize_text(root@))]);
            assert(self.wire@ =~= seq![WireEntry::Handshake]);
        }
        out
    }

    /// Hands the session the identifier of a response from the server. The
    /// response to the handshake request completes the handshake: the
    /// confirmation goes out first, then every held message in submission order.
    pub fn on_response(&mut self, id: Option<u64>) -> (r: Vec<Vec<u8>>)
        requires
            old(self)@.wf(),
        ensures
            final(self)@.wf(),
            old(self)@.open && old(self)@.state == HandshakeState::AwaitingServerCapabilities
                && id == Some(HANDSHAKE_REQUEST_ID) ==> frames_view(&r) == seq![
                text_frame(initialized_text()),
            ] + message_frames(old(self)@.held) && final(self)@ == (SessionView {
                state: HandshakeState::Ready,
                held: Seq::empty(),
                wire: old(self)@.wire.push(WireEntry::Confirmation) + message_entries(
                    old(self)@.held,
                ),
                ..old(self)@
            }),
            !(old(self)@.open && old(self)@.state == HandshakeState::AwaitingServerCapabilities
                && id == Some(HANDSHAKE_REQUEST_ID)) ==> r@.len() == 0 && final(self)@ == old(
                self,
            )@,
    {
        let mut out: Vec<Vec<u8>> = Vec::new();
        if !self.open {
            return out;
        }
        match self.state {
            HandshakeState::AwaitingServerCapabilities => {},
            _ => {
                return out;
            },
        }
        match id {
            Some(v) => {
                if v != HANDSHAKE_REQUEST_ID {
                    return out;
                }
            },
            None => {
                return out;
            },
        }
        let ghost orig = self.held@;
        let mut pending: Vec<ChannelCommData> = Vec::new();
        std::mem::swap(&mut self.held, &mut pending);
        let note = initialized_notification();
        out.push(message_frame(&note));
        self.state = HandshakeState::Ready;
        self.wire = Ghost(self.wire@.push(WireEntry::Confirmation));
        proof {
            assert(orig.subrange(0, 0) =~= Seq::<ChannelCommData>::empty());
            assert(frames_view(&out) =~= seq![text_frame(initialized_text())] + message_frames(
                orig.subrange(0, 0),
            ));
            assert(self.wire@ =~= old(self)@.wire.push(WireEntry::Confirmation) + message_entries(
                orig.subrange(0, 0),
            ));
        }
        let ghost mut done: int = 0;
        while pending.len() > 0
            invariant
                0 <= done <= orig.len(),
                pending@ == orig.subrange(done, orig.len() as int),
                frames_view(&out) == seq![text_frame(initialized_text())] + message_frames(
                    orig.subrange(0, done),
                ),
                self.wire@ == old(self)@.wire.push(WireEntry::Confirmation) + message_entries(
                    orig.subrange(0, done),
                ),
                self.held@.len() == 0,
                self.state == HandshakeState::Ready,
                self.open == old(self).open,
                self.dead == old(self).dead,
                old(self)@.wf(),
                old(self)@.state == HandshakeState::AwaitingServerCapabilities,
            decreases pending@.len(),
        {
            let m = pending.remove(0);
            proof {
                assert(orig.subrange(0, done + 1) =~= orig.subrange(0, done).push(m));
            }
            let ghost before = frames_view(&out);
            let ghost text = m.data@;
            let f = message_frame(&m.data);
            out.push(f);
            proof {
                assert(frames_view(&out) =~= before.push(text_frame(text)));
                assert(message_frames(orig.subrange(0, done).push(m)) =~= message_frames(
                    orig.subrange(0, done),
                ).push(text_frame(text)));
            }
            self.wire = Ghost(
                self.wire@.push(
                    WireEntry::Message { requires_handshake_complete: m.requires_handshake_complete },
                ),
            );
            proof {
                done = done + 1;
                assert(frames_view(&out) =~= seq![text_frame(initialized_text())] + message_frames(
                    orig.subrange(0, done),
                ));
                assert(self.wire@ =~= old(self)@.wire.push(WireEntry::Confirmation)
                    + message_entries(orig.subrange(0, done)));
            }
        }
        proof {
            assert(orig.subrange(0, done) =~= orig);
            assert(self.held@ =~= Seq::<ChannelCommData>::empty());
        }
        out
    }

    /// Closes the session: held messages are dropped and nothing more is released.
    pub fn shutdown(&mut self)
        requires
            old(self)@.wf(),
        ensures
            final(self)@.wf(),
            final(self)@ == (SessionView { open: false, held: Seq::empty(), ..old(self)@ }),
    {
        self.open = false;
        self.held = Vec::new();
    }

    /// Records that the server is gone (its output ended, a read or write failed,
    /// or it sent a malformed frame): the session closes for good.
    pub fn mark_dead(&mut self)
        requires
            old(self)@.wf(),
        ensures
            final(self)@.wf(),
            final(self)@ == (SessionView {
                open: false,
                dead: true,
                held: Seq::empty(),
                ..old(self)@
            }),
    {
        self.open = false;
        self.dead = true;
        self.held = Vec::new();
    }
}

} // verus!
