use vstd::prelude::*;
use crate::error::SessionError;
use crate::request::{ack_ok, is_ack_ok, is_request, request_name, request_spec, format_request,
    parse_request, ok_message};

verus! {

// The session protocol is a fixed two-role exchange: the initiator
// requests to send a named archive, the responder accepts or rejects,
// the initiator streams the archive, and either side closes. Each role
// is a pure step function from state and event to next state and action;
// a driving loop performs the I/O each action names and feeds the
// outcome back as the next event. Any deviation from the expected
// exchange, and any I/O failure, collapses the machine to Closed with an
// error outcome. The machine asks for the transport to be shut down
// exactly once, on the transition into Closed, and never acts again
// afterwards.

/// How a finished session ended.
#[derive(Clone, Copy, Debug, PartialEq, Eq)]
pub enum Outcome {
    Success,
    Failure(SessionError),
}

/// What happened at the transport since the last step, as the driving
/// loop reports it.
#[derive(Debug)]
pub enum Event {
    /// The session is to begin (initiator only).
    Start,
    /// The requested message write completed in full.
    Sent,
    /// The requested message read completed, with this payload.
    Received(Vec<u8>),
    /// The archive stream moved in full (sent or received, by role).
    Streamed,
    /// An unrecoverable error of this kind occurred.
    Failed(SessionError),
}

/// The mathematical image of an `Event`.
pub enum EventV {
    Start,
    Sent,
    Received(Seq<u8>),
    Streamed,
    Failed(SessionError),
}

impl View for Event {
    type V = EventV;

    open spec fn view(&self) -> EventV {
        match self {
            Event::Start => EventV::Start,
            Event::Sent => EventV::Sent,
            Event::Received(m) => EventV::Received(m@),
            Event::Streamed => EventV::Streamed,
            Event::Failed(k) => EventV::Failed(*k),
        }
    }
}

/// What the driving loop must do to the transport next.
#[derive(Debug)]
pub enum Action {
    /// Frame and write this message, completely.
    WriteMessage(Vec<u8>),
    /// Read one complete framed message.
    ReadMessage,
    /// Stream the archive's bytes to the peer in bounded chunks.
    SendArchive,
    /// Receive the archive's bytes until the peer's end-of-stream.
    ReceiveArchive,
    /// Flush and close the transport. Asked for exactly once per session.
    Shutdown,
    /// Nothing: the session is over.
    Nothing,
}

/// The mathematical image of an `Action`.
pub enum ActionV {
    WriteMessage(Seq<u8>),
    ReadMessage,
    SendArchive,
    ReceiveArchive,
    Shutdown,
    Nothing,
}

impl View for Action {
    type V = ActionV;

    open spec fn view(&self) -> ActionV {
        match self {
            Action::WriteMessage(m) => ActionV::WriteMessage(m@),
            Action::ReadMessage => ActionV::ReadMessage,
            Action::SendArchive => ActionV::SendArchive,
            Action::ReceiveArchive => ActionV::ReceiveArchive,
            Action::Shutdown => ActionV::Shutdown,
            Action::Nothing => ActionV::Nothing,
        }
    }
}

/// The initiator's protocol position.
#[derive(Clone, Copy, Debug, PartialEq, Eq)]
pub enum InitiatorState {
    Idle,
    RequestSent,
    AwaitingAck,
    Transferring,
    Closed(Outcome),
}

/// One initiator step: from the current state and an event to the next
/// state and the action the driving loop must perform.
pub open spec fn initiator_step(s: InitiatorState, name: Seq<u8>, e: EventV) -> (InitiatorState,
    ActionV) {
    match (s, e) {
        (InitiatorState::Idle, EventV::Start) => (
            InitiatorState::RequestSent,
            ActionV::WriteMessage(request_spec(name)),
        ),
        (InitiatorState::RequestSent, EventV::Sent) => (
            InitiatorState::AwaitingAck,
            ActionV::ReadMessage,
        ),
        (InitiatorState::AwaitingAck, EventV::Received(m)) => if m == ack_ok() {
            (InitiatorState::Transferring, ActionV::SendArchive)
        } else {
            (
                InitiatorState::Closed(Outcome::Failure(SessionError::Protocol)),
                ActionV::Shutdown,
            )
        },
        (InitiatorState::Transferring, EventV::Streamed) => (
            InitiatorState::Closed(Outcome::Success),
            ActionV::Shutdown,
        ),
        (InitiatorState::Closed(o), _) => (InitiatorState::Closed(o), ActionV::Nothing),
        (_, EventV::Failed(k)) => (InitiatorState::Closed(Outcome::Failure(k)), ActionV::Shutdown),
        _ => (InitiatorState::Closed(Outcome::Failure(SessionError::Protocol)), ActionV::Shutdown),
    }
}

/// The initiator role of one connection: it owns its archive name and its
/// protocol position for the connection's whole lifetime.
pub struct InitiatorSession {
    state: InitiatorState,
    name: Vec<u8>,
}

impl InitiatorSession {
    /// The current protocol position.
    pub closed spec fn protocol_state(&self) -> InitiatorState {
        self.state
    }

    /// The archive name this session announces.
    pub closed spec fn archive_name(&self) -> Seq<u8> {
        self.name@
    }

    /// A fresh session over a freshly established transport, ready to
    /// announce the archive of the given name.
    pub fn new(name: Vec<u8>) -> (r: InitiatorSession)
        ensures
            r.protocol_state() == InitiatorState::Idle,
            r.archive_name() == name@,
    {
        InitiatorSession { state: InitiatorState::Idle, name }
    }

    pub fn current_state(&self) -> (s: InitiatorState)
        ensures
            s == self.protocol_state(),
    {
        self.state
    }

    /// Drive the session by one event. The new state and the returned
    /// action are exactly `initiator_step` of the old state and the
    /// event; stated with it are the acknowledgement gate and the single
    /// shutdown.
    pub fn step(&mut self, event: Event) -> (action: Action)
        ensures
            (final(self).protocol_state(), action@) == initiator_step(
                old(self).protocol_state(),
                old(self).archive_name(),
                event@,
            ),
            final(self).archive_name() == old(self).archive_name(),
            // the acknowledgement gate: the archive is streamed only on
            // the exact acknowledgement `OK`
            action@ is SendArchive ==> (event@ matches EventV::Received(m) && m == ack_ok()),
            // the transport is shut down exactly once: on the transition
            // into Closed, and never out of Closed
            action@ is Shutdown <==> (!(old(self).protocol_state() is Closed)
                && final(self).protocol_state() is Closed),
    {
        match (self.state, event) {
            (InitiatorState::Idle, Event::Start) => {
                self.state = InitiatorState::RequestSent;
                Action::WriteMessage(format_request(self.name.as_slice()))
            },
            (InitiatorState::RequestSent, Event::Sent) => {
                self.state = InitiatorState::AwaitingAck;
                Action::ReadMessage
            },
            (InitiatorState::AwaitingAck, Event::Received(m)) => {
                if is_ack_ok(m.as_slice()) {
                    self.state = InitiatorState::Transferring;
                    Action::SendArchive
                } else {
                    self.state = InitiatorState::Closed(Outcome::Failure(SessionError::Protocol));
                    Action::Shutdown
                }
            },
            (InitiatorState::Transferring, Event::Streamed) => {
                self.state = InitiatorState::Closed(Outcome::Success);
                Action::Shutdown
            },
            (InitiatorState::Closed(_), _) => Action::Nothing,
            (_, Event::Failed(k)) => {
                self.state = InitiatorState::Closed(Outcome::Failure(k));
                Action::Shutdown
            },
            _ => {
                self.state = InitiatorState::Closed(Outcome::Failure(SessionError::Protocol));
                Action::Shutdown
            },
        }
    }
}

/// The responder's protocol position. The reply's completion and the
/// stream's reception are one position here, `Receiving`: the reception
/// begins the moment the `OK` reply is confirmed written.
#[derive(Clone, Copy, Debug, PartialEq, Eq)]
pub enum ResponderState {
    Idle,
    RequestReceived,
    Receiving,
    Closed(Outcome),
}

/// One responder step: from the current state and an event to the next
/// state and the action the driving loop must perform. Validation of the
/// request is accept-all: any well-formed request is acknowledged.
pub open spec fn responder_step(s: ResponderState, e: EventV) -> (ResponderState, ActionV) {
    match (s, e) {
        (ResponderState::Idle, EventV::Received(m)) => if is_request(m) {
            (ResponderState::RequestReceived, ActionV::WriteMessage(ack_ok()))
        } else {
            (
                ResponderState::Closed(Outcome::Failure(SessionError::Protocol)),
                ActionV::Shutdown,
            )
        },
        (ResponderState::RequestReceived, EventV::Sent) => (
            ResponderState::Receiving,
            ActionV::ReceiveArchive,
        ),
        (ResponderState::Receiving, EventV::Streamed) => (
            ResponderState::Closed(Outcome::Success),
            ActionV::Shutdown,
        ),
        (ResponderState::Closed(o), _) => (ResponderState::Closed(o), ActionV::Nothing),
        (_, EventV::Failed(k)) => (ResponderState::Closed(Outcome::Failure(k)), ActionV::Shutdown),
        _ => (ResponderState::Closed(Outcome::Failure(SessionError::Protocol)), ActionV::Shutdown),
    }
}

/// Whether this state and event are an acceptable transfer request: the
/// responder is waiting for one and the received message is well-formed.
pub open spec fn accepts_request(s: ResponderState, e: EventV) -> bool {
    s is Idle && (e matches EventV::Received(m) && is_request(m))
}

/// The archive name carried by a received message, if the event is one.
pub open spec fn received_request_name(e: EventV) -> Seq<u8> {
    match e {
        EventV::Received(m) => request_name(m),
        _ => Seq::empty(),
    }
}

/// The responder role of one connection: it records the requested
/// archive name and its protocol position for the connection's whole
/// lifetime.
pub struct ResponderSession {
    state: ResponderState,
    name: Vec<u8>,
}

impl ResponderSession {
    /// The current protocol position.
    pub closed spec fn protocol_state(&self) -> ResponderState {
        self.state
    }

    /// The archive name of the request this session accepted, empty
    /// until one arrives.
    pub closed spec fn archive_name(&self) -> Seq<u8> {
        self.name@
    }

    /// A fresh session over a freshly accepted transport, expecting a
    /// transfer request.
    pub fn new() -> (r: ResponderSession)
        ensures
            r.protocol_state() == ResponderState::Idle,
            r.archive_name() == Seq::<u8>::empty(),
    {
        ResponderSession { state: ResponderState::Idle, name: Vec::new() }
    }

    pub fn current_state(&self) -> (s: ResponderState)
        ensures
            s == self.protocol_state(),
    {
        self.state
    }

    /// The name carried by the accepted request.
    pub fn requested_name(&self) -> (n: &Vec<u8>)
        ensures
            n@ == self.archive_name(),
    {
        &self.name
    }

    /// Drive the session by one event. The new state and the returned
    /// action are exactly `responder_step` of the old state and the
    /// event; an accepted request's name is recorded.
    pub fn step(&mut self, event: Event) -> (action: Action)
        ensures
            (final(self).protocol_state(), action@) == responder_step(
                old(self).protocol_state(),
                event@,
            ),
            // the accepted request's name is recorded, and kept otherwise
            accepts_request(old(self).protocol_state(), event@) ==> final(self).archive_name()
                == received_request_name(event@),
            !accepts_request(old(self).protocol_state(), event@) ==> final(self).archive_name()
                == old(self).archive_name(),
            // the transport is shut down exactly once: on the transition
            // into Closed, and never out of Closed
            action@ is Shutdown <==> (!(old(self).protocol_state() is Closed)
                && final(self).protocol_state() is Closed),
    {
        match (self.state, event) {
            (ResponderState::Idle, Event::Received(m)) => {
                match parse_request(m.as_slice()) {
                    Some(name) => {
                        self.name = name;
                        self.state = ResponderState::RequestReceived;
                        Action::WriteMessage(ok_message())
                    },
                    None => {
                        self.state = ResponderState::Closed(
                            Outcome::Failure(SessionError::Protocol),
                        );
                        Action::Shutdown
                    },
                }
            },
            (ResponderState::RequestReceived, Event::Sent) => {
                self.state = ResponderState::Receiving;
                Action::ReceiveArchive
            },
            (ResponderState::Receiving, Event::Streamed) => {
                self.state = ResponderState::Closed(Outcome::Success);
                Action::Shutdown
            },
            (ResponderState::Closed(_), _) => Action::Nothing,
            (_, Event::Failed(k)) => {
                self.state = ResponderState::Closed(Outcome::Failure(k));
                Action::Shutdown
            },
            _ => {
                self.state = ResponderState::Closed(Outcome::Failure(SessionError::Protocol));
                Action::Shutdown
            },
        }
    }
}

/// The initiator machine run over a whole sequence of events: the final
/// state and every action asked of the driving loop, in order.
pub open spec fn initiator_run(s: InitiatorState, name: Seq<u8>, events: Seq<EventV>) -> (
    InitiatorState,
    Seq<ActionV>,
)
    decreases events.len(),
{
    if events.len() == 0 {
        (s, Seq::empty())
    } else {
        let (s1, a) = initiator_step(s, name, events[0]);
        let (s2, rest) = initiator_run(s1, name, events.drop_first());
        (s2, seq![a] + rest)
    }
}

/// The responder machine run over a whole sequence of events.
pub open spec fn responder_run(s: ResponderState, events: Seq<EventV>) -> (
    ResponderState,
    Seq<ActionV>,
)
    decreases events.len(),
{
    if events.len() == 0 {
        (s, Seq::empty())
    } else {
        let (s1, a) = responder_step(s, events[0]);
        let (s2, rest) = responder_run(s1, events.drop_first());
        (s2, seq![a] + rest)
    }
}

/// How many of a run's actions ask for the transport to be shut down.
pub open spec fn count_shutdowns(actions: Seq<ActionV>) -> int
    decreases actions.len(),
{
    if actions.len() == 0 {
        0
    } else {
        (if actions[0] is Shutdown {
            1int
        } else {
            0int
        }) + count_shutdowns(actions.drop_first())
    }
}

/// Session closure, initiator side: over any run whatever, successful or
/// failed, the transport is shut down exactly once if the session
/// reaches Closed and never otherwise — never zero times, never twice.
pub proof fn lemma_initiator_shutdown_once(s: InitiatorState, name: Seq<u8>, events: Seq<EventV>)
    ensures
        ({
            let (f, actions) = initiator_run(s, name, events);
            &&& count_shutdowns(actions) == if f is Closed && !(s is Closed) {
                1int
            } else {
                0int
            }
            &&& (s is Closed ==> f is Closed)
        }),
    decreases events.len(),
{
    if events.len() > 0 {
        let (s1, a) = initiator_step(s, name, events[0]);
        lemma_initiator_shutdown_once(s1, name, events.drop_first());
        let (f, rest) = initiator_run(s1, name, events.drop_first());
        assert((seq![a] + rest)[0] == a);
        assert((seq![a] + rest).drop_first() =~= rest);
    }
}

/// Session closure, responder side: the same, over any responder run.
pub proof fn lemma_responder_shutdown_once(s: ResponderState, events: Seq<EventV>)
    ensures
        ({
            let (f, actions) = responder_run(s, events);
            &&& count_shutdowns(actions) == if f is Closed && !(s is Closed) {
                1int
            } else {
                0int
            }
            &&& (s is Closed ==> f is Closed)
        }),
    decreases events.len(),
{
    if events.len() > 0 {
        let (s1, a) = responder_step(s, events[0]);
        lemma_responder_shutdown_once(s1, events.drop_first());
        let (f, rest) = responder_run(s1, events.drop_first());
        assert((seq![a] + rest)[0] == a);
        assert((seq![a] + rest).drop_first() =~= rest);
    }
}

/// The acknowledgement gate over a whole run: if no received message is
/// exactly `OK`, the initiator never asks for the archive to be
/// streamed, so the count of archive bytes written after a rejection is
/// zero.
pub proof fn lemma_acknowledgement_gate(s: InitiatorState, name: Seq<u8>, events: Seq<EventV>)
    requires
        forall|i: int|
            0 <= i < events.len() ==> !(#[trigger] events[i] matches EventV::Received(m) && m
                == ack_ok()),
    ensures
        ({
            let (f, actions) = initiator_run(s, name, events);
            forall|i: int| 0 <= i < actions.len() ==> !(#[trigger] actions[i] is SendArchive)
        }),
    decreases events.len(),
{
    if events.len() > 0 {
        let (s1, a) = initiator_step(s, name, events[0]);
        assert(!(events[0] matches EventV::Received(m) && m == ack_ok()));
        assert forall|i: int|
            0 <= i < events.drop_first().len() implies !(#[trigger] events.drop_first()[i] matches
            EventV::Received(m) && m == ack_ok()) by {
            assert(events.drop_first()[i] == events[i + 1]);
        }
        lemma_acknowledgement_gate(s1, name, events.drop_first());
        let (f, rest) = initiator_run(s1, name, events.drop_first());
        let actions = seq![a] + rest;
        assert forall|i: int| 0 <= i < actions.len() implies !(#[trigger] actions[i]
            is SendArchive) by {
            if i == 0 {
                assert(actions[0] == a);
            } else {
                assert(actions[i] == rest[i - 1]);
            }
        }
    }
}

} // verus!
