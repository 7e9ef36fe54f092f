//! The relay between a client and an agent: two lanes, one in each direction,
//! that are independent of each other. The relay says which events of the two
//! channels it waits for, is told how each read and write ended, and is
//! finished when both peers have ended and everything read was written.

use crate::flow::{lemma_nothing_held, Flow, Lane};
use vstd::prelude::*;

verus! {

/// The size of reads where nothing else is asked for. It holds most agent
/// messages whole; the relay works with any size.
pub const READ_BUF_SIZE: usize = 1024;

/// One of the two peers.
#[derive(Clone, Copy, Debug, PartialEq, Eq, Structural)]
pub enum Side {
    /// The peer that asked for the session.
    Client,
    /// The agent that the session was opened to.
    Agent,
}

/// The events that the relay waits for.
#[derive(Clone, Copy, Debug, PartialEq, Eq, Structural)]
pub struct Interest {
    /// The client has something to read.
    pub client_readable: bool,
    /// The client takes bytes.
    pub client_writable: bool,
    /// The agent has something to read.
    pub agent_readable: bool,
    /// The agent takes bytes.
    pub agent_writable: bool,
}

/// How a read or a write failed.
#[derive(Clone, Copy, Debug, PartialEq, Eq, Structural)]
pub enum IoFault {
    /// The channel was not ready after all.
    WouldBlock,
    /// Any other failure; the operating system's error number.
    Failed(i32),
}

/// What a session was doing when it failed.
#[derive(Clone, Copy, Debug, PartialEq, Eq, Structural)]
pub enum Operation {
    /// Reading from the peer.
    Read,
    /// Writing to the peer.
    Write,
}

/// The failure that ends a session.
#[derive(Clone, Copy, Debug, PartialEq, Eq, Structural)]
pub struct RelayError {
    /// The peer whose channel failed.
    pub side: Side,
    /// What was being done on it.
    pub operation: Operation,
    /// The operating system's error number.
    pub errno: i32,
}

/// The peer at the other end.
pub open spec fn spec_peer(side: Side) -> Side {
    match side {
        Side::Client => Side::Agent,
        Side::Agent => Side::Client,
    }
}

/// The peer at the other end.
#[verifier::when_used_as_spec(spec_peer)]
pub fn peer(side: Side) -> (other: Side)
    ensures
        other == spec_peer(side),
{
    match side {
        Side::Client => Side::Agent,
        Side::Agent => Side::Client,
    }
}

/// The two directions of a session, by their histories.
pub struct Session {
    /// The bytes on their way from the client to the agent.
    pub to_agent: Flow,
    /// The bytes on their way from the agent to the client.
    pub to_client: Flow,
}

impl Session {
    /// The flow of the bytes that are read from `side`.
    pub open spec fn from(self, side: Side) -> Flow {
        match side {
            Side::Client => self.to_agent,
            Side::Agent => self.to_client,
        }
    }

    /// The flow of the bytes that are written to `side`.
    pub open spec fn toward(self, side: Side) -> Flow {
        self.from(spec_peer(side))
    }

    /// The session with `flow` as the flow of the bytes read from `side`.
    pub open spec fn with_from(self, side: Side, flow: Flow) -> Session {
        match side {
            Side::Client => Session { to_agent: flow, ..self },
            Side::Agent => Session { to_client: flow, ..self },
        }
    }

    /// Both directions are well-formed.
    pub open spec fn wf(self) -> bool {
        self.to_agent.wf() && self.to_client.wf()
    }

    /// The events to wait for: a peer is read while it has not ended and
    /// nothing read from it is held, and written to while something is held
    /// for it.
    pub open spec fn interest(self) -> Interest {
        Interest {
            client_readable: self.to_agent.wants_read(),
            client_writable: self.to_client.wants_write(),
            agent_readable: self.to_client.wants_read(),
            agent_writable: self.to_agent.wants_write(),
        }
    }

    /// Both peers have ended and nothing is held in either direction.
    pub open spec fn finished(self) -> bool {
        self.to_agent.drained() && self.to_client.drained()
    }

    /// The session after a read from `side` that ended as `outcome` says.
    pub open spec fn after_read(self, side: Side, outcome: Result<Seq<u8>, IoFault>) -> Session {
        match outcome {
            Ok(data) => self.with_from(side, self.from(side).after_read(data)),
            Err(_) => self,
        }
    }

    /// The session after a write to `side` that ended as `outcome` says.
    pub open spec fn after_write(self, side: Side, outcome: Result<usize, IoFault>) -> Session {
        match outcome {
            Ok(n) => self.with_from(spec_peer(side), self.toward(side).after_write(n as nat)),
            Err(_) => self,
        }
    }
}

/// What happens on a channel in the course of a session.
pub enum Event {
    /// A read from a peer, and how it ended.
    Read(Side, Result<Seq<u8>, IoFault>),
    /// A write to a peer, and how it ended.
    Write(Side, Result<usize, IoFault>),
}

impl Session {
    /// The session in which nothing has happened yet, with reads of at most
    /// `limit` bytes.
    pub open spec fn start(limit: nat) -> Session {
        let idle = Flow { taken: Seq::empty(), given: Seq::empty(), closed: false, limit };
        Session { to_agent: idle, to_client: idle }
    }

    /// `event` can happen in the session: a peer is read only while the relay
    /// waits for that, a read brings no more than its size allows, and a
    /// write takes no more than is held for the peer.
    pub open spec fn permits(self, event: Event) -> bool {
        match event {
            Event::Read(side, outcome) => self.from(side).wants_read() && (outcome matches Ok(
                data,
            ) ==> data.len() <= self.from(side).limit),
            Event::Write(side, outcome) => outcome matches Ok(n) ==> n <= self.toward(
                side,
            ).held().len(),
        }
    }

    /// The session after `event`.
    pub open spec fn after(self, event: Event) -> Session {
        match event {
            Event::Read(side, outcome) => self.after_read(side, outcome),
            Event::Write(side, outcome) => self.after_write(side, outcome),
        }
    }

    /// Every one of `events` can happen when its turn comes.
    pub open spec fn permits_all(self, events: Seq<Event>) -> bool
        decreases events.len(),
    {
        events.len() > 0 ==> self.permits(events[0]) && self.after(events[0]).permits_all(
            events.drop_first(),
        )
    }

    /// The session after `events`, one after the other.
    pub open spec fn after_all(self, events: Seq<Event>) -> Session
        decreases events.len(),
    {
        if events.len() == 0 {
            self
        } else {
            self.after(events[0]).after_all(events.drop_first())
        }
    }
}

/// An event that can happen leaves a well-formed session well-formed.
pub proof fn lemma_after_event(session: Session, event: Event)
    requires
        session.wf(),
        session.permits(event),
    ensures
        session.after(event).wf(),
{
    match event {
        Event::Read(side, Ok(data)) => {
            crate::flow::lemma_after_read(session.from(side), data);
        },
        Event::Write(side, Ok(n)) => {
            crate::flow::lemma_after_write(session.toward(side), n as nat);
        },
        _ => {},
    }
}

/// Whatever happens in a session, and however the bytes are cut into reads
/// and writes: each peer has at any time been given a beginning of what was
/// read from the other, no more than one read is held back in a direction,
/// and once the session is finished each peer has been given all that was
/// read from the other.
pub proof fn lemma_session_delivers(limit: nat, events: Seq<Event>)
    requires
        Session::start(limit).permits_all(events),
    ensures
        ({
            let end = Session::start(limit).after_all(events);
            &&& end.wf()
            &&& end.to_agent.held().len() <= limit
            &&& end.to_client.held().len() <= limit
            &&& end.finished() ==> end.to_agent.given == end.to_agent.taken && end.to_client.given
                == end.to_client.taken
        }),
{
    let start = Session::start(limit);
    assert(start.to_agent.held() =~= Seq::<u8>::empty());
    lemma_events_keep_wf(start, events);
    let end = start.after_all(events);
    if end.finished() {
        lemma_finished_gave_all(end);
    }
}

/// Events that can happen leave a well-formed session well-formed, with
/// reads of the same size.
proof fn lemma_events_keep_wf(session: Session, events: Seq<Event>)
    requires
        session.wf(),
        session.permits_all(events),
    ensures
        session.after_all(events).wf(),
        session.after_all(events).to_agent.limit == session.to_agent.limit,
        session.after_all(events).to_client.limit == session.to_client.limit,
    decreases events.len(),
{
    if events.len() > 0 {
        lemma_after_event(session, events[0]);
        lemma_events_keep_wf(session.after(events[0]), events.drop_first());
    }
}

/// The failure, if any, with which an operation on `side` that ended as
/// `fault` says ends the session. A channel that was not ready after all is
/// no failure.
pub open spec fn failure(side: Side, operation: Operation, fault: IoFault) -> Option<RelayError> {
    match fault {
        IoFault::WouldBlock => None,
        IoFault::Failed(errno) => Some(RelayError { side, operation, errno }),
    }
}

/// A session that is not finished waits for at least one event.
pub proof fn lemma_unfinished_waits(session: Session)
    requires
        !session.finished(),
    ensures
        session.interest().client_readable || session.interest().client_writable
            || session.interest().agent_readable || session.interest().agent_writable,
{
}

/// A finished session waits for nothing, and each peer was given all that was
/// read from the other, byte for byte and in order.
pub proof fn lemma_finished_gave_all(session: Session)
    requires
        session.wf(),
        session.finished(),
    ensures
        session.interest() == (Interest {
            client_readable: false,
            client_writable: false,
            agent_readable: false,
            agent_writable: false,
        }),
        session.toward(Side::Agent).given == session.from(Side::Client).taken,
        session.toward(Side::Client).given == session.from(Side::Agent).taken,
{
    lemma_nothing_held(session.to_agent);
    lemma_nothing_held(session.to_client);
}

/// At any time each peer has been given a beginning of what was read from the
/// other, and what is held back in a direction is no more than one read.
pub proof fn lemma_in_order_and_bounded(session: Session, side: Side)
    requires
        session.wf(),
    ensures
        session.toward(side).given.is_prefix_of(session.from(spec_peer(side)).taken),
        session.toward(side).held().len() <= session.toward(side).limit,
{
}

/// Where the agent sends back exactly what it was given, the client has, at
/// the end of the session, been given exactly what was read from it.
pub proof fn lemma_echo_round_trip(session: Session)
    requires
        session.wf(),
        session.finished(),
        session.from(Side::Agent).taken == session.toward(Side::Agent).given,
    ensures
        session.toward(Side::Client).given == session.from(Side::Client).taken,
{
    lemma_finished_gave_all(session);
}

/// A relay session between a client and an agent.
pub struct Relay {
    to_agent: Lane,
    to_client: Lane,
}

impl View for Relay {
    type V = Session;

    closed spec fn view(&self) -> Session {
        Session { to_agent: self.to_agent@, to_client: self.to_client@ }
    }
}

impl Relay {
    /// Both lanes are well-formed.
    pub closed spec fn wf(&self) -> bool {
        self.to_agent.wf() && self.to_client.wf()
    }

    /// A well-formed relay stands for a well-formed session.
    pub proof fn lemma_wf(&self)
        requires
            self.wf(),
        ensures
            self@.wf(),
    {
        self.to_agent.lemma_wf();
        self.to_client.lemma_wf();
    }

    /// A session in which nothing has happened yet, with reads of at most
    /// `read_size` bytes.
    pub fn new(read_size: usize) -> (relay: Relay)
        ensures
            relay.wf(),
            relay@ == Session::start(read_size as nat),
    {
        Relay { to_agent: Lane::new(read_size), to_client: Lane::new(read_size) }
    }

    /// The most bytes that a read from `side` may bring.
    pub fn read_size(&self, side: Side) -> (size: usize)
        ensures
            size == self@.from(side).limit,
    {
        match side {
            Side::Client => self.to_agent.limit(),
            Side::Agent => self.to_client.limit(),
        }
    }

    /// The events to wait for.
    pub fn interest(&self) -> (interest: Interest)
        requires
            self.wf(),
        ensures
            interest == self@.interest(),
    {
        Interest {
            client_readable: self.to_agent.wants_read(),
            client_writable: self.to_client.wants_write(),
            agent_readable: self.to_client.wants_read(),
            agent_writable: self.to_agent.wants_write(),
        }
    }

    /// Tells whether the session is finished: both peers have ended, and each
    /// was given all that was read from the other.
    pub fn finished(&self) -> (yes: bool)
        requires
            self.wf(),
        ensures
            yes == self@.finished(),
            yes ==> self@.toward(Side::Agent).given == self@.from(Side::Client).taken
                && self@.toward(Side::Client).given == self@.from(Side::Agent).taken,
    {
        self.to_agent.drained() && self.to_client.drained()
    }

    /// The bytes to write to `side` next, in their order.
    pub fn unsent(&self, side: Side) -> (bytes: &[u8])
        requires
            self.wf(),
        ensures
            bytes@ == self@.toward(side).held(),
            bytes@.len() <= self@.toward(side).limit,
    {
        match side {
            Side::Client => self.to_client.unsent(),
            Side::Agent => self.to_agent.unsent(),
        }
    }

    /// Takes in how a read from `side` ended: with the bytes that it brought,
    /// none at the end of the input, or with a fault. Only a fault other than
    /// a channel that was not ready ends the session.
    pub fn on_read(&mut self, side: Side, outcome: Result<Vec<u8>, IoFault>) -> (result: Result<
        (),
        RelayError,
    >)
        requires
            old(self).wf(),
            old(self)@.from(side).wants_read(),
            outcome matches Ok(data) ==> data@.len() <= old(self)@.from(side).limit,
        ensures
            final(self).wf(),
            match outcome {
                Ok(data) => result is Ok && final(self)@ == old(self)@.after_read(side, Ok(data@)),
                Err(fault) => final(self)@ == old(self)@ && match failure(
                    side,
                    Operation::Read,
                    fault,
                ) {
                    Some(error) => result == Err::<(), RelayError>(error),
                    None => result is Ok,
                },
            },
    {
        match outcome {
            Ok(data) => {
                match side {
                    Side::Client => self.to_agent.take(data),
                    Side::Agent => self.to_client.take(data),
                }
                Ok(())
            },
            Err(IoFault::WouldBlock) => Ok(()),
            Err(IoFault::Failed(errno)) => Err(
                RelayError { side, operation: Operation::Read, errno },
            ),
        }
    }

    /// Takes in how a write to `side` ended: with the number of bytes that it
    /// took, or with a fault. Bytes that a write did not take stay held for
    /// the next one. Only a fault other than a channel that was not ready
    /// ends the session.
    pub fn on_write(&mut self, side: Side, outcome: Result<usize, IoFault>) -> (result: Result<
        (),
        RelayError,
    >)
        requires
            old(self).wf(),
            outcome matches Ok(n) ==> n <= old(self)@.toward(side).held().len(),
        ensures
            final(self).wf(),
            final(self)@ == old(self)@.after_write(side, outcome),
            match outcome {
                Ok(_) => result is Ok,
                Err(fault) => match failure(side, Operation::Write, fault) {
                    Some(error) => result == Err::<(), RelayError>(error),
                    None => result is Ok,
                },
            },
    {
        match outcome {
            Ok(n) => {
                match side {
                    Side::Client => self.to_client.wrote(n),
                    Side::Agent => self.to_agent.wrote(n),
                }
                Ok(())
            },
            Err(IoFault::WouldBlock) => Ok(()),
            Err(IoFault::Failed(errno)) => Err(
                RelayError { side, operation: Operation::Write, errno },
            ),
        }
    }
}

} // verus!
