//! The life of one connection: setting it up, and the decisions of the two
//! tasks that serve it.
//!
//! The waiting itself (for the next inbound frame, for the next queued
//! message, for a write to finish) is done by the caller. What to do with
//! each thing that was waited for is decided here.

use crate::broadcaster::{attempted, broadcast, recipients, Delivery};
use crate::channel::{hyphenated, open_channel, random_identity};
use crate::frame::{client_label, label_for, relay, relay_of, Frame, Message, Payload};
use crate::registry::{Registry, RegistryError};
use tokio::sync::mpsc::UnboundedReceiver;
use vstd::prelude::*;

verus! {

/// What a newly connected client keeps for itself: its identity, its label,
/// and the consumer end of its delivery channel.
pub struct Connection {
    pub identity: u128,
    pub label: String,
    pub receiver: UnboundedReceiver<Message>,
}

/// Whether `after` is `before` with an entry added for the given identity,
/// under the given label.
pub open spec fn joined(before: Registry, after: Registry, identity: u128, label: Seq<char>) -> bool {
    &&& after@.contains_key(identity)
    &&& after@[identity].name@ == label
    &&& after@ == before@.insert(identity, after@[identity])
}

/// Sets up a connection under the given identity: creates its delivery
/// channel, registers the producer end under the label drawn from the
/// identity, and hands back the consumer end. An identity that is already
/// registered is refused and nothing is changed.
pub fn connect_as(registry: &mut Registry, identity: u128) -> (outcome: Result<Connection, RegistryError>)
    ensures
        match outcome {
            Ok(connection) => {
                &&& !old(registry).has(identity)
                &&& connection.identity == identity
                &&& connection.label@ == label_for(hyphenated(identity))
                &&& joined(*old(registry), *final(registry), identity, connection.label@)
            },
            Err(e) => {
                &&& old(registry).has(identity)
                &&& e == RegistryError::DuplicateIdentity
                &&& final(registry)@ == old(registry)@
            },
        },
{
    if registry.contains(identity) {
        return Err(RegistryError::DuplicateIdentity);
    }
    let label = client_label(identity);
    let (sender, receiver) = open_channel();
    match registry.register(identity, label.clone(), sender) {
        Ok(()) => Ok(Connection { identity, label, receiver }),
        Err(e) => Err(e),
    }
}

/// Sets up a connection under a fresh random identity. Whatever identity was
/// drawn, either it was not registered and the client has joined under it, or
/// it was and nothing has changed. With nobody registered it cannot fail.
pub fn connect(registry: &mut Registry) -> (outcome: Result<Connection, RegistryError>)
    ensures
        old(registry)@.dom() == Set::<u128>::empty() ==> outcome is Ok,
        match outcome {
            Ok(connection) => {
                &&& !old(registry).has(connection.identity)
                &&& connection.label@ == label_for(hyphenated(connection.identity))
                &&& joined(
                    *old(registry),
                    *final(registry),
                    connection.identity,
                    connection.label@,
                )
            },
            Err(e) => e == RegistryError::DuplicateIdentity && final(registry)@ == old(registry)@,
        },
{
    let identity = random_identity();
    connect_as(registry, identity)
}

/// What the receive task can observe on its half of the stream.
#[derive(Debug, PartialEq, Eq)]
pub enum Inbound {
    /// The next frame arrived.
    Frame(Frame),
    /// Reading failed.
    ReadError,
    /// The stream ended.
    Closed,
}

/// What the receive task does next.
#[derive(Debug, PartialEq, Eq)]
pub enum ReceiveAction {
    /// Broadcast this message, then read on.
    Relay(Message),
    /// Stop reading and deregister the client.
    Leave,
}

/// The message that is relayed for an event seen by the client labelled
/// `label`, if the event is a frame.
pub open spec fn relayed(label: Seq<char>, event: Inbound) -> Option<Payload> {
    match event {
        Inbound::Frame(frame) => Some(relay_of(label, frame)),
        Inbound::ReadError => None,
        Inbound::Closed => None,
    }
}

/// The messages that a receive task relays, in order, when it sees `events`
/// one after the other: one for each frame, up to the first event that makes
/// it leave.
pub open spec fn relayed_run(label: Seq<char>, events: Seq<Inbound>) -> Seq<Payload>
    decreases events.len(),
{
    if events.len() == 0 {
        Seq::empty()
    } else {
        match relayed(label, events.first()) {
            Some(message) => seq![message] + relayed_run(label, events.drop_first()),
            None => Seq::empty(),
        }
    }
}

/// The identity a broadcast on behalf of `sender` leaves out: nobody where
/// senders see their own messages, the sender where they do not.
pub open spec fn left_out(sender: u128, echo: bool) -> Option<u128> {
    if echo {
        None
    } else {
        Some(sender)
    }
}

/// The identity a broadcast on behalf of `sender` leaves out.
pub fn audience(sender: u128, echo: bool) -> (exclude: Option<u128>)
    ensures
        exclude == left_out(sender, echo),
{
    if echo {
        None
    } else {
        Some(sender)
    }
}

/// Decides what the receive task does with an event: a frame is relayed, a
/// text frame under the sender's label, rendered once, a binary frame as it
/// is; a read error or the end of the stream makes the task leave.
pub fn on_inbound(label: &str, event: &Inbound) -> (action: ReceiveAction)
    ensures
        match action {
            ReceiveAction::Relay(message) => relayed(label@, *event) == Some(message@),
            ReceiveAction::Leave => relayed(label@, *event) is None,
        },
{
    match event {
        Inbound::Frame(frame) => ReceiveAction::Relay(relay(label, frame)),
        Inbound::ReadError => ReceiveAction::Leave,
        Inbound::Closed => ReceiveAction::Leave,
    }
}

/// What one turn of the receive task did with a frame.
#[derive(Debug, PartialEq, Eq)]
pub struct Relayed {
    /// The message that was offered.
    pub message: Message,
    /// Whom it was offered to, and whether each channel took it.
    pub deliveries: Vec<Delivery>,
}

/// One turn of the receive task. The message for a frame is offered to every
/// registered client but the one the echo policy leaves out, and is returned
/// with the report of that broadcast. On a read error or the end of the
/// stream nothing is sent and `None` is returned: the task is to deregister
/// its client and end.
pub fn receive(registry: &Registry, sender: u128, label: &str, event: &Inbound, echo: bool) -> (turn:
    Option<Relayed>)
    ensures
        match turn {
            Some(done) => {
                &&& relayed(label@, *event) == Some(done.message@)
                &&& attempted(done.deliveries@).no_duplicates()
                &&& attempted(done.deliveries@).to_set() == recipients(
                    registry@,
                    left_out(sender, echo),
                )
            },
            None => relayed(label@, *event) is None,
        },
{
    match on_inbound(label, event) {
        ReceiveAction::Relay(message) => {
            let deliveries = broadcast(registry, &message, audience(sender, echo));
            Some(Relayed { message, deliveries })
        },
        ReceiveAction::Leave => None,
    }
}

/// A receive task relays one message for each frame, in the order in which
/// the frames arrive, and each message is the one that belongs to its frame.
/// It relays nothing from the first event on that is not a frame; where every
/// event is a frame, it relays as many messages as there are events.
pub proof fn lemma_relay_keeps_order(label: Seq<char>, events: Seq<Inbound>)
    ensures
        relayed_run(label, events).len() <= events.len(),
        forall|i: int|
            0 <= i < relayed_run(label, events).len() ==> relayed(label, #[trigger] events[i])
                == Some(relayed_run(label, events)[i]),
        relayed_run(label, events).len() < events.len() ==> relayed(
            label,
            events[relayed_run(label, events).len() as int],
        ) is None,
        (forall|i: int| 0 <= i < events.len() ==> (#[trigger] events[i]) is Frame) ==> relayed_run(
            label,
            events,
        ).len() == events.len(),
    decreases events.len(),
{
    if events.len() > 0 {
        let rest = events.drop_first();
        lemma_relay_keeps_order(label, rest);
        let run = relayed_run(label, events);
        match relayed(label, events.first()) {
            Some(message) => {
                let tail = relayed_run(label, rest);
                assert(run =~= seq![message] + tail);
                assert forall|i: int| 0 <= i < run.len() implies relayed(label, #[trigger] events[i])
                    == Some(run[i]) by {
                    if i > 0 {
                        assert(events[i] == rest[i - 1]);
                        assert(run[i] == tail[i - 1]);
                    }
                }
                if run.len() < events.len() {
                    assert(events[run.len() as int] == rest[tail.len() as int]);
                }
                if forall|i: int| 0 <= i < events.len() ==> (#[trigger] events[i]) is Frame {
                    assert forall|i: int| 0 <= i < rest.len() implies (#[trigger] rest[i]) is Frame by {
                        assert(rest[i] == events[i + 1]);
                    }
                }
            },
            None => {
                if forall|i: int| 0 <= i < events.len() ==> (#[trigger] events[i]) is Frame {
                    assert(events[0] is Frame);
                }
            },
        }
    }
}

/// Where the send task stands.
#[derive(Debug, Clone, Copy, PartialEq, Eq)]
pub enum SendState {
    /// Waiting for the next message on the delivery channel.
    Waiting,
    /// Writing a message to the stream.
    Writing,
    /// Ended.
    Stopped,
}

/// What the send task can observe.
#[derive(Debug, PartialEq, Eq)]
pub enum SendEvent {
    /// The delivery channel handed over its next message.
    Dequeued(Message),
    /// The delivery channel is closed and empty.
    ChannelClosed,
    /// The write went through.
    Written,
    /// The write failed.
    WriteFailed,
}

/// What the send task does next.
#[derive(Debug, PartialEq, Eq)]
pub enum SendAction {
    /// Write this message to the stream.
    Write(Message),
    /// Wait for the next message.
    AwaitMessage,
    /// End the task.
    Stop,
}

/// The state the send task is in after `event` arrives in `state`. A message
/// is written as soon as it is taken from the channel; a closed channel or a
/// failed write ends the task, with no second try; so does an event that
/// cannot arrive in the state.
pub open spec fn send_next(state: SendState, event: SendEvent) -> SendState {
    match (state, event) {
        (SendState::Waiting, SendEvent::Dequeued(_)) => SendState::Writing,
        (SendState::Writing, SendEvent::Written) => SendState::Waiting,
        _ => SendState::Stopped,
    }
}

/// What the send task writes to the stream when `event` arrives in `state`:
/// the message just taken from the channel, if it was waiting for one.
pub open spec fn written(state: SendState, event: SendEvent) -> Option<Payload> {
    match (state, event) {
        (SendState::Waiting, SendEvent::Dequeued(message)) => Some(message@),
        _ => None,
    }
}

/// What `event` took from the delivery channel, if anything.
pub open spec fn dequeued(event: SendEvent) -> Option<Payload> {
    match event {
        SendEvent::Dequeued(message) => Some(message@),
        _ => None,
    }
}

/// Whether `action` is what the send task does when `event` arrives in
/// `state`.
pub open spec fn send_does(state: SendState, event: SendEvent, action: SendAction) -> bool {
    match action {
        SendAction::Write(message) => written(state, event) == Some(message@),
        SendAction::AwaitMessage => state is Writing && event is Written,
        SendAction::Stop => send_next(state, event) is Stopped,
    }
}

/// One turn of the send task: the next state and what to do.
pub fn send_step(state: SendState, event: SendEvent) -> (next: (SendState, SendAction))
    ensures
        next.0 == send_next(state, event),
        send_does(state, event, next.1),
{
    match state {
        SendState::Waiting => match event {
            SendEvent::Dequeued(message) => (SendState::Writing, SendAction::Write(message)),
            _ => (SendState::Stopped, SendAction::Stop),
        },
        SendState::Writing => match event {
            SendEvent::Written => (SendState::Waiting, SendAction::AwaitMessage),
            _ => (SendState::Stopped, SendAction::Stop),
        },
        SendState::Stopped => (SendState::Stopped, SendAction::Stop),
    }
}

/// The state of a send task that starts in `state` and sees `events` one
/// after the other.
pub open spec fn send_run_state(state: SendState, events: Seq<SendEvent>) -> SendState
    decreases events.len(),
{
    if events.len() == 0 {
        state
    } else {
        send_run_state(send_next(state, events.first()), events.drop_first())
    }
}

/// What a send task that starts in `state` writes to the stream, in order,
/// while it sees `events` one after the other.
pub open spec fn send_run_written(state: SendState, events: Seq<SendEvent>) -> Seq<Payload>
    decreases events.len(),
{
    if events.len() == 0 {
        Seq::empty()
    } else {
        let rest = send_run_written(send_next(state, events.first()), events.drop_first());
        match written(state, events.first()) {
            Some(message) => seq![message] + rest,
            None => rest,
        }
    }
}

/// What `events` took from the delivery channel, in order.
pub open spec fn send_run_dequeued(events: Seq<SendEvent>) -> Seq<Payload>
    decreases events.len(),
{
    if events.len() == 0 {
        Seq::empty()
    } else {
        let rest = send_run_dequeued(events.drop_first());
        match dequeued(events.first()) {
            Some(message) => seq![message] + rest,
            None => rest,
        }
    }
}

/// A stopped send task stays stopped and writes nothing, whatever arrives.
pub proof fn lemma_stopped_stays_stopped(events: Seq<SendEvent>)
    ensures
        send_run_state(SendState::Stopped, events) == SendState::Stopped,
        send_run_written(SendState::Stopped, events) == Seq::<Payload>::empty(),
    decreases events.len(),
{
    if events.len() > 0 {
        lemma_stopped_stays_stopped(events.drop_first());
        assert(send_run_written(SendState::Stopped, events) =~= Seq::<Payload>::empty());
    }
}

/// Whatever a send task sees, what it has written to the stream is a prefix
/// of what it has taken from its delivery channel: no message is written
/// twice, none is skipped for a later one, none changes place or content.
pub proof fn lemma_send_writes_a_prefix(state: SendState, events: Seq<SendEvent>)
    ensures
        send_run_written(state, events).is_prefix_of(send_run_dequeued(events)),
    decreases events.len(),
{
    if events.len() > 0 {
        let first = events.first();
        let rest = events.drop_first();
        let next = send_next(state, first);
        lemma_send_writes_a_prefix(next, rest);
        let tail_written = send_run_written(next, rest);
        let tail_taken = send_run_dequeued(rest);
        let all_written = send_run_written(state, events);
        let all_taken = send_run_dequeued(events);
        match written(state, first) {
            Some(message) => {
                assert(dequeued(first) == Some(message));
                assert(all_written =~= seq![message] + tail_written);
                assert(all_taken =~= seq![message] + tail_taken);
                assert(all_written =~= all_taken.subrange(0, all_written.len() as int)) by {
                    assert(tail_written =~= tail_taken.subrange(0, tail_written.len() as int));
                }
            },
            None => {
                match dequeued(first) {
                    Some(message) => {
                        assert(next == SendState::Stopped);
                        lemma_stopped_stays_stopped(rest);
                        assert(all_written =~= Seq::<Payload>::empty());
                        assert(all_written =~= all_taken.subrange(0, 0));
                    },
                    None => {
                        assert(all_written == tail_written);
                        assert(all_taken == tail_taken);
                    },
                }
            },
        }
    }
}

/// While every write goes through, a waiting send task writes every message
/// it takes from its delivery channel, each once and in order, and is waiting
/// again afterwards.
pub proof fn lemma_send_writes_all(events: Seq<SendEvent>)
    requires
        events.len() % 2 == 0,
        forall|i: int|
            0 <= i < events.len() ==> if i % 2 == 0 {
                (#[trigger] events[i]) is Dequeued
            } else {
                events[i] is Written
            },
    ensures
        send_run_written(SendState::Waiting, events) == send_run_dequeued(events),
        send_run_written(SendState::Waiting, events).len() == events.len() / 2,
        send_run_state(SendState::Waiting, events) == SendState::Waiting,
    decreases events.len(),
{
    if events.len() > 0 {
        let first = events[0];
        let second = events[1];
        let after_first = events.drop_first();
        let rest = after_first.drop_first();
        assert(first is Dequeued);
        assert(second is Written);
        assert(after_first.first() == second);
        assert forall|i: int| 0 <= i < rest.len() implies if i % 2 == 0 {
            (#[trigger] rest[i]) is Dequeued
        } else {
            rest[i] is Written
        } by {
            assert(rest[i] == events[i + 2]);
        }
        lemma_send_writes_all(rest);
        let message = dequeued(first)->Some_0;
        assert(send_next(SendState::Waiting, first) == SendState::Writing);
        assert(send_next(SendState::Writing, second) == SendState::Waiting);
        assert(send_run_written(SendState::Writing, after_first) == send_run_written(
            SendState::Waiting,
            rest,
        ));
        assert(send_run_dequeued(after_first) == send_run_dequeued(rest));
        assert(send_run_state(SendState::Writing, after_first) == send_run_state(
            SendState::Waiting,
            rest,
        ));
        assert(send_run_written(SendState::Waiting, events) =~= seq![message] + send_run_written(
            SendState::Waiting,
            rest,
        ));
        assert(send_run_dequeued(events) =~= seq![message] + send_run_dequeued(rest));
    }
}

} // verus!
