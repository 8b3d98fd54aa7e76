use broadcast_hub::broadcaster::{broadcast, rejected, Delivery};
use broadcast_hub::frame::{client_label, label_from_text, relay, render, Frame, Message};
use broadcast_hub::registry::{Registry, RegistryError};
use broadcast_hub::session::{
    audience, connect, connect_as, on_inbound, receive, send_step, Inbound, ReceiveAction,
    SendAction, SendEvent, SendState,
};
use tokio::sync::mpsc::error::TryRecvError;
use tokio::sync::mpsc::{unbounded_channel, UnboundedReceiver};

fn join(registry: &mut Registry, identity: u128, name: &str) -> UnboundedReceiver<Message> {
    let (sender, receiver) = unbounded_channel();
    assert_eq!(registry.register(identity, name.to_string(), sender), Ok(()));
    receiver
}

fn sorted(mut ids: Vec<u128>) -> Vec<u128> {
    ids.sort();
    ids
}

fn by_recipient(mut report: Vec<Delivery>) -> Vec<Delivery> {
    report.sort_by_key(|d| d.recipient);
    report
}

fn text(s: &str) -> Inbound {
    Inbound::Frame(Frame::Text(s.to_string()))
}

fn msg(s: &str) -> Message {
    Message::Text(s.to_string())
}

fn drain(receiver: &mut UnboundedReceiver<Message>) -> Vec<Message> {
    let mut got = Vec::new();
    while let Ok(message) = receiver.try_recv() {
        got.push(message);
    }
    got
}

#[test]
fn new_registry_is_empty() {
    let registry = Registry::new();
    assert_eq!(registry.len(), 0);
    assert!(registry.is_empty());
    assert!(!registry.contains(7));
    assert_eq!(registry.snapshot(), Vec::<u128>::new());
    assert_eq!(registry.label_of(7), None);
}

#[test]
fn register_adds_each_client_once() {
    let mut registry = Registry::new();
    let _a = join(&mut registry, 30, "A");
    let _b = join(&mut registry, 10, "B");
    let _c = join(&mut registry, 20, "C");
    assert_eq!(registry.len(), 3);
    assert!(!registry.is_empty());
    assert_eq!(sorted(registry.snapshot()), vec![10, 20, 30]);
    assert!(registry.contains(10));
    assert!(!registry.contains(11));
    assert_eq!(registry.label_of(20), Some("C".to_string()));
    assert_eq!(registry.get(30).map(|c| c.name.clone()), Some("A".to_string()));
    assert!(registry.get(31).is_none());
}

#[test]
fn default_registry_is_empty() {
    let registry = Registry::default();
    assert_eq!(registry.len(), 0);
    assert_eq!(registry.snapshot(), Vec::<u128>::new());
}

#[test]
fn register_refuses_a_duplicate_identity() {
    let mut registry = Registry::new();
    let mut first = join(&mut registry, 5, "first");
    let (sender, mut second) = unbounded_channel();
    assert_eq!(
        registry.register(5, "second".to_string(), sender),
        Err(RegistryError::DuplicateIdentity)
    );
    assert_eq!(registry.len(), 1);
    assert_eq!(registry.label_of(5), Some("first".to_string()));
    let report = broadcast(&registry, &msg("m"), None);
    assert_eq!(report, vec![Delivery { recipient: 5, accepted: true }]);
    assert_eq!(drain(&mut first), vec![msg("m")]);
    assert_eq!(second.try_recv(), Err(TryRecvError::Disconnected));
}

#[test]
fn broadcast_reaches_every_client_but_the_sender() {
    let mut registry = Registry::new();
    let mut receivers = Vec::new();
    for identity in 0..8u128 {
        receivers.push(join(&mut registry, identity, "c"));
    }
    let report = broadcast(&registry, &msg("hello"), Some(3));
    let attempted: Vec<u128> = report.iter().map(|d| d.recipient).collect();
    assert_eq!(sorted(attempted), vec![0, 1, 2, 4, 5, 6, 7]);
    assert!(report.iter().all(|d| d.accepted));
    for (identity, receiver) in receivers.iter_mut().enumerate() {
        if identity == 3 {
            assert_eq!(receiver.try_recv(), Err(TryRecvError::Empty));
        } else {
            assert_eq!(drain(receiver), vec![msg("hello")]);
        }
    }
}

#[test]
fn broadcast_with_echo_reaches_the_sender_too() {
    let mut registry = Registry::new();
    let mut a = join(&mut registry, 1, "A");
    let mut b = join(&mut registry, 2, "B");
    let report = broadcast(&registry, &msg("ping"), audience(1, true));
    assert_eq!(report.len(), 2);
    assert_eq!(drain(&mut a), vec![msg("ping")]);
    assert_eq!(drain(&mut b), vec![msg("ping")]);
}

#[test]
fn broadcast_over_an_empty_registry_does_nothing() {
    let registry = Registry::new();
    assert_eq!(broadcast(&registry, &msg("void"), None), Vec::<Delivery>::new());
    assert_eq!(broadcast(&registry, &msg("void"), Some(1)), Vec::<Delivery>::new());
}

#[test]
fn broadcast_leaving_out_a_stranger_reaches_all() {
    let mut registry = Registry::new();
    let mut a = join(&mut registry, 1, "A");
    let report = broadcast(&registry, &msg("x"), Some(99));
    assert_eq!(report, vec![Delivery { recipient: 1, accepted: true }]);
    assert_eq!(drain(&mut a), vec![msg("x")]);
}

#[test]
fn a_dead_channel_does_not_stop_the_others() {
    let mut registry = Registry::new();
    let mut a = join(&mut registry, 1, "A");
    let b = join(&mut registry, 2, "B");
    let mut c = join(&mut registry, 3, "C");
    drop(b);
    let report = broadcast(&registry, &msg("still here"), None);
    assert_eq!(
        by_recipient(report.clone()),
        vec![
            Delivery { recipient: 1, accepted: true },
            Delivery { recipient: 2, accepted: false },
            Delivery { recipient: 3, accepted: true },
        ]
    );
    assert_eq!(rejected(&report), vec![2]);
    assert_eq!(drain(&mut a), vec![msg("still here")]);
    assert_eq!(drain(&mut c), vec![msg("still here")]);
    assert_eq!(registry.len(), 3);
}

#[test]
fn rejected_lists_refusals_in_order() {
    let report = vec![
        Delivery { recipient: 9, accepted: false },
        Delivery { recipient: 4, accepted: true },
        Delivery { recipient: 7, accepted: false },
    ];
    assert_eq!(rejected(&report), vec![9, 7]);
    assert_eq!(rejected(&Vec::new()), Vec::<u128>::new());
}

#[test]
fn a_departed_client_is_never_offered_a_message() {
    let mut registry = Registry::new();
    let mut a = join(&mut registry, 1, "A");
    let mut b = join(&mut registry, 2, "B");
    let mut c = join(&mut registry, 3, "C");
    assert!(registry.deregister(2));
    assert_eq!(registry.len(), 2);
    assert!(!registry.contains(2));
    let report = broadcast(&registry, &msg("after"), None);
    assert_eq!(
        by_recipient(report),
        vec![Delivery { recipient: 1, accepted: true }, Delivery { recipient: 3, accepted: true }]
    );
    assert_eq!(drain(&mut a), vec![msg("after")]);
    assert_eq!(b.try_recv(), Err(TryRecvError::Disconnected));
    assert_eq!(drain(&mut c), vec![msg("after")]);
}

#[test]
fn deregistering_twice_changes_nothing_the_second_time() {
    let mut registry = Registry::new();
    let _a = join(&mut registry, 1, "A");
    let _b = join(&mut registry, 2, "B");
    assert!(registry.deregister(1));
    assert_eq!(registry.len(), 1);
    assert_eq!(registry.snapshot(), vec![2]);
    assert!(!registry.deregister(1));
    assert_eq!(registry.len(), 1);
    assert_eq!(registry.snapshot(), vec![2]);
}

#[test]
fn deregistering_a_stranger_changes_nothing() {
    let mut registry = Registry::new();
    assert!(!registry.deregister(1));
    let _a = join(&mut registry, 1, "A");
    assert!(!registry.deregister(2));
    assert_eq!(registry.snapshot(), vec![1]);
}

#[test]
fn an_identity_can_register_again_after_leaving() {
    let mut registry = Registry::new();
    let _a = join(&mut registry, 1, "A");
    let _b = join(&mut registry, 2, "B");
    assert!(registry.deregister(1));
    let _again = join(&mut registry, 1, "A2");
    assert_eq!(sorted(registry.snapshot()), vec![1, 2]);
    assert_eq!(registry.label_of(1), Some("A2".to_string()));
}

#[test]
fn messages_of_one_sender_arrive_in_order() {
    let mut registry = Registry::new();
    let mut a = join(&mut registry, 1, "A");
    let mut b = join(&mut registry, 2, "B");
    for payload in ["a", "b", "c"] {
        assert!(receive(&registry, 1, "A", &text(payload), false).is_some());
    }
    assert_eq!(
        drain(&mut b),
        vec![msg("A: a"), msg("A: b"), msg("A: c")]
    );
    assert_eq!(a.try_recv(), Err(TryRecvError::Empty));
}

#[test]
fn interleaved_senders_do_not_mix() {
    let mut registry = Registry::new();
    let mut a = join(&mut registry, 1, "A");
    let mut b = join(&mut registry, 2, "B");
    let mut c = join(&mut registry, 3, "C");
    assert!(receive(&registry, 1, "A", &text("1"), false).is_some());
    assert!(receive(&registry, 2, "B", &text("x"), false).is_some());
    assert!(receive(&registry, 1, "A", &text("2"), false).is_some());
    assert!(receive(&registry, 2, "B", &text("y"), false).is_some());
    let at_c = drain(&mut c);
    assert_eq!(
        at_c,
        vec![msg("A: 1"), msg("B: x"), msg("A: 2"), msg("B: y")]
    );
    let texts: Vec<String> = at_c
        .iter()
        .map(|m| match m {
            Message::Text(text) => text.clone(),
            Message::Binary(_) => panic!("a text frame was relayed as bytes"),
        })
        .collect();
    let from_a: Vec<&String> = texts.iter().filter(|m| m.starts_with("A: ")).collect();
    let from_b: Vec<&String> = texts.iter().filter(|m| m.starts_with("B: ")).collect();
    assert_eq!(from_a, vec!["A: 1", "A: 2"]);
    assert_eq!(from_b, vec!["B: x", "B: y"]);
    assert_eq!(drain(&mut a), vec![msg("B: x"), msg("B: y")]);
    assert_eq!(drain(&mut b), vec![msg("A: 1"), msg("A: 2")]);
}

#[test]
fn three_clients_one_leaves() {
    let mut registry = Registry::new();
    let mut a = join(&mut registry, 1, "A");
    let mut b = join(&mut registry, 2, "B");
    let mut c = join(&mut registry, 3, "C");

    let report = receive(&registry, 1, "A", &text("hi"), false);
    assert_eq!(
        report.map(|turn| by_recipient(turn.deliveries)),
        Some(vec![
            Delivery { recipient: 2, accepted: true },
            Delivery { recipient: 3, accepted: true },
        ])
    );
    assert_eq!(drain(&mut b), vec![msg("A: hi")]);
    assert_eq!(drain(&mut c), vec![msg("A: hi")]);
    assert_eq!(a.try_recv(), Err(TryRecvError::Empty));

    assert!(receive(&registry, 2, "B", &Inbound::Closed, false).is_none());
    assert!(registry.deregister(2));

    let turn = receive(&registry, 3, "C", &text("bye"), false);
    assert_eq!(turn.as_ref().map(|t| &t.message), Some(&msg("C: bye")));
    assert_eq!(
        turn.map(|t| t.deliveries),
        Some(vec![Delivery { recipient: 1, accepted: true }])
    );
    assert_eq!(drain(&mut a), vec![msg("C: bye")]);
    assert_eq!(b.try_recv(), Err(TryRecvError::Disconnected));
    assert_eq!(c.try_recv(), Err(TryRecvError::Empty));
    assert_eq!(sorted(registry.snapshot()), vec![1, 3]);
}

#[test]
fn render_puts_label_colon_space_payload() {
    assert_eq!(render("Client-x", "hello"), "Client-x: hello");
    assert_eq!(render("", ""), ": ");
    assert_eq!(render("A", "a: b"), "A: a: b");
}

#[test]
fn relay_labels_a_text_frame() {
    assert_eq!(relay("Client-x", &Frame::Text("hello".to_string())), msg("Client-x: hello"));
    assert_eq!(relay("A", &Frame::Text("".to_string())), msg("A: "));
}

#[test]
fn relay_passes_a_binary_frame_through() {
    let bytes = vec![0xff, 0xfe, 0, 1, 104, 105];
    assert_eq!(relay("A", &Frame::Binary(bytes.clone())), Message::Binary(bytes));
    assert_eq!(relay("A", &Frame::Binary(Vec::new())), Message::Binary(Vec::new()));
}

#[test]
fn relay_treats_a_malformed_frame_as_empty_text() {
    assert_eq!(relay("A", &Frame::Malformed), msg("A: "));
}

#[test]
fn duplicate_holds_the_same_message() {
    assert_eq!(msg("hi").duplicate(), msg("hi"));
    assert_eq!(Message::Binary(vec![1, 2, 3]).duplicate(), Message::Binary(vec![1, 2, 3]));
}

#[test]
fn binary_frames_reach_every_recipient_byte_for_byte() {
    let mut registry = Registry::new();
    let mut a = join(&mut registry, 1, "A");
    let mut b = join(&mut registry, 2, "B");
    let mut c = join(&mut registry, 3, "C");
    let bytes: Vec<u8> = (0..=255u8).collect();
    let event = Inbound::Frame(Frame::Binary(bytes.clone()));
    assert!(receive(&registry, 1, "A", &event, false).is_some());
    assert_eq!(drain(&mut b), vec![Message::Binary(bytes.clone())]);
    assert_eq!(drain(&mut c), vec![Message::Binary(bytes)]);
    assert_eq!(a.try_recv(), Err(TryRecvError::Empty));
}

#[test]
fn send_task_writes_a_binary_message_as_it_is() {
    let event = SendEvent::Dequeued(Message::Binary(vec![9, 8, 7]));
    let (state, action) = send_step(SendState::Waiting, event);
    assert_eq!(state, SendState::Writing);
    assert_eq!(action, SendAction::Write(Message::Binary(vec![9, 8, 7])));
}

#[test]
fn label_is_prefix_and_identity_text() {
    assert_eq!(label_from_text("abc"), "Client-abc");
    assert_eq!(label_from_text(""), "Client-");
    assert_eq!(client_label(0), "Client-00000000-0000-0000-0000-000000000000");
    assert_eq!(
        client_label(0x0123_4567_89ab_cdef_0123_4567_89ab_cdef),
        "Client-01234567-89ab-cdef-0123-456789abcdef"
    );
    assert_eq!(client_label(u128::MAX), "Client-ffffffff-ffff-ffff-ffff-ffffffffffff");
}

#[test]
fn connect_as_registers_under_the_given_identity() {
    let mut registry = Registry::new();
    let mut connection = match connect_as(&mut registry, 0xabc) {
        Ok(connection) => connection,
        Err(_) => panic!("a fresh identity was refused"),
    };
    assert_eq!(connection.identity, 0xabc);
    assert_eq!(connection.label, "Client-00000000-0000-0000-0000-000000000abc");
    assert_eq!(registry.snapshot(), vec![0xabc]);
    assert_eq!(registry.label_of(0xabc), Some(connection.label.clone()));
    let report = broadcast(&registry, &msg("to you"), None);
    assert_eq!(report, vec![Delivery { recipient: 0xabc, accepted: true }]);
    assert_eq!(connection.receiver.try_recv(), Ok(msg("to you")));
}

#[test]
fn connect_as_refuses_a_registered_identity() {
    let mut registry = Registry::new();
    let _first = connect_as(&mut registry, 1);
    match connect_as(&mut registry, 1) {
        Ok(_) => panic!("a registered identity was admitted twice"),
        Err(e) => assert_eq!(e, RegistryError::DuplicateIdentity),
    }
    assert_eq!(registry.len(), 1);
}

#[test]
fn connect_draws_distinct_version_four_identities() {
    let mut registry = Registry::new();
    let mut seen = Vec::new();
    for _ in 0..16 {
        match connect(&mut registry) {
            Ok(connection) => {
                let parsed = uuid::Uuid::parse_str(&connection.label["Client-".len()..]);
                assert_eq!(parsed.map(|u| u.as_u128()), Ok(connection.identity));
                assert_eq!(uuid::Uuid::from_u128(connection.identity).get_version_num(), 4);
                assert!(!seen.contains(&connection.identity));
                seen.push(connection.identity);
            }
            Err(_) => panic!("a random identity collided"),
        }
    }
    assert_eq!(sorted(registry.snapshot()), sorted(seen));
}

#[test]
fn on_inbound_relays_frames_and_leaves_otherwise() {
    assert!(matches!(on_inbound("A", &text("hi")), ReceiveAction::Relay(m) if m == msg("A: hi")));
    assert!(matches!(
        on_inbound("A", &Inbound::Frame(Frame::Binary(vec![1, 2]))),
        ReceiveAction::Relay(m) if m == Message::Binary(vec![1, 2])
    ));
    assert!(matches!(on_inbound("A", &Inbound::ReadError), ReceiveAction::Leave));
    assert!(matches!(on_inbound("A", &Inbound::Closed), ReceiveAction::Leave));
}

#[test]
fn receive_sends_nothing_on_error_or_close() {
    let mut registry = Registry::new();
    let mut a = join(&mut registry, 1, "A");
    let mut b = join(&mut registry, 2, "B");
    assert_eq!(receive(&registry, 1, "A", &Inbound::ReadError, false), None);
    assert_eq!(receive(&registry, 1, "A", &Inbound::Closed, true), None);
    assert_eq!(a.try_recv(), Err(TryRecvError::Empty));
    assert_eq!(b.try_recv(), Err(TryRecvError::Empty));
    assert_eq!(registry.len(), 2);
}

#[test]
fn audience_follows_the_echo_policy() {
    assert_eq!(audience(5, true), None);
    assert_eq!(audience(5, false), Some(5));
}

#[test]
fn send_task_writes_each_message_and_waits_again() {
    let (state, action) = send_step(SendState::Waiting, SendEvent::Dequeued(msg("m")));
    assert_eq!(state, SendState::Writing);
    assert!(matches!(action, SendAction::Write(m) if m == msg("m")));
    let (state, action) = send_step(state, SendEvent::Written);
    assert_eq!(state, SendState::Waiting);
    assert!(matches!(action, SendAction::AwaitMessage));
}

#[test]
fn send_task_stops_on_failure_or_closed_channel() {
    let (state, action) = send_step(SendState::Writing, SendEvent::WriteFailed);
    assert_eq!(state, SendState::Stopped);
    assert!(matches!(action, SendAction::Stop));
    let (state, action) = send_step(SendState::Waiting, SendEvent::ChannelClosed);
    assert_eq!(state, SendState::Stopped);
    assert!(matches!(action, SendAction::Stop));
}

#[test]
fn send_task_stops_on_an_event_out_of_turn() {
    for event in [SendEvent::Written, SendEvent::WriteFailed] {
        let (state, action) = send_step(SendState::Waiting, event);
        assert_eq!(state, SendState::Stopped);
        assert!(matches!(action, SendAction::Stop));
    }
    for event in [SendEvent::Dequeued(msg("m")), SendEvent::ChannelClosed] {
        let (state, action) = send_step(SendState::Writing, event);
        assert_eq!(state, SendState::Stopped);
        assert!(matches!(action, SendAction::Stop));
    }
}

#[test]
fn a_stopped_send_task_stays_stopped() {
    for event in [
        SendEvent::Dequeued(msg("m")),
        SendEvent::ChannelClosed,
        SendEvent::Written,
        SendEvent::WriteFailed,
    ] {
        let (state, action) = send_step(SendState::Stopped, event);
        assert_eq!(state, SendState::Stopped);
        assert!(matches!(action, SendAction::Stop));
    }
}

fn run_send_task(events: Vec<SendEvent>) -> (SendState, Vec<Message>) {
    let mut state = SendState::Waiting;
    let mut wrote = Vec::new();
    for event in events {
        let (next, action) = send_step(state, event);
        state = next;
        if let SendAction::Write(message) = action {
            wrote.push(message);
        }
    }
    (state, wrote)
}

#[test]
fn send_task_writes_every_message_once_and_in_order() {
    let events = vec![
        SendEvent::Dequeued(msg("a")),
        SendEvent::Written,
        SendEvent::Dequeued(Message::Binary(vec![1, 2])),
        SendEvent::Written,
        SendEvent::Dequeued(msg("c")),
        SendEvent::Written,
    ];
    let (state, wrote) = run_send_task(events);
    assert_eq!(state, SendState::Waiting);
    assert_eq!(wrote, vec![msg("a"), Message::Binary(vec![1, 2]), msg("c")]);
}

#[test]
fn send_task_writes_a_prefix_of_what_it_took() {
    let events = vec![
        SendEvent::Dequeued(msg("a")),
        SendEvent::Written,
        SendEvent::Dequeued(msg("b")),
        SendEvent::WriteFailed,
        SendEvent::Dequeued(msg("c")),
        SendEvent::Written,
    ];
    let (state, wrote) = run_send_task(events);
    assert_eq!(state, SendState::Stopped);
    assert_eq!(wrote, vec![msg("a"), msg("b")]);
}

#[test]
fn receive_task_relays_one_message_per_frame_until_it_leaves() {
    let events = vec![
        text("a"),
        Inbound::Frame(Frame::Binary(vec![7])),
        text("c"),
        Inbound::Closed,
        text("late"),
    ];
    let mut relayed = Vec::new();
    for event in events.iter() {
        match on_inbound("X", event) {
            ReceiveAction::Relay(message) => relayed.push(message),
            ReceiveAction::Leave => break,
        }
    }
    assert_eq!(relayed, vec![msg("X: a"), Message::Binary(vec![7]), msg("X: c")]);
}
