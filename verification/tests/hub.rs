use chat_hub::channel::Delivery;
use chat_hub::producer::Producer;
use chat_hub::session::{user_connected, user_disconnected, Phase, Session};
use chat_hub::state::{State, CHANNEL_CAPACITY};

fn text(s: &str) -> String {
    s.to_string()
}

fn connect(state: &mut State) -> Producer {
    assert!(!state.users.full());
    user_connected(state)
}

#[test]
fn new_state_is_empty() {
    let state = State::new();
    assert_eq!(CHANNEL_CAPACITY, 10);
    assert_eq!(state.users.len(), 0);
    assert_eq!(state.message_sender.capacity(), 10);
    assert_eq!(state.connected_sender.capacity(), 10);
    assert_eq!(state.disconnected_sender.capacity(), 10);
    assert_eq!(state.message_sender.subscribers(), 0);
    assert_eq!(state.connected_sender.subscribers(), 0);
    assert_eq!(state.disconnected_sender.subscribers(), 0);
}

#[test]
fn add_user_registers_without_announcing() {
    let mut state = State::new();
    let watcher = state.connected_sender.subscribe();
    let user = state.add_user();
    assert_eq!(user.id, 1);
    assert_eq!(user.name, "User 1");
    assert_eq!(state.users.len(), 1);
    assert_eq!(state.connected_sender.poll(&watcher), Delivery::Empty);
}

#[test]
fn two_sessions_chat_and_part() {
    let mut state = State::new();
    let a = connect(&mut state);
    assert_eq!(a.user_id(), 1);
    assert_eq!(a.user_name(), "User 1");
    assert_eq!(a.user_names(&state), Vec::<String>::new());
    let a_messages = a.messages(&mut state);
    let a_departures = a.disconnected(&mut state);

    let b = connect(&mut state);
    assert_eq!(b.user_id(), 2);
    assert_eq!(b.user_name(), "User 2");
    assert_eq!(b.user_names(&state), vec![text("User 1")]);
    let b_messages = b.messages(&mut state);

    assert_eq!(a.message(&mut state, text("hi")), 2);
    assert_eq!(
        a.next_message(&mut state, &a_messages),
        Delivery::Item((text("User 1"), text("hi")))
    );
    assert_eq!(
        b.next_message(&mut state, &b_messages),
        Delivery::Item((text("User 1"), text("hi")))
    );
    assert_eq!(a.next_message(&mut state, &a_messages), Delivery::Empty);
    assert_eq!(b.next_message(&mut state, &b_messages), Delivery::Empty);

    b.close_messages(&mut state, b_messages);
    user_disconnected(b.user_id(), b.user_name(), &mut state);
    assert_eq!(
        a.next_disconnected(&mut state, &a_departures),
        Delivery::Item(text("User 2"))
    );
    assert_eq!(a.next_disconnected(&mut state, &a_departures), Delivery::Empty);
    assert_eq!(a.user_names(&state), Vec::<String>::new());
}

#[test]
fn producer_is_named_after_its_id() {
    let producer = Producer::new(3);
    assert_eq!(producer.user_id(), 3);
    assert_eq!(producer.user_name(), "User 3");
    let producer = Producer::new(120);
    assert_eq!(producer.user_name(), "User 120");
}

#[test]
fn first_session_sees_nobody_else() {
    let mut state = State::new();
    let a = connect(&mut state);
    assert_eq!(a.user_names(&state), Vec::<String>::new());
    let b = connect(&mut state);
    assert_eq!(b.user_names(&state), vec![text("User 1")]);
}

#[test]
fn other_names_never_include_the_own_name() {
    let mut state = State::new();
    let mut producers = Vec::new();
    for _ in 0..20 {
        producers.push(connect(&mut state));
    }
    user_disconnected(7, text("User 7"), &mut state);
    for producer in &producers {
        let others = producer.user_names(&state);
        assert!(!others.contains(&producer.user_name()));
        assert!(!others.contains(&text("User 7")));
        let expected = if producer.user_id() == 7 { 19 } else { 18 };
        assert_eq!(others.len(), expected);
    }
}

#[test]
fn arrival_is_announced_to_those_who_listen() {
    let mut state = State::new();
    let a = connect(&mut state);
    let arrivals = a.connected(&mut state);
    assert_eq!(a.next_connected(&mut state, &arrivals), Delivery::Empty);
    let b = connect(&mut state);
    let c = connect(&mut state);
    assert_eq!(
        a.next_connected(&mut state, &arrivals),
        Delivery::Item(b.user_name())
    );
    assert_eq!(
        a.next_connected(&mut state, &arrivals),
        Delivery::Item(c.user_name())
    );
    assert_eq!(a.next_connected(&mut state, &arrivals), Delivery::Empty);
}

#[test]
fn stream_of_names_hides_the_own_name() {
    let mut state = State::new();
    let a = connect(&mut state);
    let arrivals = a.connected(&mut state);
    let departures = a.disconnected(&mut state);
    state.connected_sender.publish(text("User 1"));
    state.connected_sender.publish(text("User 5"));
    state.connected_sender.publish(text("User 1"));
    state.disconnected_sender.publish(text("User 1"));
    assert_eq!(
        a.next_connected(&mut state, &arrivals),
        Delivery::Item(text("User 5"))
    );
    assert_eq!(a.next_connected(&mut state, &arrivals), Delivery::Empty);
    assert_eq!(state.connected_sender.backlog(arrivals.subscription()), 0);
    assert_eq!(a.next_disconnected(&mut state, &departures), Delivery::Empty);
    assert_eq!(state.disconnected_sender.backlog(departures.subscription()), 0);
}

#[test]
fn stream_of_messages_shows_the_own_messages() {
    let mut state = State::new();
    let a = connect(&mut state);
    let b = connect(&mut state);
    let a_messages = a.messages(&mut state);
    let b_messages = b.messages(&mut state);
    a.message(&mut state, text("one"));
    b.message(&mut state, text("two"));
    a.message(&mut state, text("three"));
    for (reader, stream) in [(&a, &a_messages), (&b, &b_messages)] {
        assert_eq!(
            reader.next_message(&mut state, stream),
            Delivery::Item((text("User 1"), text("one")))
        );
        assert_eq!(
            reader.next_message(&mut state, stream),
            Delivery::Item((text("User 2"), text("two")))
        );
        assert_eq!(
            reader.next_message(&mut state, stream),
            Delivery::Item((text("User 1"), text("three")))
        );
        assert_eq!(reader.next_message(&mut state, stream), Delivery::Empty);
    }
}

#[test]
fn message_without_listeners_goes_nowhere() {
    let mut state = State::new();
    let a = connect(&mut state);
    assert_eq!(a.message(&mut state, text("anyone?")), 0);
    let stream = a.messages(&mut state);
    assert_eq!(a.next_message(&mut state, &stream), Delivery::Empty);
}

#[test]
fn streams_signal_a_lag() {
    let mut state = State::new();
    let a = connect(&mut state);
    let messages = a.messages(&mut state);
    let arrivals = a.connected(&mut state);
    for n in 1..=12 {
        a.message(&mut state, format!("{n}"));
        state.connected_sender.publish(format!("User {}", n + 1));
    }
    assert_eq!(a.next_message(&mut state, &messages), Delivery::Lagged);
    assert_eq!(state.message_sender.backlog(messages.subscription()), 10);
    assert_eq!(
        a.next_message(&mut state, &messages),
        Delivery::Item((text("User 1"), text("3")))
    );
    assert_eq!(a.next_connected(&mut state, &arrivals), Delivery::Lagged);
    assert_eq!(state.connected_sender.backlog(arrivals.subscription()), 10);
    assert_eq!(
        a.next_connected(&mut state, &arrivals),
        Delivery::Item(text("User 4"))
    );
    assert_eq!(state.message_sender.backlog(messages.subscription()), 9);
    assert_eq!(state.connected_sender.backlog(arrivals.subscription()), 9);
}

#[test]
fn message_stream_lags_after_more_than_capacity_messages() {
    let mut state = State::new();
    let a = connect(&mut state);
    let b = connect(&mut state);
    let slow = a.messages(&mut state);
    let keeping_up = b.messages(&mut state);
    for n in 1..=11 {
        b.message(&mut state, format!("{n}"));
        assert_eq!(
            b.next_message(&mut state, &keeping_up),
            Delivery::Item((text("User 2"), format!("{n}")))
        );
    }
    assert_eq!(a.next_message(&mut state, &slow), Delivery::Lagged);
    for n in 2..=11 {
        assert_eq!(
            a.next_message(&mut state, &slow),
            Delivery::Item((text("User 2"), format!("{n}")))
        );
    }
    assert_eq!(a.next_message(&mut state, &slow), Delivery::Empty);
    assert_eq!(b.next_message(&mut state, &keeping_up), Delivery::Empty);
}

#[test]
fn message_stream_does_not_lag_at_capacity() {
    let mut state = State::new();
    let a = connect(&mut state);
    let stream = a.messages(&mut state);
    for n in 1..=10 {
        a.message(&mut state, format!("{n}"));
    }
    for n in 1..=10 {
        assert_eq!(
            a.next_message(&mut state, &stream),
            Delivery::Item((text("User 1"), format!("{n}")))
        );
    }
    assert_eq!(a.next_message(&mut state, &stream), Delivery::Empty);
}

#[test]
fn name_stream_signals_a_lag_before_hidden_names() {
    let mut state = State::new();
    let a = connect(&mut state);
    let departures = a.disconnected(&mut state);
    for _ in 0..11 {
        state.disconnected_sender.publish(text("User 1"));
    }
    assert_eq!(a.next_disconnected(&mut state, &departures), Delivery::Lagged);
    assert_eq!(
        state.disconnected_sender.backlog(departures.subscription()),
        10
    );
    assert_eq!(a.next_disconnected(&mut state, &departures), Delivery::Empty);
    assert_eq!(
        state.disconnected_sender.backlog(departures.subscription()),
        0
    );
}

#[test]
fn stream_of_another_hub_is_closed_here() {
    let mut crowded = State::new();
    let mut quiet = State::new();
    let a = connect(&mut crowded);
    let messages = a.messages(&mut crowded);
    let arrivals = a.connected(&mut crowded);
    let departures = a.disconnected(&mut crowded);
    assert_eq!(a.next_message(&mut quiet, &messages), Delivery::Closed);
    assert_eq!(a.next_connected(&mut quiet, &arrivals), Delivery::Closed);
    assert_eq!(a.next_disconnected(&mut quiet, &departures), Delivery::Closed);
    assert_eq!(a.next_message(&mut crowded, &messages), Delivery::Empty);
}

#[test]
fn closing_a_stream_frees_its_mailbox() {
    let mut state = State::new();
    let a = connect(&mut state);
    let messages = a.messages(&mut state);
    let arrivals = a.connected(&mut state);
    let departures = a.disconnected(&mut state);
    assert_eq!(state.message_sender.subscribers(), 1);
    assert_eq!(state.connected_sender.subscribers(), 1);
    assert_eq!(state.disconnected_sender.subscribers(), 1);
    a.close_messages(&mut state, messages);
    assert_eq!(state.message_sender.subscribers(), 0);
    assert_eq!(a.message(&mut state, text("anyone?")), 0);
    a.close_connected(&mut state, arrivals);
    assert_eq!(state.connected_sender.subscribers(), 0);
    a.close_disconnected(&mut state, departures);
    assert_eq!(state.disconnected_sender.subscribers(), 0);
}

#[test]
fn departure_is_announced_exactly_once() {
    let mut state = State::new();
    let a = connect(&mut state);
    let b = connect(&mut state);
    let c = connect(&mut state);
    let a_departures = a.disconnected(&mut state);
    let c_departures = c.disconnected(&mut state);
    user_disconnected(b.user_id(), b.user_name(), &mut state);
    for (reader, stream) in [(&a, &a_departures), (&c, &c_departures)] {
        assert_eq!(state.disconnected_sender.backlog(stream.subscription()), 1);
        assert_eq!(
            reader.next_disconnected(&mut state, stream),
            Delivery::Item(text("User 2"))
        );
        assert_eq!(reader.next_disconnected(&mut state, stream), Delivery::Empty);
    }
    assert_eq!(a.user_names(&state), vec![text("User 3")]);
    assert_eq!(c.user_names(&state), vec![text("User 1")]);
}

#[test]
fn session_runs_through_its_phases() {
    let mut state = State::new();
    let watcher = connect(&mut state);
    let arrivals = watcher.connected(&mut state);
    let departures = watcher.disconnected(&mut state);

    let mut session = Session::new();
    assert_eq!(session.current_phase(), Phase::Accepting);
    assert!(session.producer().is_none());

    session.accept(&mut state);
    assert_eq!(session.current_phase(), Phase::Active);
    let producer = session.producer().unwrap();
    assert_eq!(producer.user_id(), 2);
    assert_eq!(producer.user_name(), "User 2");
    assert_eq!(state.users.len(), 2);
    assert_eq!(
        watcher.next_connected(&mut state, &arrivals),
        Delivery::Item(text("User 2"))
    );

    session.terminate();
    assert_eq!(session.current_phase(), Phase::Terminating);
    assert!(session.producer().is_none());
    assert_eq!(state.users.len(), 2);

    session.close(&mut state);
    assert_eq!(session.current_phase(), Phase::Closed);
    assert_eq!(state.users.len(), 1);
    assert_eq!(
        watcher.next_disconnected(&mut state, &departures),
        Delivery::Item(text("User 2"))
    );
    assert_eq!(watcher.next_disconnected(&mut state, &departures), Delivery::Empty);
}

#[test]
fn session_is_cleaned_up_once() {
    let mut state = State::new();
    let watcher = connect(&mut state);
    let departures = watcher.disconnected(&mut state);
    let mut session = Session::new();
    session.accept(&mut state);
    session.terminate();
    session.terminate();
    session.close(&mut state);
    session.close(&mut state);
    session.accept(&mut state);
    session.close(&mut state);
    assert_eq!(session.current_phase(), Phase::Closed);
    assert_eq!(state.users.len(), 1);
    assert_eq!(state.disconnected_sender.backlog(departures.subscription()), 1);
}

#[test]
fn session_out_of_turn_changes_nothing() {
    let mut state = State::new();
    let watcher = connect(&mut state);
    let departures = watcher.disconnected(&mut state);

    let mut early = Session::new();
    early.close(&mut state);
    assert_eq!(early.current_phase(), Phase::Accepting);
    early.terminate();
    assert_eq!(early.current_phase(), Phase::Closed);
    early.accept(&mut state);
    assert_eq!(early.current_phase(), Phase::Closed);
    assert_eq!(state.users.len(), 1);

    let mut active = Session::new();
    active.accept(&mut state);
    active.accept(&mut state);
    assert_eq!(state.users.len(), 2);
    active.close(&mut state);
    assert_eq!(active.current_phase(), Phase::Active);
    assert_eq!(state.users.len(), 2);
    assert_eq!(state.disconnected_sender.backlog(departures.subscription()), 0);
}

#[test]
fn failure_of_one_session_leaves_the_others() {
    let mut state = State::new();
    let mut first = Session::new();
    let mut second = Session::new();
    first.accept(&mut state);
    second.accept(&mut state);
    let stream = first.producer().unwrap().messages(&mut state);
    second.terminate();
    second.close(&mut state);
    let producer = first.producer().unwrap();
    assert_eq!(first.current_phase(), Phase::Active);
    assert_eq!(producer.user_names(&state), Vec::<String>::new());
    assert_eq!(producer.message(&mut state, text("still here")), 1);
    assert_eq!(
        producer.next_message(&mut state, &stream),
        Delivery::Item((text("User 1"), text("still here")))
    );
}
