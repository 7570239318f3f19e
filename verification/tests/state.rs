use zeronet_protocol::error::Error;
use zeronet_protocol::message::value::{Number, Value};
use zeronet_protocol::message::ZeroMessage;
use zeronet_protocol::state::{SharedState, Step};

fn ping(req_id: usize) -> ZeroMessage {
    ZeroMessage::request("ping", req_id, Value::Null)
}

fn pong(to: usize) -> ZeroMessage {
    ZeroMessage::response(
        to,
        Value::Object(vec![("body".to_string(), Value::String("Pong!".to_string()))]),
    )
}

fn numbered(to: usize, n: u64) -> ZeroMessage {
    ZeroMessage::response(
        to,
        Value::Object(vec![("n".to_string(), Value::Number(Number::PosInt(n)))]),
    )
}

fn ready(step: Step<Result<ZeroMessage, Error>>) -> (Result<ZeroMessage, Error>, Option<u64>) {
    match step {
        Step::Ready { value, wake } => (value, wake),
        Step::Pending { .. } => panic!("the poll suspends"),
    }
}

fn pending(step: Step<Result<ZeroMessage, Error>>) -> bool {
    match step {
        Step::Pending { read } => read,
        Step::Ready { .. } => panic!("the poll is ready"),
    }
}

fn is_closed_error(value: &Result<ZeroMessage, Error>) -> bool {
    matches!(value, Err(Error::ConnectionClosed))
}

#[test]
fn a_fresh_connection_is_open_and_idle() {
    let state = SharedState::<ZeroMessage>::new();
    assert!(!state.is_closed());
    assert!(!state.is_reading());
}

#[test]
fn one_task_reads_at_a_time() {
    let mut state = SharedState::<ZeroMessage>::new();
    assert!(state.recv());
    assert!(state.is_reading());
    assert!(!state.recv());
    assert!(!state.recv());
    // The end of the read frees the reader.
    assert_eq!(state.dispatch(ping(0), 1), Some(1));
    assert!(!state.is_reading());
    assert!(state.recv());
}

#[test]
fn a_response_reaches_the_request_it_answers() {
    let mut state = SharedState::<ZeroMessage>::new();
    assert!(state.register(7));
    assert!(pending(state.poll_response(7, 100)));
    assert_eq!(state.dispatch(pong(7), 100), Some(100));
    let (value, wake) = ready(state.poll_response(7, 100));
    assert_eq!(value.unwrap(), pong(7));
    assert_eq!(wake, None);
}

#[test]
fn an_answer_names_the_request_that_asked() {
    let mut state = SharedState::<ZeroMessage>::new();
    for id in [3usize, 1, 2] {
        state.register(id);
    }
    for id in [2usize, 3, 1] {
        state.dispatch(numbered(id, id as u64 * 10), 0);
    }
    for id in [1usize, 2, 3] {
        let (value, _) = ready(state.poll_response(id, 50 + id as u64));
        match value.unwrap() {
            ZeroMessage::Response(response) => assert_eq!(response.to, id),
            _ => panic!("not a response"),
        }
    }
}

#[test]
fn requests_answered_in_any_order_get_their_own_response() {
    let orders: [[usize; 4]; 4] = [[0, 1, 2, 3], [3, 2, 1, 0], [2, 0, 3, 1], [1, 3, 0, 2]];
    for order in orders {
        let mut state = SharedState::<ZeroMessage>::new();
        for id in 0..4usize {
            assert!(state.register(id));
            state.poll_response(id, id as u64);
        }
        for id in order {
            state.dispatch(numbered(id, 100 + id as u64), 0);
        }
        for id in 0..4usize {
            let (value, _) = ready(state.poll_response(id, id as u64));
            assert_eq!(value.unwrap(), numbered(id, 100 + id as u64));
        }
    }
}

#[test]
fn the_first_response_to_a_request_is_the_one_it_gets() {
    let mut state = SharedState::<ZeroMessage>::new();
    state.register(5);
    state.dispatch(numbered(5, 1), 0);
    state.dispatch(numbered(5, 2), 0);
    let (value, _) = ready(state.poll_response(5, 9));
    assert_eq!(value.unwrap(), numbered(5, 1));
    // The second had no request to claim it and went to the inbox.
    let (value, _) = ready(state.poll_receive(9));
    assert_eq!(value.unwrap(), numbered(5, 2));
}

#[test]
fn the_task_of_the_request_is_woken_by_its_response() {
    let mut state = SharedState::<ZeroMessage>::new();
    state.register(1);
    state.register(2);
    assert!(pending(state.poll_response(1, 11)));
    assert!(!pending(state.poll_response(2, 22)));
    assert_eq!(state.dispatch(pong(2), 11), Some(22));
    assert!(state.recv());
    assert_eq!(state.dispatch(pong(1), 11), Some(11));
    // A request that was not polled yet has no task to wake.
    state.register(3);
    assert_eq!(state.dispatch(pong(3), 11), None);
}

#[test]
fn what_no_request_claims_goes_to_the_inbox_in_the_order_of_the_wire() {
    let mut state = SharedState::<ZeroMessage>::new();
    state.register(1);
    let wire = vec![ping(0), pong(9), pong(1), ping(1), pong(1), ping(2)];
    for message in wire {
        state.dispatch(message, 0);
    }
    let mut seen = Vec::new();
    loop {
        match state.poll_receive(4) {
            Step::Ready { value, .. } => seen.push(value.unwrap()),
            Step::Pending { .. } => break,
        }
    }
    assert_eq!(seen, vec![ping(0), pong(9), ping(1), pong(1), ping(2)]);
}

#[test]
fn receivers_between_arrivals_see_the_wire_order_too() {
    let mut state = SharedState::<ZeroMessage>::new();
    let mut seen = Vec::new();
    state.dispatch(ping(0), 0);
    state.dispatch(ping(1), 0);
    seen.push(ready(state.poll_receive(1)).0.unwrap());
    state.dispatch(ping(2), 0);
    seen.push(ready(state.poll_receive(2)).0.unwrap());
    seen.push(ready(state.poll_receive(1)).0.unwrap());
    assert!(pending(state.poll_receive(2)));
    state.dispatch(ping(3), 2);
    seen.push(ready(state.poll_receive(2)).0.unwrap());
    assert_eq!(seen, vec![ping(0), ping(1), ping(2), ping(3)]);
}

#[test]
fn the_receiver_that_waited_longest_is_woken_first() {
    let mut state = SharedState::<ZeroMessage>::new();
    assert!(pending(state.poll_receive(1)));
    assert!(!pending(state.poll_receive(2)));
    assert!(!pending(state.poll_receive(3)));
    // Polling again does not move a receiver back in the line.
    assert!(!pending(state.poll_receive(1)));
    assert_eq!(state.dispatch(ping(0), 1), Some(1));
    assert_eq!(state.dispatch(ping(1), 1), Some(2));
    assert_eq!(state.dispatch(ping(2), 1), Some(3));
    // With nobody left the reader itself is woken.
    assert_eq!(state.dispatch(ping(3), 1), Some(1));
}

#[test]
fn a_task_that_is_done_wakes_another() {
    let mut state = SharedState::<ZeroMessage>::new();
    state.register(1);
    assert!(pending(state.poll_response(1, 11)));
    assert!(!pending(state.poll_receive(5)));
    assert!(!pending(state.poll_receive(6)));
    // Receiver 5 is woken for the message, and wakes receiver 6 in turn.
    assert_eq!(state.dispatch(ping(0), 11), Some(5));
    let (_, wake) = ready(state.poll_receive(5));
    assert_eq!(wake, Some(6));
    // With no receiver left the task of a waiting request is woken.
    state.dispatch(ping(1), 11);
    let (_, wake) = ready(state.poll_receive(6));
    assert_eq!(wake, Some(11));
    assert_eq!(state.wake_one(), Some(11));
}

#[test]
fn wake_one_finds_nobody_on_an_idle_connection() {
    let mut state = SharedState::<ZeroMessage>::new();
    assert_eq!(state.wake_one(), None);
    state.register(1);
    // The request has not been polled: no task is noted in its slot.
    assert_eq!(state.wake_one(), None);
}

#[test]
fn a_poll_for_an_unknown_request_opens_its_slot() {
    let mut state = SharedState::<ZeroMessage>::new();
    assert!(pending(state.poll_response(4, 1)));
    assert_eq!(state.dispatch(pong(4), 1), Some(1));
    assert_eq!(ready(state.poll_response(4, 1)).0.unwrap(), pong(4));
}

#[test]
fn close_answers_every_request_and_receiver() {
    let mut state = SharedState::<ZeroMessage>::new();
    state.register(1);
    state.register(2);
    state.register(3);
    assert!(pending(state.poll_response(1, 11)));
    assert!(!pending(state.poll_response(3, 33)));
    assert!(!pending(state.poll_receive(7)));
    assert!(!pending(state.poll_receive(8)));
    state.dispatch(pong(2), 11);
    state.recv();
    let woken = state.close_connection();
    assert_eq!(woken, vec![11, 33, 7, 8]);
    assert!(state.is_closed());
    assert!(!state.is_reading());
    // The request that was answered keeps its answer.
    assert_eq!(ready(state.poll_response(2, 22)).0.unwrap(), pong(2));
    assert!(is_closed_error(&ready(state.poll_response(1, 11)).0));
    assert!(is_closed_error(&ready(state.poll_response(3, 33)).0));
    assert!(is_closed_error(&ready(state.poll_receive(7)).0));
    assert!(is_closed_error(&ready(state.poll_receive(8)).0));
}

#[test]
fn nothing_suspends_or_reads_on_a_closed_connection() {
    let mut state = SharedState::<ZeroMessage>::new();
    state.dispatch(ping(0), 0);
    state.close_connection();
    assert!(!state.recv());
    assert!(!state.register(1));
    // What arrived before the end is still handed out.
    assert_eq!(ready(state.poll_receive(1)).0.unwrap(), ping(0));
    for _ in 0..3 {
        assert!(is_closed_error(&ready(state.poll_receive(1)).0));
        assert!(is_closed_error(&ready(state.poll_response(1, 1)).0));
        assert!(is_closed_error(&ready(state.poll_response(9, 1)).0));
    }
    assert!(state.is_closed());
    assert_eq!(state.close_connection(), Vec::<u64>::new());
    assert!(state.is_closed());
}

#[test]
fn a_receiver_that_leaves_is_not_woken() {
    let mut state = SharedState::<ZeroMessage>::new();
    assert!(pending(state.poll_receive(1)));
    assert!(!pending(state.poll_receive(2)));
    assert!(!pending(state.poll_receive(3)));
    state.leave(2);
    state.leave(9);
    assert_eq!(state.dispatch(ping(0), 1), Some(1));
    assert_eq!(state.dispatch(ping(1), 1), Some(3));
    assert_eq!(state.dispatch(ping(2), 1), Some(1));
}

#[test]
fn a_receiver_that_got_its_message_waits_no_more() {
    let mut state = SharedState::<ZeroMessage>::new();
    assert!(pending(state.poll_receive(1)));
    assert!(!pending(state.poll_receive(2)));
    assert_eq!(state.dispatch(ping(0), 1), Some(1));
    // Receiver 2 is faster than the one that was woken.
    let (value, wake) = ready(state.poll_receive(2));
    assert_eq!(value.unwrap(), ping(0));
    assert_eq!(wake, None);
    // It is not woken for the next message: the reader is.
    assert!(state.recv());
    assert_eq!(state.dispatch(ping(1), 7), Some(7));
}

#[test]
fn the_answer_to_an_abandoned_request_goes_to_the_inbox() {
    let mut state = SharedState::<ZeroMessage>::new();
    state.register(1);
    state.register(2);
    assert!(pending(state.poll_response(1, 11)));
    state.abandon(&1);
    state.abandon(&5);
    assert_eq!(state.dispatch(pong(1), 11), Some(11));
    assert_eq!(ready(state.poll_receive(3)).0.unwrap(), pong(1));
    state.dispatch(pong(2), 11);
    assert_eq!(ready(state.poll_response(2, 22)).0.unwrap(), pong(2));
    // Nothing of the abandoned request is left when the stream ends.
    assert_eq!(state.close_connection(), Vec::<u64>::new());
}

#[test]
fn a_read_that_brought_no_message_frees_the_reader_and_nothing_else() {
    let mut state = SharedState::<ZeroMessage>::new();
    assert!(state.register(3));
    assert!(pending(state.poll_receive(1)));
    assert!(state.is_reading());
    assert!(!pending(state.poll_receive(2)));
    assert!(!pending(state.poll_response(3, 9)));
    // The receiver 1 has read, and what it read is no message.
    assert_eq!(state.refuse(1), Some(2));
    assert!(!state.is_reading());
    assert!(!state.is_closed());
    // The receiver that was woken takes over the reading.
    assert!(pending(state.poll_receive(2)));
    assert_eq!(state.dispatch(pong(3), 2), Some(9));
    let (value, _) = ready(state.poll_response(3, 9));
    assert_eq!(value.unwrap(), pong(3));
    // With no receiver left, the task of the oldest open request is woken.
    assert!(state.register(4));
    assert!(pending(state.poll_response(4, 8)));
    assert_eq!(state.refuse(8), Some(8));
    assert!(!state.is_closed());
}
