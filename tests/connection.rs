use reverse_echo::{Action, ConnState, Connection, Event, Message};

fn open_connection() -> Connection {
    let mut conn = Connection::new();
    assert_eq!(conn.state(), ConnState::Handshaking);
    assert!(matches!(conn.handle(Event::HandshakeSucceeded), Action::Receive));
    assert_eq!(conn.state(), ConnState::Open);
    conn
}

fn text(s: &str) -> Event {
    Event::Received(Message::Text(s.to_string()))
}

fn sent_text(action: Action) -> String {
    match action {
        Action::Send(t) => t,
        _ => panic!("expected a reply"),
    }
}

fn assert_refuses_everything(conn: &mut Connection) {
    let events = vec![
        Event::HandshakeSucceeded,
        text("more"),
        Event::Received(Message::Binary(vec![7])),
        Event::SendSucceeded,
        Event::EndOfStream,
    ];
    for event in events {
        assert!(matches!(conn.handle(event), Action::Stop));
        assert!(conn.is_closed());
    }
}

#[test]
fn text_gets_exactly_one_reversed_reply() {
    let mut conn = open_connection();
    assert_eq!(sent_text(conn.handle(text("hello"))), "olleh");
    assert_eq!(conn.state(), ConnState::Sending);
    assert!(matches!(conn.handle(Event::SendSucceeded), Action::Receive));
    assert_eq!(conn.state(), ConnState::Open);
}

#[test]
fn empty_text_gets_empty_reply() {
    let mut conn = open_connection();
    assert_eq!(sent_text(conn.handle(text(""))), "");
    assert!(matches!(conn.handle(Event::SendSucceeded), Action::Receive));
}

#[test]
fn replies_keep_the_order_of_the_texts() {
    let mut conn = open_connection();
    let mut replies = Vec::new();
    for s in ["one", "two", "three"] {
        replies.push(sent_text(conn.handle(text(s))));
        assert!(matches!(conn.handle(Event::SendSucceeded), Action::Receive));
    }
    assert_eq!(replies, vec!["eno", "owt", "eerht"]);
}

#[test]
fn close_sends_nothing_and_refuses_further_events() {
    let mut conn = open_connection();
    assert!(matches!(conn.handle(Event::Received(Message::Close)), Action::Stop));
    assert!(conn.is_closed());
    assert_refuses_everything(&mut conn);
}

#[test]
fn close_right_after_connecting_ends_the_connection() {
    let mut conn = Connection::new();
    let mut sent = 0;
    for event in [Event::HandshakeSucceeded, Event::Received(Message::Close)] {
        if let Action::Send(_) = conn.handle(event) {
            sent += 1;
        }
    }
    assert_eq!(sent, 0);
    assert!(conn.is_closed());
}

#[test]
fn binary_sends_nothing_and_keeps_the_connection_usable() {
    let mut conn = open_connection();
    assert!(matches!(conn.handle(Event::Received(Message::Binary(vec![0, 255]))), Action::Receive));
    assert_eq!(conn.state(), ConnState::Open);
    assert_eq!(sent_text(conn.handle(text("ab"))), "ba");
    assert!(matches!(conn.handle(Event::SendSucceeded), Action::Receive));
}

#[test]
fn control_frames_send_nothing() {
    let mut conn = open_connection();
    assert!(matches!(conn.handle(Event::Received(Message::Other)), Action::Receive));
    assert_eq!(conn.state(), ConnState::Open);
}

#[test]
fn send_failure_ends_the_connection() {
    let mut conn = open_connection();
    assert_eq!(sent_text(conn.handle(text("ab"))), "ba");
    assert!(matches!(conn.handle(Event::SendFailed), Action::Stop));
    assert!(conn.is_closed());
    assert_refuses_everything(&mut conn);
}

#[test]
fn handshake_failure_sends_nothing() {
    let mut conn = Connection::new();
    assert!(matches!(conn.handle(Event::HandshakeFailed), Action::Stop));
    assert!(conn.is_closed());
    assert_refuses_everything(&mut conn);
}

#[test]
fn receive_error_ends_the_connection() {
    let mut conn = open_connection();
    assert!(matches!(conn.handle(Event::ReceiveFailed), Action::Stop));
    assert!(conn.is_closed());
}

#[test]
fn end_of_stream_ends_the_connection() {
    let mut conn = open_connection();
    assert!(matches!(conn.handle(Event::EndOfStream), Action::Stop));
    assert!(conn.is_closed());
}

#[test]
fn message_before_handshake_ends_the_connection() {
    let mut conn = Connection::new();
    assert!(matches!(conn.handle(text("early")), Action::Stop));
    assert!(conn.is_closed());
}

#[test]
fn message_while_a_reply_is_pending_ends_the_connection() {
    let mut conn = open_connection();
    assert_eq!(sent_text(conn.handle(text("ab"))), "ba");
    assert!(matches!(conn.handle(text("cd")), Action::Stop));
    assert!(conn.is_closed());
}

#[test]
fn interleaved_connections_receive_only_their_own_replies() {
    let inputs = ["alpha", "beta", "gamma", "delta"];
    let mut conns: Vec<Connection> = inputs.iter().map(|_| open_connection()).collect();
    let mut replies: Vec<Vec<String>> = inputs.iter().map(|_| Vec::new()).collect();
    for round in 0..2 {
        for (i, conn) in conns.iter_mut().enumerate().rev() {
            let payload = format!("{}{}", inputs[i], round);
            replies[i].push(sent_text(conn.handle(text(&payload))));
        }
        for conn in conns.iter_mut() {
            assert!(matches!(conn.handle(Event::SendSucceeded), Action::Receive));
        }
    }
    assert_eq!(replies[0], vec!["0ahpla", "1ahpla"]);
    assert_eq!(replies[1], vec!["0ateb", "1ateb"]);
    assert_eq!(replies[2], vec!["0ammag", "1ammag"]);
    assert_eq!(replies[3], vec!["0atled", "1atled"]);
}
