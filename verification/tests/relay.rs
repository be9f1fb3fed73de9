use rsintercept::metrics::Tally;
use rsintercept::relay::{
    owed_reply, Direction, OpCode, Relay, RelayCommand, RelayEvent, RelayStep,
};

fn up(verbose: bool) -> Relay {
    Relay::new(Direction::ClientToServer, verbose, "/a".to_string())
}

fn down(verbose: bool) -> Relay {
    Relay::new(Direction::ServerToClient, verbose, "/a".to_string())
}

fn frame(opcode: OpCode, payload: &[u8]) -> RelayEvent<'_> {
    RelayEvent::Frame { opcode, payload }
}

fn assert_plain(step: RelayStep, command: RelayCommand) {
    assert!(step.log.is_none());
    assert!(step.tally.is_none());
    assert_eq!(step.command, command);
}

#[test]
fn messages_of_the_client_are_counted_and_forwarded() {
    let mut relay = up(false);
    for opcode in [OpCode::Text, OpCode::Binary] {
        let step = relay.step(frame(opcode, b"hello"));
        assert!(step.log.is_none());
        assert!(matches!(step.tally, Some(Tally::WebsocketMessage(path)) if path == "/a"));
        assert_eq!(step.command, RelayCommand::Forward);
        assert_plain(relay.step(RelayEvent::Sent), RelayCommand::Read);
    }
}

#[test]
fn messages_of_the_server_are_forwarded_uncounted() {
    let mut relay = down(false);
    for opcode in [OpCode::Text, OpCode::Binary] {
        assert_plain(relay.step(frame(opcode, b"hello")), RelayCommand::Forward);
        assert_plain(relay.step(RelayEvent::Sent), RelayCommand::Read);
    }
}

#[test]
fn other_frames_are_passed_over() {
    for opcode in [OpCode::Ping, OpCode::Pong, OpCode::Continuation] {
        assert_plain(up(false).step(frame(opcode, b"")), RelayCommand::Read);
        assert_plain(down(false).step(frame(opcode, b"")), RelayCommand::Read);
    }
}

#[test]
fn messages_are_carried_past_other_frames() {
    let frames = [
        OpCode::Ping,
        OpCode::Text,
        OpCode::Pong,
        OpCode::Continuation,
        OpCode::Binary,
        OpCode::Ping,
    ];
    let mut relay = up(false);
    let mut counted = 0;
    let mut forwarded = Vec::new();
    for opcode in frames {
        let step = relay.step(frame(opcode, b"x"));
        counted += step.tally.iter().count();
        if step.command == RelayCommand::Forward {
            forwarded.push(opcode);
            assert_plain(relay.step(RelayEvent::Sent), RelayCommand::Read);
        } else {
            assert_eq!(step.command, RelayCommand::Read);
        }
    }
    assert_eq!(forwarded, [OpCode::Text, OpCode::Binary]);
    assert_eq!(counted, 2);
}

#[test]
fn every_text_is_logged_where_asked_for() {
    assert_eq!(up(true).step(frame(OpCode::Text, b"hi")).log.as_deref(), Some("↑ hi"));
    assert_eq!(down(true).step(frame(OpCode::Binary, b"hi")).log.as_deref(), Some("↓ hi"));
    assert_eq!(up(true).step(frame(OpCode::Ping, "é".as_bytes())).log.as_deref(), Some("↑ é"));
    assert_eq!(down(true).step(frame(OpCode::Close, b"")).log.as_deref(), Some("↓ "));
}

#[test]
fn what_is_no_utf8_ends_the_relay_without_a_word() {
    for opcode in [OpCode::Text, OpCode::Binary, OpCode::Close, OpCode::Ping] {
        let mut relay = up(true);
        assert_plain(relay.step(frame(opcode, &[0xff])), RelayCommand::Abandon);
        assert_plain(relay.step(frame(OpCode::Text, b"hi")), RelayCommand::Ignore);
        assert_plain(relay.step(RelayEvent::ReadFailed), RelayCommand::Ignore);
        assert_plain(down(true).step(frame(opcode, &[0xe8, 0x03])), RelayCommand::Abandon);
    }
}

#[test]
fn the_end_is_told_upstream_and_then_to_the_client() {
    let mut relay = up(false);
    assert_plain(relay.step(RelayEvent::ReadFailed), RelayCommand::CloseUpstream(1000));
    assert_plain(relay.step(RelayEvent::Closed), RelayCommand::CloseClient(1000));
    let step = relay.step(RelayEvent::Closed);
    assert_eq!(step.log.as_deref(), Some("Closed client connection"));
    assert!(step.tally.is_none());
    assert_eq!(step.command, RelayCommand::Finish);

    let mut relay = down(false);
    assert_plain(relay.step(frame(OpCode::Close, b"")), RelayCommand::CloseUpstream(1000));
    assert_plain(relay.step(RelayEvent::Closed), RelayCommand::CloseClient(1000));
    let step = relay.step(RelayEvent::Closed);
    assert_eq!(step.log.as_deref(), Some("Closed server connection"));
    assert_eq!(step.command, RelayCommand::Finish);
}

#[test]
fn a_frame_that_cannot_be_sent_ends_the_relay() {
    for mut relay in [up(false), down(false)] {
        relay.step(frame(OpCode::Text, b"hi"));
        let step = relay.step(RelayEvent::SendFailed { cause: "gone" });
        assert_eq!(step.log.as_deref(), Some("Error sending frame: gone"));
        assert!(step.tally.is_none());
        assert_eq!(step.command, RelayCommand::CloseUpstream(1000));
    }
}

#[test]
fn only_the_way_from_the_client_fails_on_a_lost_close_frame() {
    let mut relay = up(false);
    relay.step(RelayEvent::ReadFailed);
    assert_plain(relay.step(RelayEvent::CloseFailed), RelayCommand::Fail);

    let mut relay = up(false);
    relay.step(RelayEvent::ReadFailed);
    relay.step(RelayEvent::Closed);
    assert_plain(relay.step(RelayEvent::CloseFailed), RelayCommand::Fail);

    let mut relay = down(false);
    relay.step(RelayEvent::ReadFailed);
    assert_plain(relay.step(RelayEvent::CloseFailed), RelayCommand::CloseClient(1000));
    let step = relay.step(RelayEvent::CloseFailed);
    assert_eq!(step.log.as_deref(), Some("Closed server connection"));
    assert_eq!(step.command, RelayCommand::Finish);
}

#[test]
fn as_many_messages_are_counted_as_forwarded() {
    let events = [
        frame(OpCode::Text, b"one"),
        RelayEvent::Sent,
        frame(OpCode::Ping, b""),
        frame(OpCode::Binary, b"two"),
        frame(OpCode::Binary, b"unasked"),
        RelayEvent::Sent,
        frame(OpCode::Text, b"three"),
        RelayEvent::SendFailed { cause: "gone" },
        RelayEvent::Closed,
        RelayEvent::Closed,
        frame(OpCode::Text, b"late"),
    ];
    let mut relay = up(false);
    let mut counted = 0;
    let mut forwarded = 0;
    let mut commands = Vec::new();
    for event in events {
        let step = relay.step(event);
        if step.tally.is_some() {
            counted += 1;
        }
        if step.command == RelayCommand::Forward {
            forwarded += 1;
        }
        commands.push(step.command);
    }
    assert_eq!(counted, 3);
    assert_eq!(forwarded, 3);
    assert_eq!(
        commands[7..],
        [
            RelayCommand::CloseUpstream(1000),
            RelayCommand::CloseClient(1000),
            RelayCommand::Finish,
            RelayCommand::Ignore,
        ]
    );
}

#[test]
fn owed_replies_are_logged_and_only_a_close_ends_the_reading() {
    let reply = owed_reply(Direction::ClientToServer, OpCode::Pong);
    assert_eq!(reply.log, "err, from client: Pong");
    assert!(reply.reading_goes_on);
    let reply = owed_reply(Direction::ServerToClient, OpCode::Close);
    assert_eq!(reply.log, "err, from server Close");
    assert!(!reply.reading_goes_on);
}

#[test]
fn kinds_of_frames_have_names() {
    for (opcode, name) in [
        (OpCode::Continuation, "Continuation"),
        (OpCode::Text, "Text"),
        (OpCode::Binary, "Binary"),
        (OpCode::Close, "Close"),
        (OpCode::Ping, "Ping"),
        (OpCode::Pong, "Pong"),
    ] {
        assert_eq!(opcode.name(), name);
    }
}
