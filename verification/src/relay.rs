//! One direction of an open websocket: what to do with each frame that arrives, and how to end.
//!
//! A relay is asked nothing but what to do next. Whoever drives it carries out the command and
//! reports what came of it.

use crate::metrics::{Tally, TallyView};
use crate::text::{prefixed, utf8_text};
use vstd::prelude::*;
use vstd::utf8::{decode_utf8, valid_utf8};

verus! {

/// The status code of the close frames that end a relay.
pub const CLOSE_CODE: u16 = 1000;

/// Which way a relay carries messages.
#[derive(Clone, Copy, Debug, PartialEq, Eq, Structural)]
pub enum Direction {
    ClientToServer,
    ServerToClient,
}

/// The kind of a websocket frame.
#[derive(Clone, Copy, Debug, PartialEq, Eq, Structural)]
pub enum OpCode {
    Continuation,
    Text,
    Binary,
    Close,
    Ping,
    Pong,
}

/// What a relay wants done.
#[derive(Clone, Copy, Debug, PartialEq, Eq, Structural)]
pub enum RelayCommand {
    /// Read the next frame.
    Read,
    /// Send the frame that was read to the other side.
    Forward,
    /// Send a close frame of this code, without a reason, to the upstream server.
    CloseUpstream(u16),
    /// Send a close frame of this code, without a reason, to the client.
    CloseClient(u16),
    /// Nothing more: both sides were told.
    Finish,
    /// Nothing more, and neither side is told.
    Abandon,
    /// Nothing more: a close frame that has to arrive could not be sent.
    Fail,
    /// Nothing new: the report answers no command of this relay, and what was due still is.
    Ignore,
}

/// What came of a command.
#[derive(Clone, Copy, Debug)]
pub enum RelayEvent<'a> {
    /// A frame was read.
    Frame { opcode: OpCode, payload: &'a [u8] },
    /// No frame could be read.
    ReadFailed,
    /// The frame was sent.
    Sent,
    /// The frame could not be sent, for this reason.
    SendFailed { cause: &'a str },
    /// The close frame was sent.
    Closed,
    /// The close frame could not be sent.
    CloseFailed,
}

/// What came of a command, as contracts see it.
#[verifier::ext_equal]
pub enum RelayEventView {
    Frame { opcode: OpCode, payload: Seq<u8> },
    ReadFailed,
    Sent,
    SendFailed { cause: Seq<char> },
    Closed,
    CloseFailed,
}

impl<'a> View for RelayEvent<'a> {
    type V = RelayEventView;

    open spec fn view(&self) -> RelayEventView {
        match self {
            RelayEvent::Frame { opcode, payload } => RelayEventView::Frame {
                opcode: *opcode,
                payload: payload@,
            },
            RelayEvent::ReadFailed => RelayEventView::ReadFailed,
            RelayEvent::Sent => RelayEventView::Sent,
            RelayEvent::SendFailed { cause } => RelayEventView::SendFailed { cause: cause@ },
            RelayEvent::Closed => RelayEventView::Closed,
            RelayEvent::CloseFailed => RelayEventView::CloseFailed,
        }
    }
}

/// A relay's answer to an event: a line to log and an event to count, where there is one, and
/// then the next command.
#[derive(Debug)]
pub struct RelayStep {
    pub log: Option<String>,
    pub tally: Option<Tally>,
    pub command: RelayCommand,
}

/// A relay's answer, as contracts see it.
#[verifier::ext_equal]
pub struct RelayStepView {
    pub log: Option<Seq<char>>,
    pub tally: Option<TallyView>,
    pub command: RelayCommand,
}

impl View for RelayStep {
    type V = RelayStepView;

    open spec fn view(&self) -> RelayStepView {
        RelayStepView {
            log: match self.log {
                Some(line) => Some(line@),
                None => None,
            },
            tally: match self.tally {
                Some(tally) => Some(tally@),
                None => None,
            },
            command: self.command,
        }
    }
}

/// One direction of an open websocket.
#[derive(Debug)]
pub struct Relay {
    direction: Direction,
    verbose: bool,
    label: String,
    due: RelayCommand,
}

/// A relay: which way it carries messages, whether it logs them, the label they are counted
/// under, and the command whose outcome it waits for.
#[verifier::ext_equal]
pub struct RelayView {
    pub direction: Direction,
    pub verbose: bool,
    pub label: Seq<char>,
    pub due: RelayCommand,
}

impl View for Relay {
    type V = RelayView;

    closed spec fn view(&self) -> RelayView {
        RelayView {
            direction: self.direction,
            verbose: self.verbose,
            label: self.label@,
            due: self.due,
        }
    }
}

impl Direction {
    /// What stands before a logged message.
    pub open spec fn arrow(self) -> Seq<char> {
        match self {
            Direction::ClientToServer => "↑ "@,
            Direction::ServerToClient => "↓ "@,
        }
    }

    /// What stands before the logged kind of a frame that is owed to the sender.
    pub open spec fn owed_prefix(self) -> Seq<char> {
        match self {
            Direction::ClientToServer => "err, from client: "@,
            Direction::ServerToClient => "err, from server "@,
        }
    }

    /// What is logged when both sides were told of the end.
    pub open spec fn farewell(self) -> Seq<char> {
        match self {
            Direction::ClientToServer => "Closed client connection"@,
            Direction::ServerToClient => "Closed server connection"@,
        }
    }
}

impl RelayView {
    /// The answer to a frame: what is no UTF-8 text ends the relay without a word, text and
    /// binary messages go on, a close frame ends the relay, and the rest is passed over. Only
    /// what the client sends is counted.
    pub open spec fn on_frame(self, opcode: OpCode, payload: Seq<u8>) -> RelayStepView {
        let log = if self.verbose {
            Some(self.direction.arrow() + decode_utf8(payload))
        } else {
            None
        };
        if !valid_utf8(payload) {
            RelayStepView { log: None, tally: None, command: RelayCommand::Abandon }
        } else if opcode == OpCode::Close {
            RelayStepView { log, tally: None, command: RelayCommand::CloseUpstream(1000) }
        } else if opcode == OpCode::Text || opcode == OpCode::Binary {
            RelayStepView {
                log,
                tally: if self.direction == Direction::ClientToServer {
                    Some(TallyView::WebsocketMessage(self.label))
                } else {
                    None
                },
                command: RelayCommand::Forward,
            }
        } else {
            RelayStepView { log, tally: None, command: RelayCommand::Read }
        }
    }

    /// The answer to an event.
    pub open spec fn answer(self, event: RelayEventView) -> RelayStepView {
        let plain = |command: RelayCommand| RelayStepView { log: None, tally: None, command };
        let farewell = RelayStepView {
            log: Some(self.direction.farewell()),
            tally: None,
            command: RelayCommand::Finish,
        };
        match (self.due, event) {
            (RelayCommand::Read, RelayEventView::Frame { opcode, payload }) => self.on_frame(
                opcode,
                payload,
            ),
            (RelayCommand::Read, RelayEventView::ReadFailed) => plain(
                RelayCommand::CloseUpstream(1000),
            ),
            (RelayCommand::Forward, RelayEventView::Sent) => plain(RelayCommand::Read),
            (RelayCommand::Forward, RelayEventView::SendFailed { cause }) => RelayStepView {
                log: Some("Error sending frame: "@ + cause),
                tally: None,
                command: RelayCommand::CloseUpstream(1000),
            },
            (RelayCommand::CloseUpstream(_), RelayEventView::Closed) => plain(
                RelayCommand::CloseClient(1000),
            ),
            (RelayCommand::CloseUpstream(_), RelayEventView::CloseFailed) => plain(
                if self.direction == Direction::ClientToServer {
                    RelayCommand::Fail
                } else {
                    RelayCommand::CloseClient(1000)
                },
            ),
            (RelayCommand::CloseClient(_), RelayEventView::Closed) => farewell,
            (RelayCommand::CloseClient(_), RelayEventView::CloseFailed) =>
                if self.direction == Direction::ClientToServer {
                    plain(RelayCommand::Fail)
                } else {
                    farewell
                },
            _ => plain(RelayCommand::Ignore),
        }
    }

    /// The relay after an event: it waits for the outcome of what it answered.
    pub open spec fn after(self, event: RelayEventView) -> RelayView {
        let command = self.answer(event).command;
        if command == RelayCommand::Ignore {
            self
        } else {
            RelayView { due: command, ..self }
        }
    }
}

impl Relay {
    /// A relay that waits for its first frame.
    pub fn new(direction: Direction, verbose: bool, label: String) -> (relay: Relay)
        ensures
            relay@ == (RelayView {
                direction,
                verbose,
                label: label@,
                due: RelayCommand::Read,
            }),
    {
        Relay { direction, verbose, label, due: RelayCommand::Read }
    }

    fn read(&self, opcode: OpCode, payload: &[u8]) -> (step: RelayStep)
        ensures
            step@ == self@.on_frame(opcode, payload@),
    {
        let text = match utf8_text(payload) {
            Some(text) => text,
            None => {
                return RelayStep { log: None, tally: None, command: RelayCommand::Abandon };
            },
        };
        let log = if self.verbose {
            Some(
                match self.direction {
                    Direction::ClientToServer => prefixed("↑ ", text),
                    Direction::ServerToClient => prefixed("↓ ", text),
                },
            )
        } else {
            None
        };
        match opcode {
            OpCode::Close => RelayStep {
                log,
                tally: None,
                command: RelayCommand::CloseUpstream(CLOSE_CODE),
            },
            OpCode::Text | OpCode::Binary => RelayStep {
                log,
                tally: match self.direction {
                    Direction::ClientToServer => Some(Tally::WebsocketMessage(self.label.clone())),
                    Direction::ServerToClient => None,
                },
                command: RelayCommand::Forward,
            },
            _ => RelayStep { log, tally: None, command: RelayCommand::Read },
        }
    }

    fn goodbye(&self) -> (step: RelayStep)
        ensures
            step@ == (RelayStepView {
                log: Some(self@.direction.farewell()),
                tally: None,
                command: RelayCommand::Finish,
            }),
    {
        RelayStep {
            log: Some(
                match self.direction {
                    Direction::ClientToServer => "Closed client connection".to_owned(),
                    Direction::ServerToClient => "Closed server connection".to_owned(),
                },
            ),
            tally: None,
            command: RelayCommand::Finish,
        }
    }

    fn react(&self, event: RelayEvent<'_>) -> (step: RelayStep)
        ensures
            step@ == self@.answer(event@),
    {
        let client = match self.direction {
            Direction::ClientToServer => true,
            Direction::ServerToClient => false,
        };
        match (self.due, event) {
            (RelayCommand::Read, RelayEvent::Frame { opcode, payload }) => self.read(
                opcode,
                payload,
            ),
            (RelayCommand::Read, RelayEvent::ReadFailed) => plain_step(
                RelayCommand::CloseUpstream(CLOSE_CODE),
            ),
            (RelayCommand::Forward, RelayEvent::Sent) => plain_step(RelayCommand::Read),
            (RelayCommand::Forward, RelayEvent::SendFailed { cause }) => RelayStep {
                log: Some(prefixed("Error sending frame: ", cause)),
                tally: None,
                command: RelayCommand::CloseUpstream(CLOSE_CODE),
            },
            (RelayCommand::CloseUpstream(_), RelayEvent::Closed) => plain_step(
                RelayCommand::CloseClient(CLOSE_CODE),
            ),
            (RelayCommand::CloseUpstream(_), RelayEvent::CloseFailed) => {
                if client {
                    plain_step(RelayCommand::Fail)
                } else {
                    plain_step(RelayCommand::CloseClient(CLOSE_CODE))
                }
            },
            (RelayCommand::CloseClient(_), RelayEvent::Closed) => self.goodbye(),
            (RelayCommand::CloseClient(_), RelayEvent::CloseFailed) => {
                if client {
                    plain_step(RelayCommand::Fail)
                } else {
                    self.goodbye()
                }
            },
            _ => plain_step(RelayCommand::Ignore),
        }
    }

    /// Takes what came of the last command and answers with the next one.
    pub fn step(&mut self, event: RelayEvent<'_>) -> (step: RelayStep)
        ensures
            step@ == old(self)@.answer(event@),
            final(self)@ == old(self)@.after(event@),
    {
        let step = self.react(event);
        match step.command {
            RelayCommand::Ignore => {},
            command => {
                self.due = command;
            },
        }
        step
    }
}

impl OpCode {
    /// The name of the kind.
    pub open spec fn spec_name(self) -> Seq<char> {
        match self {
            OpCode::Continuation => "Continuation"@,
            OpCode::Text => "Text"@,
            OpCode::Binary => "Binary"@,
            OpCode::Close => "Close"@,
            OpCode::Ping => "Ping"@,
            OpCode::Pong => "Pong"@,
        }
    }

    /// The name of the kind.
    pub fn name(self) -> (result: &'static str)
        ensures
            result@ == self.spec_name(),
    {
        match self {
            OpCode::Continuation => "Continuation",
            OpCode::Text => "Text",
            OpCode::Binary => "Binary",
            OpCode::Close => "Close",
            OpCode::Ping => "Ping",
            OpCode::Pong => "Pong",
        }
    }
}

/// What becomes of a frame that the protocol owes the sender as a reply: it is logged and not
/// sent, and an owed close frame ends the reading.
#[derive(Debug)]
pub struct OwedReply {
    pub log: String,
    pub reading_goes_on: bool,
}

/// What becomes of a frame that is owed to the side that the relay reads from.
pub fn owed_reply(direction: Direction, opcode: OpCode) -> (reply: OwedReply)
    ensures
        reply.log@ == direction.owed_prefix() + opcode.spec_name(),
        reply.reading_goes_on <==> opcode != OpCode::Close,
{
    OwedReply {
        log: match direction {
            Direction::ClientToServer => prefixed("err, from client: ", opcode.name()),
            Direction::ServerToClient => prefixed("err, from server ", opcode.name()),
        },
        reading_goes_on: match opcode {
            OpCode::Close => false,
            _ => true,
        },
    }
}

fn plain_step(command: RelayCommand) -> (step: RelayStep)
    ensures
        step@ == (RelayStepView { log: None, tally: None, command }),
{
    RelayStep { log: None, tally: None, command }
}

} // verus!
