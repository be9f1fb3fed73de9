//! One request: what to do at each point of its way upstream, and what to answer the client.
//!
//! Whoever drives an exchange carries out the command that is due and reports what came of it.

use crate::headers::{
    asks_for_websocket, header_entries, is_websocket, override_host, sendable, with_host, HostError,
};
use crate::metrics::{Tally, TallyView};
use crate::path::{label, path_label};
use crate::relay::{Direction, Relay, RelayCommand, RelayView};
use crate::text::prefixed;
use hyper::header::HeaderMap;
use vstd::prelude::*;
use vstd::utf8::encode_utf8;

verus! {

/// The status of the answer where upstream cannot be had.
pub const SERVICE_UNAVAILABLE: u16 = 503;

/// What a request's way depends on besides the request.
#[derive(Debug)]
pub struct Settings {
    /// The host to name upstream, in place of the one that the client names.
    pub http_host: Option<String>,
    /// How many segments of a path to keep in its label; zero keeps the whole path.
    pub trim_level: u16,
    /// The status of the answers that are not counted.
    pub ignore_status: Option<u16>,
}

impl Settings {
    /// The host to name upstream, as contracts see it.
    pub open spec fn host(self) -> Option<Seq<char>> {
        match self.http_host {
            Some(host) => Some(host@),
            None => None,
        }
    }
}

/// What an exchange wants done.
#[derive(Clone, Copy, Debug, PartialEq, Eq, Structural)]
pub enum ExchangeCommand {
    /// Open a websocket to upstream with the request.
    DialWebsocket,
    /// Connect to upstream.
    DialHttp,
    /// Send the request upstream.
    SendRequest,
    /// Answer the client with this status and no body.
    Refuse(u16),
    /// Answer the client with what upstream answered.
    ReplyUpstream,
    /// Answer the client that the connection becomes a websocket, and wait until it is one.
    ReplyUpgrade,
    /// Start to relay messages in both directions.
    StartRelays,
    /// Nothing more.
    Stop,
    /// Nothing new: the report answers no command of this exchange, and what was due still is.
    Ignore,
}

/// What came of a command.
#[derive(Clone, Copy, Debug)]
pub enum ExchangeEvent<'a> {
    /// The connection to upstream stands.
    Connected,
    /// Upstream could not be reached, for this reason.
    ConnectFailed { cause: &'a str },
    /// Upstream answered with this status.
    Answered { status: u16 },
    /// Upstream gave no answer, for this reason.
    SendFailed { cause: &'a str },
    /// The client's connection is a websocket.
    Upgraded,
    /// The client's connection did not become a websocket, for this reason.
    UpgradeFailed { cause: &'a str },
}

/// What came of a command, as contracts see it.
#[verifier::ext_equal]
pub enum ExchangeEventView {
    Connected,
    ConnectFailed { cause: Seq<char> },
    Answered { status: u16 },
    SendFailed { cause: Seq<char> },
    Upgraded,
    UpgradeFailed { cause: Seq<char> },
}

impl<'a> View for ExchangeEvent<'a> {
    type V = ExchangeEventView;

    open spec fn view(&self) -> ExchangeEventView {
        match self {
            ExchangeEvent::Connected => ExchangeEventView::Connected,
            ExchangeEvent::ConnectFailed { cause } => ExchangeEventView::ConnectFailed {
                cause: cause@,
            },
            ExchangeEvent::Answered { status } => ExchangeEventView::Answered { status: *status },
            ExchangeEvent::SendFailed { cause } => ExchangeEventView::SendFailed { cause: cause@ },
            ExchangeEvent::Upgraded => ExchangeEventView::Upgraded,
            ExchangeEvent::UpgradeFailed { cause } => ExchangeEventView::UpgradeFailed {
                cause: cause@,
            },
        }
    }
}

/// An exchange's answer to an event: an event to count and a line to log, where there is one,
/// and then the next command.
#[derive(Debug)]
pub struct ExchangeStep {
    pub tally: Option<Tally>,
    pub log: Option<String>,
    pub command: ExchangeCommand,
}

/// An exchange's answer, as contracts see it.
#[verifier::ext_equal]
pub struct ExchangeStepView {
    pub tally: Option<TallyView>,
    pub log: Option<Seq<char>>,
    pub command: ExchangeCommand,
}

impl View for ExchangeStep {
    type V = ExchangeStepView;

    open spec fn view(&self) -> ExchangeStepView {
        ExchangeStepView {
            tally: match self.tally {
                Some(tally) => Some(tally@),
                None => None,
            },
            log: match self.log {
                Some(line) => Some(line@),
                None => None,
            },
            command: self.command,
        }
    }
}

/// One request on its way.
#[derive(Debug)]
pub struct Exchange {
    label: String,
    ignore_status: Option<u16>,
    due: ExchangeCommand,
}

/// An exchange: the label it is counted under, the status that is not counted, and the command
/// whose outcome it waits for.
#[verifier::ext_equal]
pub struct ExchangeView {
    pub label: Seq<char>,
    pub ignore_status: Option<u16>,
    pub due: ExchangeCommand,
}

impl View for Exchange {
    type V = ExchangeView;

    closed spec fn view(&self) -> ExchangeView {
        ExchangeView { label: self.label@, ignore_status: self.ignore_status, due: self.due }
    }
}

impl ExchangeView {
    /// An answer that counts and logs nothing.
    pub open spec fn plain(command: ExchangeCommand) -> ExchangeStepView {
        ExchangeStepView { tally: None, log: None, command }
    }

    /// The answer where upstream cannot be had.
    pub open spec fn refusal(tally: TallyView, cause: Seq<char>) -> ExchangeStepView {
        ExchangeStepView {
            tally: Some(tally),
            log: Some(cause),
            command: ExchangeCommand::Refuse(503),
        }
    }

    /// The answer to an event.
    pub open spec fn answer(self, event: ExchangeEventView) -> ExchangeStepView {
        match (self.due, event) {
            (ExchangeCommand::DialWebsocket, ExchangeEventView::Connected) => Self::plain(
                ExchangeCommand::ReplyUpgrade,
            ),
            (ExchangeCommand::DialWebsocket, ExchangeEventView::ConnectFailed { cause }) =>
                Self::refusal(TallyView::WebsocketFail, cause),
            (ExchangeCommand::ReplyUpgrade, ExchangeEventView::Upgraded) => ExchangeStepView {
                tally: Some(TallyView::WebsocketSession(self.label)),
                log: None,
                command: ExchangeCommand::StartRelays,
            },
            (ExchangeCommand::ReplyUpgrade, ExchangeEventView::UpgradeFailed { cause }) =>
                ExchangeStepView {
                    tally: None,
                    log: Some("error on ws: "@ + cause),
                    command: ExchangeCommand::Stop,
                },
            (ExchangeCommand::DialHttp, ExchangeEventView::Connected) => Self::plain(
                ExchangeCommand::SendRequest,
            ),
            (ExchangeCommand::DialHttp, ExchangeEventView::ConnectFailed { cause }) =>
                Self::refusal(TallyView::NonWebsocketFail, cause),
            (ExchangeCommand::SendRequest, ExchangeEventView::Answered { status }) =>
                ExchangeStepView {
                    tally: if self.ignore_status == Some(status) {
                        None
                    } else {
                        Some(TallyView::NonWebsocket(self.label))
                    },
                    log: None,
                    command: ExchangeCommand::ReplyUpstream,
                },
            (ExchangeCommand::SendRequest, ExchangeEventView::SendFailed { cause }) =>
                Self::refusal(TallyView::NonWebsocketFail, cause),
            _ => Self::plain(ExchangeCommand::Ignore),
        }
    }

    /// The exchange after an event: it waits for the outcome of what it answered.
    pub open spec fn after(self, event: ExchangeEventView) -> ExchangeView {
        let command = self.answer(event).command;
        if command == ExchangeCommand::Ignore {
            self
        } else {
            ExchangeView { due: command, ..self }
        }
    }
}

fn plain_step(command: ExchangeCommand) -> (step: ExchangeStep)
    ensures
        step@ == ExchangeView::plain(command),
{
    ExchangeStep { tally: None, log: None, command }
}

fn refusal(tally: Tally, cause: &str) -> (step: ExchangeStep)
    ensures
        step@ == ExchangeView::refusal(tally@, cause@),
{
    ExchangeStep {
        tally: Some(tally),
        log: Some(cause.to_owned()),
        command: ExchangeCommand::Refuse(SERVICE_UNAVAILABLE),
    }
}

impl Exchange {
    /// Takes a request: says whether it is one for a websocket, puts the configured host into
    /// its headers and cuts its path to a label. Where the host cannot be put in, the headers
    /// stay as they are.
    pub fn open(headers: &mut HeaderMap, path: &str, settings: &Settings) -> (result: Result<
        Exchange,
        HostError,
    >)
        ensures
            settings.host() is None ==> result is Ok,
            settings.host() matches Some(host) && !sendable(host) <==> result == Err::<
                Exchange,
                HostError,
            >(HostError::NotSendable),
            result == Err::<Exchange, HostError>(HostError::TooManyHeaders) ==> header_entries(
                *old(headers),
            ).dom().len() > 6553,
            result is Err ==> header_entries(*final(headers)) == header_entries(*old(headers)),
            result is Ok ==> (settings.http_host matches Some(host) ==> {
                &&& header_entries(*final(headers)).dom().contains("host"@)
                &&& header_entries(*final(headers))["host"@] == seq![encode_utf8(host@)]
            }),
            forall|name: Seq<char>|
                name != "host"@ ==> {
                    &&& #[trigger] header_entries(*final(headers)).dom().contains(name)
                        == header_entries(*old(headers)).dom().contains(name)
                    &&& header_entries(*final(headers))[name] == header_entries(*old(headers))[name]
                },
            result matches Ok(exchange) ==> {
                &&& header_entries(*final(headers)) == with_host(
                    header_entries(*old(headers)),
                    settings.host(),
                )
                &&& exchange@ == (ExchangeView {
                    label: label(path@, settings.trim_level as nat),
                    ignore_status: settings.ignore_status,
                    due: if asks_for_websocket(header_entries(*old(headers))) {
                        ExchangeCommand::DialWebsocket
                    } else {
                        ExchangeCommand::DialHttp
                    },
                })
            },
    {
        let due = if is_websocket(headers) {
            ExchangeCommand::DialWebsocket
        } else {
            ExchangeCommand::DialHttp
        };
        let overridden = match &settings.http_host {
            Some(host) => override_host(headers, Some(host.as_str())),
            None => override_host(headers, None),
        };
        match overridden {
            Ok(()) => Ok(
                Exchange {
                    label: path_label(path, settings.trim_level),
                    ignore_status: settings.ignore_status,
                    due,
                },
            ),
            Err(error) => Err(error),
        }
    }

    /// The command that is due.
    pub fn due(&self) -> (command: ExchangeCommand)
        ensures
            command == self@.due,
    {
        self.due
    }

    /// The relays of a websocket that the exchange opened: from the client to the server, and
    /// back. Both wait for their first frame.
    pub fn relays(&self, verbose: bool) -> (relays: (Relay, Relay))
        ensures
            relays.0@ == (RelayView {
                direction: Direction::ClientToServer,
                verbose,
                label: self@.label,
                due: RelayCommand::Read,
            }),
            relays.1@ == (RelayView {
                direction: Direction::ServerToClient,
                verbose,
                label: self@.label,
                due: RelayCommand::Read,
            }),
    {
        (
            Relay::new(Direction::ClientToServer, verbose, self.label.clone()),
            Relay::new(Direction::ServerToClient, verbose, self.label.clone()),
        )
    }

    fn react(&self, event: ExchangeEvent<'_>) -> (step: ExchangeStep)
        ensures
            step@ == self@.answer(event@),
    {
        match (self.due, event) {
            (ExchangeCommand::DialWebsocket, ExchangeEvent::Connected) => plain_step(
                ExchangeCommand::ReplyUpgrade,
            ),
            (ExchangeCommand::DialWebsocket, ExchangeEvent::ConnectFailed { cause }) => refusal(
                Tally::WebsocketFail,
                cause,
            ),
            (ExchangeCommand::ReplyUpgrade, ExchangeEvent::Upgraded) => ExchangeStep {
                tally: Some(Tally::WebsocketSession(self.label.clone())),
                log: None,
                command: ExchangeCommand::StartRelays,
            },
            (ExchangeCommand::ReplyUpgrade, ExchangeEvent::UpgradeFailed { cause }) =>
                ExchangeStep {
                    tally: None,
                    log: Some(prefixed("error on ws: ", cause)),
                    command: ExchangeCommand::Stop,
                },
            (ExchangeCommand::DialHttp, ExchangeEvent::Connected) => plain_step(
                ExchangeCommand::SendRequest,
            ),
            (ExchangeCommand::DialHttp, ExchangeEvent::ConnectFailed { cause }) => refusal(
                Tally::NonWebsocketFail,
                cause,
            ),
            (ExchangeCommand::SendRequest, ExchangeEvent::Answered { status }) => {
                let ignored = match self.ignore_status {
                    Some(code) => code == status,
                    None => false,
                };
                ExchangeStep {
                    tally: if ignored {
                        None
                    } else {
                        Some(Tally::NonWebsocket(self.label.clone()))
                    },
                    log: None,
                    command: ExchangeCommand::ReplyUpstream,
                }
            },
            (ExchangeCommand::SendRequest, ExchangeEvent::SendFailed { cause }) => refusal(
                Tally::NonWebsocketFail,
                cause,
            ),
            _ => plain_step(ExchangeCommand::Ignore),
        }
    }

    /// Takes what came of the last command and answers with the next one.
    pub fn step(&mut self, event: ExchangeEvent<'_>) -> (step: ExchangeStep)
        ensures
            step@ == old(self)@.answer(event@),
            final(self)@ == old(self)@.after(event@),
    {
        let step = self.react(event);
        match step.command {
            ExchangeCommand::Ignore => {},
            command => {
                self.due = command;
            },
        }
        step
    }
}

} // verus!
