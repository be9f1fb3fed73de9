//! What holds of an exchange over any sequence of events.

use crate::exchange::{
    ExchangeCommand, ExchangeEvent, ExchangeEventView, ExchangeStep, ExchangeStepView,
    ExchangeView, Settings,
};
use crate::metrics::TallyView;
use vstd::prelude::*;

verus! {

/// The exchange after a list of events.
pub open spec fn exchange_after(
    exchange: ExchangeView,
    events: Seq<ExchangeEventView>,
) -> ExchangeView
    decreases events.len(),
{
    if events.len() == 0 {
        exchange
    } else {
        exchange_after(exchange, events.drop_last()).after(events.last())
    }
}

/// The answer to one of a list of events.
pub open spec fn step_at(
    exchange: ExchangeView,
    events: Seq<ExchangeEventView>,
    i: int,
) -> ExchangeStepView {
    exchange_after(exchange, events.take(i)).answer(events[i])
}

/// Holds of the commands that answer the client.
pub open spec fn is_reply(command: ExchangeCommand) -> bool {
    ||| command is Refuse
    ||| command is ReplyUpstream
    ||| command is ReplyUpgrade
}

/// How far a command is on a request's way: to reach upstream, to have its answer, to answer
/// the client, and what comes of an upgraded connection.
pub open spec fn reached(command: ExchangeCommand) -> int {
    match command {
        ExchangeCommand::DialWebsocket
        | ExchangeCommand::DialHttp
        | ExchangeCommand::Ignore => 0,
        ExchangeCommand::SendRequest => 1,
        ExchangeCommand::Refuse(_)
        | ExchangeCommand::ReplyUpstream
        | ExchangeCommand::ReplyUpgrade => 2,
        ExchangeCommand::StartRelays | ExchangeCommand::Stop => 3,
    }
}

/// Holds of the commands of a request for a websocket.
pub open spec fn of_websocket(command: ExchangeCommand) -> bool {
    ||| command is DialWebsocket
    ||| command is ReplyUpgrade
    ||| command is StartRelays
    ||| command is Stop
}

/// An exchange keeps its label and the status that is not counted.
pub proof fn lemma_exchange_keeps(exchange: ExchangeView, events: Seq<ExchangeEventView>)
    ensures
        exchange_after(exchange, events).label == exchange.label,
        exchange_after(exchange, events).ignore_status == exchange.ignore_status,
    decreases events.len(),
{
    if events.len() > 0 {
        lemma_exchange_keeps(exchange, events.drop_last());
    }
}

proof fn lemma_due_reached(exchange: ExchangeView, events: Seq<ExchangeEventView>, i: int)
    requires
        0 <= i <= events.len(),
    ensures
        ({
            let then = exchange_after(exchange, events.take(i)).due;
            let now = exchange_after(exchange, events).due;
            now == then || reached(then) < reached(now)
        }),
    decreases events.len() - i,
{
    if i < events.len() {
        lemma_due_reached(exchange, events, i + 1);
        let longer = events.take(i + 1);
        assert(longer.drop_last() =~= events.take(i));
    } else {
        assert(events.take(i) =~= events);
    }
}

/// Each command takes the request further: none comes twice and none comes late, and only the
/// last one comes with something to count.
pub proof fn lemma_exchange_order(
    exchange: ExchangeView,
    events: Seq<ExchangeEventView>,
    i: int,
    j: int,
)
    requires
        0 <= i < j < events.len(),
        step_at(exchange, events, i).command != ExchangeCommand::Ignore,
        step_at(exchange, events, j).command != ExchangeCommand::Ignore,
    ensures
        reached(step_at(exchange, events, i).command) < reached(
            step_at(exchange, events, j).command,
        ),
        step_at(exchange, events, i).tally is None,
{
    let earlier = events.take(j);
    lemma_due_reached(exchange, earlier, i + 1);
    assert(earlier.take(i + 1) =~= events.take(i + 1));
    assert(events.take(i + 1).drop_last() =~= events.take(i));
    let due = step_at(exchange, events, i).command;
    assert(exchange_after(exchange, events.take(i + 1)).due == due);
    if due is Refuse || due is ReplyUpstream || due is StartRelays || due is Stop {
        lemma_ended_stays(exchange, earlier, i + 1);
    }
}

/// What ends an exchange stays due.
proof fn lemma_ended_stays(exchange: ExchangeView, events: Seq<ExchangeEventView>, i: int)
    requires
        0 <= i <= events.len(),
        ({
            let then = exchange_after(exchange, events.take(i)).due;
            then is Refuse || then is ReplyUpstream || then is StartRelays || then is Stop
        }),
    ensures
        exchange_after(exchange, events).due == exchange_after(exchange, events.take(i)).due,
    decreases events.len() - i,
{
    if i < events.len() {
        let longer = events.take(i + 1);
        assert(longer.drop_last() =~= events.take(i));
        lemma_ended_stays(exchange, events, i + 1);
    } else {
        assert(events.take(i) =~= events);
    }
}

/// The client gets at most one answer.
pub proof fn lemma_one_reply(
    exchange: ExchangeView,
    events: Seq<ExchangeEventView>,
    i: int,
    j: int,
)
    requires
        0 <= i < events.len(),
        0 <= j < events.len(),
        is_reply(step_at(exchange, events, i).command),
        is_reply(step_at(exchange, events, j).command),
    ensures
        i == j,
{
    if i < j {
        lemma_exchange_order(exchange, events, i, j);
    } else if j < i {
        lemma_exchange_order(exchange, events, j, i);
    }
}

/// A request is counted at most once.
pub proof fn lemma_one_tally(
    exchange: ExchangeView,
    events: Seq<ExchangeEventView>,
    i: int,
    j: int,
)
    requires
        0 <= i < events.len(),
        0 <= j < events.len(),
        step_at(exchange, events, i).tally is Some,
        step_at(exchange, events, j).tally is Some,
    ensures
        i == j,
{
    if i < j {
        lemma_exchange_order(exchange, events, i, j);
    } else if j < i {
        lemma_exchange_order(exchange, events, j, i);
    }
}

/// What a request is counted as: it is refused if and only if it is counted as a failure; an
/// answer from upstream is counted under the request's label if and only if its status is not
/// the ignored one; and an opened websocket is counted as a session under the label. A request
/// for a websocket never counts among the others, nor the reverse.
pub proof fn lemma_what_is_counted(
    exchange: ExchangeView,
    events: Seq<ExchangeEventView>,
    i: int,
)
    requires
        exchange.due == ExchangeCommand::DialWebsocket || exchange.due == ExchangeCommand::DialHttp,
        0 <= i < events.len(),
    ensures
        ({
            let step = step_at(exchange, events, i);
            let websocket = exchange.due == ExchangeCommand::DialWebsocket;
            &&& step.command is Refuse <==> step.tally == Some(
                if websocket {
                    TallyView::WebsocketFail
                } else {
                    TallyView::NonWebsocketFail
                },
            )
            &&& step.command is Refuse ==> step.command == ExchangeCommand::Refuse(503)
            &&& step.command is ReplyUpstream ==> (events[i] matches ExchangeEventView::Answered {
                status,
            } && (step.tally == if exchange.ignore_status == Some(status) {
                None
            } else {
                Some(TallyView::NonWebsocket(exchange.label))
            }))
            &&& step.command is StartRelays ==> step.tally == Some(
                TallyView::WebsocketSession(exchange.label),
            )
            &&& step.command is ReplyUpstream ==> !websocket
            &&& step.command is ReplyUpgrade || step.command is StartRelays ==> websocket
            &&& step.tally is Some ==> step.command is Refuse || step.command is ReplyUpstream
                || step.command is StartRelays
        }),
{
    let before = events.take(i);
    lemma_exchange_keeps(exchange, before);
    lemma_kind_kept(exchange, before);
}

/// A request that is answered with the ignored status is not counted at all, neither then nor
/// before nor afterwards.
pub proof fn lemma_ignored_is_not_counted(
    exchange: ExchangeView,
    events: Seq<ExchangeEventView>,
    i: int,
    j: int,
)
    requires
        exchange.due == ExchangeCommand::DialHttp,
        0 <= i < events.len(),
        0 <= j < events.len(),
        step_at(exchange, events, i).command == ExchangeCommand::ReplyUpstream,
        events[i] matches ExchangeEventView::Answered { status } && exchange.ignore_status == Some(
            status,
        ),
    ensures
        step_at(exchange, events, j).tally is None,
{
    lemma_what_is_counted(exchange, events, i);
    lemma_what_is_counted(exchange, events, j);
    if step_at(exchange, events, j).tally is Some {
        if j < i {
            lemma_exchange_order(exchange, events, j, i);
        } else if i < j {
            lemma_exchange_order(exchange, events, i, j);
        }
    }
}

proof fn lemma_kind_kept(exchange: ExchangeView, events: Seq<ExchangeEventView>)
    requires
        exchange.due == ExchangeCommand::DialWebsocket || exchange.due == ExchangeCommand::DialHttp,
    ensures
        exchange_after(exchange, events).due is Refuse || of_websocket(
            exchange_after(exchange, events).due,
        ) == (exchange.due == ExchangeCommand::DialWebsocket),
    decreases events.len(),
{
    if events.len() > 0 {
        lemma_kind_kept(exchange, events.drop_last());
    }
}

/// Every answer that upstream gives to the request goes to the client, whatever its status, and
/// nothing else does. It is counted under the request's label unless its status is the ignored
/// one, and nothing is logged.
pub proof fn lemma_every_answer_goes_to_the_client(
    exchange: ExchangeView,
    event: ExchangeEventView,
)
    ensures
        exchange.answer(event).command == ExchangeCommand::ReplyUpstream <==> exchange.due
            == ExchangeCommand::SendRequest && event is Answered,
        exchange.due == ExchangeCommand::SendRequest ==> (event matches ExchangeEventView::Answered {
            status,
        } ==> {
            &&& exchange.answer(event).log is None
            &&& exchange.ignore_status == Some(status) ==> exchange.answer(event).tally is None
            &&& exchange.ignore_status != Some(status) ==> exchange.answer(event).tally == Some(
                TallyView::NonWebsocket(exchange.label),
            )
        }),
{
}

/// A request is refused only where upstream cannot be reached or gives no answer, and always
/// there, with the status 503. The reason is logged as it is, and the failure is counted by the
/// kind of the request.
pub proof fn lemma_refused_only_without_upstream(exchange: ExchangeView, event: ExchangeEventView)
    ensures
        exchange.answer(event).command is Refuse <==> {
            ||| exchange.due == ExchangeCommand::DialWebsocket && event is ConnectFailed
            ||| exchange.due == ExchangeCommand::DialHttp && event is ConnectFailed
            ||| exchange.due == ExchangeCommand::SendRequest && event is SendFailed
        },
        exchange.answer(event).command matches ExchangeCommand::Refuse(code) ==> {
            &&& code == 503
            &&& event matches ExchangeEventView::ConnectFailed { cause } ==> exchange.answer(
                event,
            ).log == Some(cause)
            &&& event matches ExchangeEventView::SendFailed { cause } ==> exchange.answer(event).log
                == Some(cause)
            &&& exchange.answer(event).tally == Some(
                if exchange.due == ExchangeCommand::DialWebsocket {
                    TallyView::WebsocketFail
                } else {
                    TallyView::NonWebsocketFail
                },
            )
        },
{
}

/// A request that reaches upstream is sent there, and one for a websocket has the client's
/// connection upgraded; neither is counted or logged at that time.
pub proof fn lemma_connected_goes_on(exchange: ExchangeView, event: ExchangeEventView)
    ensures
        exchange.answer(event).command == ExchangeCommand::SendRequest <==> exchange.due
            == ExchangeCommand::DialHttp && event is Connected,
        exchange.answer(event).command == ExchangeCommand::ReplyUpgrade <==> exchange.due
            == ExchangeCommand::DialWebsocket && event is Connected,
        event is Connected ==> exchange.answer(event).tally is None && exchange.answer(
            event,
        ).log is None,
{
}

/// Messages are relayed if and only if the client's connection became a websocket, which is
/// counted as a session under the request's label; otherwise the exchange stops, with a word on
/// the reason and nothing to count.
pub proof fn lemma_upgraded_is_relayed(exchange: ExchangeView, event: ExchangeEventView)
    ensures
        exchange.answer(event).command == ExchangeCommand::StartRelays <==> exchange.due
            == ExchangeCommand::ReplyUpgrade && event is Upgraded,
        exchange.answer(event).command == ExchangeCommand::StartRelays ==> exchange.answer(
            event,
        ).tally == Some(TallyView::WebsocketSession(exchange.label)) && exchange.answer(
            event,
        ).log is None,
        exchange.answer(event).command == ExchangeCommand::Stop <==> exchange.due
            == ExchangeCommand::ReplyUpgrade && event is UpgradeFailed,
        exchange.answer(event).command == ExchangeCommand::Stop ==> {
            &&& exchange.answer(event).tally is None
            &&& event matches ExchangeEventView::UpgradeFailed { cause } ==> exchange.answer(
                event,
            ).log == Some("error on ws: "@ + cause)
        },
{
}

/// An exchange passes over the reports that are not about the command that is due, and over no
/// other. They change nothing, and bring nothing to log or to count. It never asks for upstream
/// twice.
pub proof fn lemma_exchange_ignores_the_rest(exchange: ExchangeView, event: ExchangeEventView)
    ensures
        exchange.answer(event).command == ExchangeCommand::Ignore <==> !{
            ||| (exchange.due == ExchangeCommand::DialWebsocket || exchange.due
                == ExchangeCommand::DialHttp) && (event is Connected || event is ConnectFailed)
            ||| exchange.due == ExchangeCommand::SendRequest && (event is Answered
                || event is SendFailed)
            ||| exchange.due == ExchangeCommand::ReplyUpgrade && (event is Upgraded
                || event is UpgradeFailed)
        },
        exchange.answer(event).command == ExchangeCommand::Ignore ==> {
            &&& exchange.after(event) == exchange
            &&& exchange.answer(event).log is None
            &&& exchange.answer(event).tally is None
        },
        exchange.answer(event).command != ExchangeCommand::DialWebsocket,
        exchange.answer(event).command != ExchangeCommand::DialHttp,
{
}

/// An exchange waits for the outcome of what it answered, and stays what it was otherwise.
pub proof fn lemma_exchange_waits_for_its_answer(exchange: ExchangeView, event: ExchangeEventView)
    ensures
        exchange.answer(event).command != ExchangeCommand::Ignore ==> exchange.after(event).due
            == exchange.answer(event).command,
        exchange.after(event).label == exchange.label,
        exchange.after(event).ignore_status == exchange.ignore_status,
{
}

/// Neither the label nor the ignored status changes what is done with a request or what is logged.
pub proof fn lemma_settings_change_only_the_tally(
    exchange: ExchangeView,
    other: ExchangeView,
    event: ExchangeEventView,
)
    requires
        exchange.due == other.due,
    ensures
        exchange.answer(event).command == other.answer(event).command,
        exchange.answer(event).log == other.answer(event).log,
        exchange.after(event).due == other.after(event).due,
        exchange.label == other.label && !(event is Answered) ==> exchange.answer(event).tally
            == other.answer(event).tally,
{
}

/// Two statuses that are not ignored are treated alike.
pub proof fn lemma_statuses_are_alike(exchange: ExchangeView, status: u16, other: u16)
    requires
        exchange.ignore_status != Some(status),
        exchange.ignore_status != Some(other),
    ensures
        exchange.answer(ExchangeEventView::Answered { status }) == exchange.answer(
            ExchangeEventView::Answered { status: other },
        ),
        exchange.after(ExchangeEventView::Answered { status }) == exchange.after(
            ExchangeEventView::Answered { status: other },
        ),
{
}

/// The way of an ordinary request whose upstream can be had: it is sent, what comes back goes to
/// the client whatever its status, and after that the exchange does nothing more.
pub proof fn lemma_request_and_answer(exchange: ExchangeView, status: u16)
    requires
        exchange.due == ExchangeCommand::DialHttp,
    ensures
        ({
            let sent = exchange.after(ExchangeEventView::Connected);
            let answered = sent.after(ExchangeEventView::Answered { status });
            &&& exchange.answer(ExchangeEventView::Connected).command
                == ExchangeCommand::SendRequest
            &&& sent.answer(ExchangeEventView::Answered { status }).command
                == ExchangeCommand::ReplyUpstream
            &&& forall|later: ExchangeEventView|
                (#[trigger] answered.answer(later)).command == ExchangeCommand::Ignore
        }),
{
}

/// The way of a request for a websocket whose upstream can be had: the client's connection is
/// upgraded, messages are relayed, and after that the exchange does nothing more.
pub proof fn lemma_request_and_websocket(exchange: ExchangeView)
    requires
        exchange.due == ExchangeCommand::DialWebsocket,
    ensures
        ({
            let upgrading = exchange.after(ExchangeEventView::Connected);
            let open = upgrading.after(ExchangeEventView::Upgraded);
            &&& exchange.answer(ExchangeEventView::Connected).command
                == ExchangeCommand::ReplyUpgrade
            &&& upgrading.answer(ExchangeEventView::Upgraded).command
                == ExchangeCommand::StartRelays
            &&& forall|later: ExchangeEventView|
                (#[trigger] open.answer(later)).command == ExchangeCommand::Ignore
        }),
{
}

/// What an exchange is told is what its driver reported, with the status and the reason.
pub proof fn lemma_exchange_reports_are_taken_as_they_are(event: ExchangeEvent<'_>)
    ensures
        event is Connected ==> event@ is Connected,
        event matches ExchangeEvent::ConnectFailed { cause } ==> event@
            == (ExchangeEventView::ConnectFailed { cause: cause@ }),
        event matches ExchangeEvent::Answered { status } ==> event@
            == (ExchangeEventView::Answered { status }),
        event matches ExchangeEvent::SendFailed { cause } ==> event@
            == (ExchangeEventView::SendFailed { cause: cause@ }),
        event is Upgraded ==> event@ is Upgraded,
        event matches ExchangeEvent::UpgradeFailed { cause } ==> event@
            == (ExchangeEventView::UpgradeFailed { cause: cause@ }),
{
}

/// What a driver reads from an answer is what the exchange answered.
pub proof fn lemma_exchange_answers_are_given_as_they_are(step: ExchangeStep)
    ensures
        step@.command == step.command,
        step.log matches Some(line) ==> step@.log == Some(line@),
        step.log is None ==> step@.log is None,
        step.tally matches Some(tally) ==> step@.tally == Some(tally@),
        step.tally is None ==> step@.tally is None,
{
}

/// The host that goes upstream is the one that the settings name, whichever it is.
pub proof fn lemma_settings_name_the_host(settings: Settings)
    ensures
        settings.http_host matches Some(host) ==> settings.host() == Some(host@),
        settings.http_host is None ==> settings.host() is None,
{
}

} // verus!
