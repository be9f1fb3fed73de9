//! What holds of a relay over any sequence of events.

use crate::metrics::TallyView;
use crate::relay::{
    Direction, OpCode, RelayCommand, RelayEvent, RelayEventView, RelayStep, RelayStepView,
    RelayView,
};
use crate::text::lemma_encode_concat;
use vstd::prelude::*;
use vstd::utf8::{decode_utf8, decode_utf8_encode_utf8, encode_utf8, valid_utf8};

verus! {

/// The relay after a list of events.
pub open spec fn relay_after(relay: RelayView, events: Seq<RelayEventView>) -> RelayView
    decreases events.len(),
{
    if events.len() == 0 {
        relay
    } else {
        relay_after(relay, events.drop_last()).after(events.last())
    }
}

/// The answer to one of a list of events.
pub open spec fn answer_at(relay: RelayView, events: Seq<RelayEventView>, i: int) -> RelayStepView {
    relay_after(relay, events.take(i)).answer(events[i])
}

/// How far a command is on the way to the end: carrying messages, telling upstream, telling the
/// client, and the end.
pub open spec fn progress(command: RelayCommand) -> int {
    match command {
        RelayCommand::Read | RelayCommand::Forward | RelayCommand::Ignore => 0,
        RelayCommand::CloseUpstream(_) => 1,
        RelayCommand::CloseClient(_) => 2,
        RelayCommand::Finish | RelayCommand::Abandon | RelayCommand::Fail => 3,
    }
}

/// The frames that a list of events brings to be forwarded, in their order.
pub open spec fn carried(relay: RelayView, events: Seq<RelayEventView>) -> Seq<(OpCode, Seq<u8>)>
    decreases events.len(),
{
    if events.len() == 0 {
        Seq::empty()
    } else {
        let rest = events.drop_last();
        let answer = relay_after(relay, rest).answer(events.last());
        match events.last() {
            RelayEventView::Frame { opcode, payload } if answer.command == RelayCommand::Forward =>
                carried(relay, rest).push((opcode, payload)),
            _ => carried(relay, rest),
        }
    }
}

/// How many commands to forward a frame a list of events brings about.
pub open spec fn forwards(relay: RelayView, events: Seq<RelayEventView>) -> nat
    decreases events.len(),
{
    if events.len() == 0 {
        0
    } else {
        let rest = events.drop_last();
        let answer = relay_after(relay, rest).answer(events.last());
        forwards(relay, rest) + if answer.command == RelayCommand::Forward {
            1nat
        } else {
            0nat
        }
    }
}

/// How many messages a list of events brings to be counted.
pub open spec fn counted(relay: RelayView, events: Seq<RelayEventView>) -> nat
    decreases events.len(),
{
    if events.len() == 0 {
        0
    } else {
        let rest = events.drop_last();
        let answer = relay_after(relay, rest).answer(events.last());
        counted(relay, rest) + if answer.tally is Some {
            1nat
        } else {
            0nat
        }
    }
}

/// A relay keeps its direction, its label and whether it logs messages.
pub proof fn lemma_relay_keeps(relay: RelayView, events: Seq<RelayEventView>)
    ensures
        relay_after(relay, events).direction == relay.direction,
        relay_after(relay, events).label == relay.label,
        relay_after(relay, events).verbose == relay.verbose,
    decreases events.len(),
{
    if events.len() > 0 {
        lemma_relay_keeps(relay, events.drop_last());
    }
}

/// What a relay counts: from the client to the server every frame that it forwards, under its
/// label, and nothing else; in the other direction nothing.
pub proof fn lemma_relay_counts_forwards(relay: RelayView, events: Seq<RelayEventView>)
    ensures
        counted(relay, events) == if relay.direction == Direction::ClientToServer {
            forwards(relay, events)
        } else {
            0
        },
        forall|i: int|
            0 <= i < events.len() && (#[trigger] answer_at(relay, events, i)).tally is Some
                ==> answer_at(relay, events, i).tally == Some(
                TallyView::WebsocketMessage(relay.label),
            ),
    decreases events.len(),
{
    assert forall|i: int|
        0 <= i < events.len() && (#[trigger] answer_at(
            relay,
            events,
            i,
        )).tally is Some implies answer_at(relay, events, i).tally == Some(
        TallyView::WebsocketMessage(relay.label),
    ) by {
        lemma_relay_keeps(relay, events.take(i));
    }
    if events.len() > 0 {
        lemma_relay_keeps(relay, events.drop_last());
        lemma_relay_counts_forwards(relay, events.drop_last());
    }
}

/// A relay forwards nothing but text and binary frames that are UTF-8.
pub proof fn lemma_relay_forwards_messages(relay: RelayView, events: Seq<RelayEventView>, i: int)
    requires
        0 <= i < events.len(),
        answer_at(relay, events, i).command == RelayCommand::Forward,
    ensures
        events[i] matches RelayEventView::Frame { opcode, payload } && (opcode == OpCode::Text
            || opcode == OpCode::Binary) && valid_utf8(payload),
{
}

/// The command that is due only moves towards the end.
proof fn lemma_due_progress(relay: RelayView, events: Seq<RelayEventView>, i: int)
    requires
        0 <= i <= events.len(),
    ensures
        progress(relay_after(relay, events.take(i)).due) <= progress(
            relay_after(relay, events).due,
        ),
    decreases events.len() - i,
{
    if i < events.len() {
        lemma_due_progress(relay, events, i + 1);
        let longer = events.take(i + 1);
        assert(longer.drop_last() =~= events.take(i));
    } else {
        assert(events.take(i) =~= events);
    }
}

/// Commands come in one order: messages are carried, then upstream is told, then the client,
/// then comes the end. None of the last three comes twice, none comes late, and after the end
/// comes nothing.
pub proof fn lemma_relay_order(relay: RelayView, events: Seq<RelayEventView>, i: int, j: int)
    requires
        0 <= i < j < events.len(),
        answer_at(relay, events, i).command != RelayCommand::Ignore,
        answer_at(relay, events, j).command != RelayCommand::Ignore,
    ensures
        progress(answer_at(relay, events, i).command) < 3,
        progress(answer_at(relay, events, i).command) == 0 || progress(
            answer_at(relay, events, i).command,
        ) < progress(answer_at(relay, events, j).command),
{
    let earlier = events.take(j);
    lemma_due_progress(relay, earlier, i + 1);
    assert(earlier.take(i + 1) =~= events.take(i + 1));
    assert(events.take(i + 1).drop_last() =~= events.take(i));
}

/// A command that is due and was not at the start is the answer to one of the events.
proof fn lemma_due_was_answered(relay: RelayView, events: Seq<RelayEventView>) -> (i: int)
    requires
        relay_after(relay, events).due != relay.due,
    ensures
        0 <= i < events.len(),
        answer_at(relay, events, i).command == relay_after(relay, events).due,
        answer_at(relay, events, i).command != RelayCommand::Ignore,
    decreases events.len(),
{
    let rest = events.drop_last();
    let n = rest.len() as int;
    assert(events.take(n) =~= rest);
    if relay_after(relay, rest).answer(events.last()).command != RelayCommand::Ignore {
        n
    } else {
        let i = lemma_due_was_answered(relay, rest);
        assert(rest.take(i) =~= events.take(i));
        i
    }
}

/// A relay that finishes has told both sides, upstream first.
pub proof fn lemma_relay_tells_both(relay: RelayView, events: Seq<RelayEventView>, k: int) -> (told: (
    int,
    int,
))
    requires
        relay.due == RelayCommand::Read,
        0 <= k < events.len(),
        answer_at(relay, events, k).command == RelayCommand::Finish,
    ensures
        0 <= told.0 < told.1 < k,
        answer_at(relay, events, told.0).command is CloseUpstream,
        answer_at(relay, events, told.1).command is CloseClient,
{
    let before = events.take(k);
    let j = lemma_due_was_answered(relay, before);
    assert(before.take(j) =~= events.take(j));
    let earlier = events.take(j);
    let i = lemma_due_was_answered(relay, earlier);
    assert(earlier.take(i) =~= events.take(i));
    (i, j)
}

/// A relay that is abandoned has told neither side, and tells neither afterwards.
pub proof fn lemma_relay_abandons_silently(
    relay: RelayView,
    events: Seq<RelayEventView>,
    k: int,
    i: int,
)
    requires
        0 <= k < events.len(),
        0 <= i < events.len(),
        answer_at(relay, events, k).command == RelayCommand::Abandon,
    ensures
        !(answer_at(relay, events, i).command is CloseUpstream),
        !(answer_at(relay, events, i).command is CloseClient),
{
    if i < k {
        let before = events.take(k);
        lemma_due_progress(relay, before, i + 1);
        assert(before.take(i + 1) =~= events.take(i + 1));
        assert(events.take(i + 1).drop_last() =~= events.take(i));
    } else if k < i {
        if answer_at(relay, events, i).command != RelayCommand::Ignore {
            lemma_relay_order(relay, events, k, i);
        }
    }
}

/// Each command to forward is about a frame that was just read.
pub proof fn lemma_relay_forwards_carried(relay: RelayView, events: Seq<RelayEventView>)
    ensures
        forwards(relay, events) == carried(relay, events).len(),
    decreases events.len(),
{
    if events.len() > 0 {
        lemma_relay_forwards_carried(relay, events.drop_last());
    }
}

/// Holds of the kinds of frames that are messages.
pub open spec fn is_message(opcode: OpCode) -> bool {
    opcode == OpCode::Text || opcode == OpCode::Binary
}

/// The messages among frames, in their order.
pub open spec fn messages(frames: Seq<(OpCode, Seq<u8>)>) -> Seq<(OpCode, Seq<u8>)>
    decreases frames.len(),
{
    if frames.len() == 0 {
        Seq::empty()
    } else if is_message(frames.last().0) {
        messages(frames.drop_last()).push(frames.last())
    } else {
        messages(frames.drop_last())
    }
}

/// The events of a conversation in which each frame is read, and each message is then sent.
pub open spec fn conversation(frames: Seq<(OpCode, Seq<u8>)>) -> Seq<RelayEventView>
    decreases frames.len(),
{
    if frames.len() == 0 {
        Seq::empty()
    } else {
        let (opcode, payload) = frames.last();
        let read = conversation(frames.drop_last()).push(RelayEventView::Frame { opcode, payload });
        if is_message(opcode) {
            read.push(RelayEventView::Sent)
        } else {
            read
        }
    }
}

/// As long as frames can be read and sent, all of them are UTF-8 and none closes the connection, a
/// relay forwards every message, in their order, and passes over the frames between them; then it
/// waits for the next frame.
pub proof fn lemma_relay_carries_all(relay: RelayView, frames: Seq<(OpCode, Seq<u8>)>)
    requires
        relay.due == RelayCommand::Read,
        forall|i: int|
            0 <= i < frames.len() ==> (#[trigger] frames[i]).0 != OpCode::Close && valid_utf8(
                frames[i].1,
            ),
    ensures
        relay_after(relay, conversation(frames)) == relay,
        carried(relay, conversation(frames)) == messages(frames),
        forwards(relay, conversation(frames)) == messages(frames).len(),
        counted(relay, conversation(frames)) == if relay.direction == Direction::ClientToServer {
            messages(frames).len()
        } else {
            0
        },
    decreases frames.len(),
{
    if frames.len() > 0 {
        let rest = frames.drop_last();
        assert forall|i: int| 0 <= i < rest.len() implies (#[trigger] rest[i]).0 != OpCode::Close
            && valid_utf8(rest[i].1) by {
            assert(rest[i] == frames[i]);
        }
        lemma_relay_carries_all(relay, rest);
        let (opcode, payload) = frames.last();
        assert(frames.last() == frames[frames.len() - 1]);
        let read = conversation(rest).push(RelayEventView::Frame { opcode, payload });
        assert(read.drop_last() == conversation(rest));
        assert(relay_after(relay, read) == relay.after(read.last()));
        if is_message(opcode) {
            let sent = read.push(RelayEventView::Sent);
            assert(sent.drop_last() == read);
            assert(relay_after(relay, read).due == RelayCommand::Forward);
            assert(relay_after(relay, sent) == relay_after(relay, read).after(
                RelayEventView::Sent,
            ));
            assert(carried(relay, read) == messages(frames));
            assert(carried(relay, sent) == messages(frames));
        }
        assert(relay_after(relay, conversation(frames)) =~= relay);
    }
    lemma_relay_forwards_carried(relay, conversation(frames));
    lemma_relay_counts_forwards(relay, conversation(frames));
}

/// A relay is abandoned only over a frame that is no UTF-8, always over such a frame, and then
/// without a word.
pub proof fn lemma_relay_abandons_only_over_bytes(relay: RelayView, event: RelayEventView)
    ensures
        relay.answer(event).command == RelayCommand::Abandon <==> relay.due == RelayCommand::Read
            && (event matches RelayEventView::Frame { opcode: _, payload } && !valid_utf8(payload)),
        relay.answer(event).command == RelayCommand::Abandon ==> relay.answer(event).log is None
            && relay.answer(event).tally is None,
{
}

/// A relay forwards the text and binary frames that are UTF-8 and arrive when it waits for one:
/// all of them, and nothing else.
pub proof fn lemma_relay_forwards_exactly_messages(relay: RelayView, event: RelayEventView)
    ensures
        relay.answer(event).command == RelayCommand::Forward <==> relay.due == RelayCommand::Read
            && (event matches RelayEventView::Frame { opcode, payload } && valid_utf8(payload) && (
        opcode == OpCode::Text || opcode == OpCode::Binary)),
{
}

/// A relay waits for the next frame when a message was sent, and when a frame that is UTF-8 is
/// neither a message nor a close frame; at no other time.
pub proof fn lemma_relay_reads_on(relay: RelayView, event: RelayEventView)
    ensures
        relay.answer(event).command == RelayCommand::Read <==> {
            ||| relay.due == RelayCommand::Forward && event is Sent
            ||| relay.due == RelayCommand::Read && (event matches RelayEventView::Frame {
                opcode,
                payload,
            } && valid_utf8(payload) && opcode != OpCode::Close && opcode != OpCode::Text && opcode
                != OpCode::Binary)
        },
{
}

/// A relay starts to tell both sides of the end where no frame can be read, where a close frame
/// arrives and where a message cannot be sent, and only then. Upstream is told first, then the
/// client, both with the code 1000.
pub proof fn lemma_relay_tells_of_the_end(relay: RelayView, event: RelayEventView)
    ensures
        relay.answer(event).command is CloseUpstream <==> {
            ||| relay.due == RelayCommand::Read && event is ReadFailed
            ||| relay.due == RelayCommand::Read && (event matches RelayEventView::Frame {
                opcode,
                payload,
            } && opcode == OpCode::Close && valid_utf8(payload))
            ||| relay.due == RelayCommand::Forward && event is SendFailed
        },
        relay.answer(event).command matches RelayCommand::CloseUpstream(code) ==> code == 1000,
        relay.answer(event).command is CloseClient <==> relay.due is CloseUpstream && (event is Closed
            || event is CloseFailed && relay.direction == Direction::ServerToClient),
        relay.answer(event).command matches RelayCommand::CloseClient(code) ==> code == 1000,
{
}

/// A relay finishes when the client was told, and fails where it has to tell a side and cannot:
/// that holds of the way from the client only, the other way goes on.
pub proof fn lemma_relay_finishes_or_fails(relay: RelayView, event: RelayEventView)
    ensures
        relay.answer(event).command == RelayCommand::Finish <==> relay.due is CloseClient && (
        event is Closed || event is CloseFailed && relay.direction == Direction::ServerToClient),
        relay.answer(event).command == RelayCommand::Fail <==> (relay.due is CloseUpstream
            || relay.due is CloseClient) && event is CloseFailed && relay.direction
            == Direction::ClientToServer,
{
}

/// A relay passes over the reports that are not about the command that is due, and over no other.
/// They change nothing, and bring nothing to log or to count.
pub proof fn lemma_relay_ignores_the_rest(relay: RelayView, event: RelayEventView)
    ensures
        relay.answer(event).command == RelayCommand::Ignore <==> !{
            ||| relay.due == RelayCommand::Read && (event is Frame || event is ReadFailed)
            ||| relay.due == RelayCommand::Forward && (event is Sent || event is SendFailed)
            ||| (relay.due is CloseUpstream || relay.due is CloseClient) && (event is Closed
                || event is CloseFailed)
        },
        relay.answer(event).command == RelayCommand::Ignore ==> {
            &&& relay.after(event) == relay
            &&& relay.answer(event).log is None
            &&& relay.answer(event).tally is None
        },
{
}

/// A relay waits for the outcome of what it answered, and stays what it was otherwise.
pub proof fn lemma_relay_waits_for_its_answer(relay: RelayView, event: RelayEventView)
    ensures
        relay.answer(event).command != RelayCommand::Ignore ==> relay.after(event).due
            == relay.answer(event).command,
        relay.after(event).direction == relay.direction,
        relay.after(event).label == relay.label,
        relay.after(event).verbose == relay.verbose,
{
}

/// What is counted is each message from the client, under the relay's label, at the time when it
/// is to be forwarded.
pub proof fn lemma_relay_counts_each_message(relay: RelayView, event: RelayEventView)
    ensures
        relay.answer(event).tally == if relay.direction == Direction::ClientToServer
            && relay.answer(event).command == RelayCommand::Forward {
            Some(TallyView::WebsocketMessage(relay.label))
        } else {
            None
        },
{
}

/// A relay that logs messages logs each frame that is UTF-8, behind an arrow that shows its
/// direction and with its very bytes; one that does not logs none.
pub proof fn lemma_relay_logs_frames(relay: RelayView, opcode: OpCode, payload: Seq<u8>)
    requires
        relay.due == RelayCommand::Read,
    ensures
        ({
            let log = relay.answer(RelayEventView::Frame { opcode, payload }).log;
            &&& log is Some <==> relay.verbose && valid_utf8(payload)
            &&& relay.direction == Direction::ClientToServer ==> (log matches Some(text) ==> encode_utf8(text)
                == encode_utf8("↑ "@) + payload)
            &&& relay.direction == Direction::ServerToClient ==> (log matches Some(text) ==> encode_utf8(text)
                == encode_utf8("↓ "@) + payload)
        }),
{
    if valid_utf8(payload) {
        decode_utf8_encode_utf8(payload);
        lemma_encode_concat("↑ "@, decode_utf8(payload));
        lemma_encode_concat("↓ "@, decode_utf8(payload));
    }
}

/// Besides frames a relay logs why a message could not be sent, and that both sides were told; and
/// nothing else, whether or not it logs messages.
pub proof fn lemma_relay_logs_the_end(relay: RelayView, event: RelayEventView)
    requires
        !(event is Frame),
    ensures
        relay.answer(event).log is Some <==> {
            ||| relay.due == RelayCommand::Forward && event is SendFailed
            ||| relay.answer(event).command == RelayCommand::Finish
        },
        relay.due == RelayCommand::Forward ==> (event matches RelayEventView::SendFailed { cause }
            ==> relay.answer(event).log == Some("Error sending frame: "@ + cause)),
        relay.answer(event).command == RelayCommand::Finish ==> relay.answer(event).log == Some(
            if relay.direction == Direction::ClientToServer {
                "Closed client connection"@
            } else {
                "Closed server connection"@
            },
        ),
{
}

/// Whether a relay logs messages changes nothing but what it logs.
pub proof fn lemma_verbosity_changes_only_the_log(
    relay: RelayView,
    other: RelayView,
    event: RelayEventView,
)
    requires
        relay.direction == other.direction,
        relay.label == other.label,
        relay.due == other.due,
    ensures
        relay.answer(event).command == other.answer(event).command,
        relay.answer(event).tally == other.answer(event).tally,
        relay.after(event).due == other.after(event).due,
        !(event is Frame) ==> relay.answer(event).log == other.answer(event).log,
{
}

/// The label changes nothing but what messages are counted under.
pub proof fn lemma_label_changes_only_the_tally(
    relay: RelayView,
    other: RelayView,
    event: RelayEventView,
)
    requires
        relay.direction == other.direction,
        relay.verbose == other.verbose,
        relay.due == other.due,
    ensures
        relay.answer(event).command == other.answer(event).command,
        relay.answer(event).log == other.answer(event).log,
        relay.after(event).due == other.after(event).due,
{
}

/// The two directions of a websocket carry messages and end alike, as long as close frames can be
/// sent.
pub proof fn lemma_directions_carry_alike(
    relay: RelayView,
    other: RelayView,
    event: RelayEventView,
)
    requires
        relay.due == other.due,
        !(event is CloseFailed),
    ensures
        relay.answer(event).command == other.answer(event).command,
        relay.after(event).due == other.after(event).due,
{
}

/// Where no frame can be read, or a close frame arrives, upstream and then the client get a close
/// frame of the code 1000, the end is logged, and after that the relay does nothing more, whatever
/// its direction, its label and its verbosity.
pub proof fn lemma_relay_ends_in_order(relay: RelayView, event: RelayEventView)
    requires
        relay.due == RelayCommand::Read,
        event is ReadFailed || (event matches RelayEventView::Frame { opcode, payload } && opcode
            == OpCode::Close && valid_utf8(payload)),
    ensures
        ({
            let upstream = relay.after(event);
            let client = upstream.after(RelayEventView::Closed);
            let over = client.after(RelayEventView::Closed);
            &&& relay.answer(event).command == RelayCommand::CloseUpstream(1000)
            &&& upstream.answer(RelayEventView::Closed).command == RelayCommand::CloseClient(1000)
            &&& client.answer(RelayEventView::Closed).command == RelayCommand::Finish
            &&& client.answer(RelayEventView::Closed).log is Some
            &&& forall|later: RelayEventView|
                (#[trigger] over.answer(later)).command == RelayCommand::Ignore
        }),
{
}

/// What a relay is told is what its driver reported, with the frame's kind and its bytes.
pub proof fn lemma_relay_reports_are_taken_as_they_are(event: RelayEvent<'_>)
    ensures
        event matches RelayEvent::Frame { opcode, payload } ==> event@ == (RelayEventView::Frame {
            opcode,
            payload: payload@,
        }),
        event matches RelayEvent::SendFailed { cause } ==> event@ == (RelayEventView::SendFailed {
            cause: cause@,
        }),
        event is ReadFailed ==> event@ is ReadFailed,
        event is Sent ==> event@ is Sent,
        event is Closed ==> event@ is Closed,
        event is CloseFailed ==> event@ is CloseFailed,
{
}

/// What a driver reads from an answer is what the relay answered.
pub proof fn lemma_relay_answers_are_given_as_they_are(step: RelayStep)
    ensures
        step@.command == step.command,
        step.log matches Some(line) ==> step@.log == Some(line@),
        step.log is None ==> step@.log is None,
        step.tally matches Some(tally) ==> step@.tally == Some(tally@),
        step.tally is None ==> step@.tally is None,
{
}

/// What is said of a frame that is owed to the side that a relay reads from: which side that is,
/// and what the frame's kind is called.
pub proof fn lemma_owed_words(direction: Direction, opcode: OpCode)
    ensures
        direction == Direction::ClientToServer ==> direction.owed_prefix() == "err, from client: "@,
        direction == Direction::ServerToClient ==> direction.owed_prefix() == "err, from server "@,
        opcode == OpCode::Continuation ==> opcode.spec_name() == "Continuation"@,
        opcode == OpCode::Text ==> opcode.spec_name() == "Text"@,
        opcode == OpCode::Binary ==> opcode.spec_name() == "Binary"@,
        opcode == OpCode::Close ==> opcode.spec_name() == "Close"@,
        opcode == OpCode::Ping ==> opcode.spec_name() == "Ping"@,
        opcode == OpCode::Pong ==> opcode.spec_name() == "Pong"@,
{
}

} // verus!
