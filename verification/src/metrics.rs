//! What the proxy counts.

use crate::counters::{
    add_labelled, add_plain, described, full_name, labelled_text, number, one_more, plain_text,
    register_labelled, register_plain, sample_added, samples, slot, LabelledCounter, PlainCounter,
};
use vstd::prelude::*;

verus! {

/// An event to count. The paths are labels, already cut.
#[derive(Debug)]
pub enum Tally {
    /// A request that was no websocket got an answer from upstream.
    NonWebsocket(String),
    /// The client sent a websocket message.
    WebsocketMessage(String),
    /// A websocket was opened.
    WebsocketSession(String),
    /// Upstream could not handle a request that was no websocket.
    NonWebsocketFail,
    /// A websocket could not be opened.
    WebsocketFail,
}

/// An event to count, as contracts see it.
#[verifier::ext_equal]
pub enum TallyView {
    NonWebsocket(Seq<char>),
    WebsocketMessage(Seq<char>),
    WebsocketSession(Seq<char>),
    NonWebsocketFail,
    WebsocketFail,
}

impl View for Tally {
    type V = TallyView;

    open spec fn view(&self) -> TallyView {
        match self {
            Tally::NonWebsocket(path) => TallyView::NonWebsocket(path@),
            Tally::WebsocketMessage(path) => TallyView::WebsocketMessage(path@),
            Tally::WebsocketSession(path) => TallyView::WebsocketSession(path@),
            Tally::NonWebsocketFail => TallyView::NonWebsocketFail,
            Tally::WebsocketFail => TallyView::WebsocketFail,
        }
    }
}

/// The registry refused a counter, for instance because it knows one of that name.
#[derive(Debug)]
pub struct MetricsError {
    /// The counter's name, without its namespace.
    pub name: String,
}

/// The counters of the proxy.
pub struct Metrics {
    non_websocket: LabelledCounter,
    websocket_messages: LabelledCounter,
    websocket_sessions: LabelledCounter,
    non_websocket_fail: PlainCounter,
    websocket_fail: PlainCounter,
}

/// What the counters hold.
#[verifier::ext_equal]
pub struct Counts {
    pub non_websocket: Map<u64, (Seq<char>, nat)>,
    pub websocket_messages: Map<u64, (Seq<char>, nat)>,
    pub websocket_sessions: Map<u64, (Seq<char>, nat)>,
    pub non_websocket_fail: nat,
    pub websocket_fail: nat,
}

/// What the counters are exported as: of each the list of its name, of its help, of its labels
/// and of its constant labels.
#[verifier::ext_equal]
pub struct Texts {
    pub non_websocket: Seq<Seq<Seq<char>>>,
    pub websocket_messages: Seq<Seq<Seq<char>>>,
    pub websocket_sessions: Seq<Seq<Seq<char>>>,
    pub non_websocket_fail: Seq<Seq<Seq<char>>>,
    pub websocket_fail: Seq<Seq<Seq<char>>>,
}

impl Counts {
    /// The counts before the first event.
    pub open spec fn none() -> Counts {
        Counts {
            non_websocket: Map::empty(),
            websocket_messages: Map::empty(),
            websocket_sessions: Map::empty(),
            non_websocket_fail: 0,
            websocket_fail: 0,
        }
    }

    /// The counts after one more event.
    pub open spec fn recorded(self, tally: TallyView) -> Counts {
        match tally {
            TallyView::NonWebsocket(path) => Counts {
                non_websocket: sample_added(self.non_websocket, slot(path), path),
                ..self
            },
            TallyView::WebsocketMessage(path) => Counts {
                websocket_messages: sample_added(self.websocket_messages, slot(path), path),
                ..self
            },
            TallyView::WebsocketSession(path) => Counts {
                websocket_sessions: sample_added(self.websocket_sessions, slot(path), path),
                ..self
            },
            TallyView::NonWebsocketFail => Counts {
                non_websocket_fail: one_more(self.non_websocket_fail),
                ..self
            },
            TallyView::WebsocketFail => Counts {
                websocket_fail: one_more(self.websocket_fail),
                ..self
            },
        }
    }
}

/// The names, helps and labels that the proxy's counters are exported under.
pub open spec fn proxy_texts() -> Texts {
    Texts {
        non_websocket: described(
            full_name("rs_intercept"@, "non_websocket_total"@),
            "Total HTTP requests forwarded that were not websocket"@,
            seq!["path"@],
        ),
        websocket_messages: described(
            full_name("rs_intercept"@, "websocket_messages_total"@),
            "Total WebSocket messages"@,
            seq!["path"@],
        ),
        websocket_sessions: described(
            full_name("rs_intercept"@, "websocket_sessions_total"@),
            "Total WebSocket sessions"@,
            seq!["path"@],
        ),
        non_websocket_fail: described(
            full_name("rs_intercept"@, "non_websocket_fail"@),
            "total non websocket requests that upstream could not handle"@,
            Seq::empty(),
        ),
        websocket_fail: described(
            full_name("rs_intercept"@, "websocket_fail"@),
            "total websocket requests that could not be upgraded"@,
            Seq::empty(),
        ),
    }
}

/// The names of a counter's labels.
pub open spec fn labels(text: Seq<Seq<Seq<char>>>) -> Seq<Seq<char>> {
    text[2]
}

/// The constant labels of a counter.
pub open spec fn constant_labels(text: Seq<Seq<Seq<char>>>) -> Seq<Seq<char>> {
    text[3]
}

/// The counters that carry a path have that label and no other, the failures have none, and no
/// counter has a constant label.
pub proof fn lemma_proxy_labels()
    ensures
        labels(proxy_texts().non_websocket) == seq!["path"@],
        labels(proxy_texts().websocket_messages) == seq!["path"@],
        labels(proxy_texts().websocket_sessions) == seq!["path"@],
        labels(proxy_texts().non_websocket_fail) == Seq::<Seq<char>>::empty(),
        labels(proxy_texts().websocket_fail) == Seq::<Seq<char>>::empty(),
        constant_labels(proxy_texts().non_websocket) == Seq::<Seq<char>>::empty(),
        constant_labels(proxy_texts().websocket_messages) == Seq::<Seq<char>>::empty(),
        constant_labels(proxy_texts().websocket_sessions) == Seq::<Seq<char>>::empty(),
        constant_labels(proxy_texts().non_websocket_fail) == Seq::<Seq<char>>::empty(),
        constant_labels(proxy_texts().websocket_fail) == Seq::<Seq<char>>::empty(),
{
}

impl View for Metrics {
    type V = Counts;

    closed spec fn view(&self) -> Counts {
        Counts {
            non_websocket: samples(self.non_websocket),
            websocket_messages: samples(self.websocket_messages),
            websocket_sessions: samples(self.websocket_sessions),
            non_websocket_fail: number(self.non_websocket_fail)[0],
            websocket_fail: number(self.websocket_fail)[0],
        }
    }
}

/// A counter with a path, handed to the registry only where `asked` says so.
fn labelled(asked: bool, name: &str, help: &str) -> (result: Result<LabelledCounter, MetricsError>)
    requires
        name@.len() > 0,
    ensures
        !asked ==> result is Err,
        result matches Ok(counter) ==> {
            &&& samples(counter) == Map::<u64, (Seq<char>, nat)>::empty()
            &&& labelled_text(counter) == described(
                full_name("rs_intercept"@, name@),
                help@,
                seq!["path"@],
            )
        },
        result matches Err(error) ==> error.name@ == name@,
{
    proof {
        reveal_strlit("rs_intercept");
    }
    if !asked {
        return Err(MetricsError { name: name.to_owned() });
    }
    match register_labelled("rs_intercept", name, help, "path") {
        Ok(counter) => Ok(counter),
        Err(_) => Err(MetricsError { name: name.to_owned() }),
    }
}

/// A counter without a path, handed to the registry only where `asked` says so.
fn plain(asked: bool, name: &str, help: &str) -> (result: Result<PlainCounter, MetricsError>)
    requires
        name@.len() > 0,
    ensures
        !asked ==> result is Err,
        result matches Ok(counter) ==> {
            &&& number(counter) == seq![0nat]
            &&& plain_text(counter) == described(
                full_name("rs_intercept"@, name@),
                help@,
                Seq::empty(),
            )
        },
        result matches Err(error) ==> error.name@ == name@,
{
    proof {
        reveal_strlit("rs_intercept");
    }
    if !asked {
        return Err(MetricsError { name: name.to_owned() });
    }
    match register_plain("rs_intercept", name, help) {
        Ok(counter) => Ok(counter),
        Err(_) => Err(MetricsError { name: name.to_owned() }),
    }
}

impl Metrics {
    /// What the counters are exported as.
    pub closed spec fn texts(&self) -> Texts {
        Texts {
            non_websocket: labelled_text(self.non_websocket),
            websocket_messages: labelled_text(self.websocket_messages),
            websocket_sessions: labelled_text(self.websocket_sessions),
            non_websocket_fail: plain_text(self.non_websocket_fail),
            websocket_fail: plain_text(self.websocket_fail),
        }
    }

    /// The counters together, from what came of each of them: all of them where all could be had,
    /// and otherwise the error of the first that could not, in the order of the parameters.
    pub fn assembled(
        non_websocket: Result<LabelledCounter, MetricsError>,
        websocket_messages: Result<LabelledCounter, MetricsError>,
        websocket_sessions: Result<LabelledCounter, MetricsError>,
        websocket_fail: Result<PlainCounter, MetricsError>,
        non_websocket_fail: Result<PlainCounter, MetricsError>,
    ) -> (result: Result<Metrics, MetricsError>)
        ensures
            result is Ok <==> {
                &&& non_websocket is Ok
                &&& websocket_messages is Ok
                &&& websocket_sessions is Ok
                &&& websocket_fail is Ok
                &&& non_websocket_fail is Ok
            },
            result matches Ok(metrics) ==> metrics@ == (Counts {
                non_websocket: samples(non_websocket->Ok_0),
                websocket_messages: samples(websocket_messages->Ok_0),
                websocket_sessions: samples(websocket_sessions->Ok_0),
                non_websocket_fail: number(non_websocket_fail->Ok_0)[0],
                websocket_fail: number(websocket_fail->Ok_0)[0],
            }),
            result matches Ok(metrics) ==> metrics.texts() == (Texts {
                non_websocket: labelled_text(non_websocket->Ok_0),
                websocket_messages: labelled_text(websocket_messages->Ok_0),
                websocket_sessions: labelled_text(websocket_sessions->Ok_0),
                non_websocket_fail: plain_text(non_websocket_fail->Ok_0),
                websocket_fail: plain_text(websocket_fail->Ok_0),
            }),
            result matches Err(error) ==> error == if non_websocket is Err {
                non_websocket->Err_0
            } else if websocket_messages is Err {
                websocket_messages->Err_0
            } else if websocket_sessions is Err {
                websocket_sessions->Err_0
            } else if websocket_fail is Err {
                websocket_fail->Err_0
            } else {
                non_websocket_fail->Err_0
            },
    {
        Ok(
            Metrics {
                non_websocket: non_websocket?,
                websocket_messages: websocket_messages?,
                websocket_sessions: websocket_sessions?,
                websocket_fail: websocket_fail?,
                non_websocket_fail: non_websocket_fail?,
            },
        )
    }

    /// The proxy's counters, none of which has counted anything. The registry decides whether
    /// they can be had: it refuses a name that it knows. After a refusal it is asked for no more.
    pub fn new() -> (result: Result<Metrics, MetricsError>)
        ensures
            result matches Ok(metrics) ==> metrics@ == Counts::none() && metrics.texts()
                == proxy_texts(),
            result matches Err(error) ==> {
                ||| error.name@ == "non_websocket_total"@
                ||| error.name@ == "websocket_messages_total"@
                ||| error.name@ == "websocket_sessions_total"@
                ||| error.name@ == "websocket_fail"@
                ||| error.name@ == "non_websocket_fail"@
            },
    {
        proof {
            reveal_strlit("non_websocket_total");
            reveal_strlit("websocket_messages_total");
            reveal_strlit("websocket_sessions_total");
            reveal_strlit("websocket_fail");
            reveal_strlit("non_websocket_fail");
        }
        let non_websocket = labelled(
            true,
            "non_websocket_total",
            "Total HTTP requests forwarded that were not websocket",
        );
        let websocket_messages = labelled(
            non_websocket.is_ok(),
            "websocket_messages_total",
            "Total WebSocket messages",
        );
        let websocket_sessions = labelled(
            websocket_messages.is_ok(),
            "websocket_sessions_total",
            "Total WebSocket sessions",
        );
        let websocket_fail = plain(
            websocket_sessions.is_ok(),
            "websocket_fail",
            "total websocket requests that could not be upgraded",
        );
        let non_websocket_fail = plain(
            websocket_fail.is_ok(),
            "non_websocket_fail",
            "total non websocket requests that upstream could not handle",
        );
        Self::assembled(
            non_websocket,
            websocket_messages,
            websocket_sessions,
            websocket_fail,
            non_websocket_fail,
        )
    }

    /// Counts an event.
    pub fn record(&mut self, tally: &Tally)
        ensures
            final(self)@ == old(self)@.recorded(tally@),
            final(self).texts() == old(self).texts(),
    {
        match tally {
            Tally::NonWebsocket(path) => add_labelled(&mut self.non_websocket, path.as_str()),
            Tally::WebsocketMessage(path) => add_labelled(
                &mut self.websocket_messages,
                path.as_str(),
            ),
            Tally::WebsocketSession(path) => add_labelled(
                &mut self.websocket_sessions,
                path.as_str(),
            ),
            Tally::NonWebsocketFail => add_plain(&mut self.non_websocket_fail),
            Tally::WebsocketFail => add_plain(&mut self.websocket_fail),
        }
    }
}

/// The number that is exported under a path.
pub open spec fn exported(held: Map<u64, (Seq<char>, nat)>, path: Seq<char>) -> nat {
    if held.dom().contains(slot(path)) && held[slot(path)].0 == path {
        held[slot(path)].1
    } else {
        0
    }
}

/// Holds where no path but this one holds its slot.
pub open spec fn undisputed(held: Map<u64, (Seq<char>, nat)>, path: Seq<char>) -> bool {
    held.dom().contains(slot(path)) ==> held[slot(path)].0 == path
}

/// An event under a path whose slot no other path holds adds one to what is exported under that
/// path, as long as the number is below the bound of the counter, and leaves what is exported
/// under every other path.
pub proof fn lemma_one_event(held: Map<u64, (Seq<char>, nat)>, path: Seq<char>)
    requires
        undisputed(held, path),
    ensures
        exported(sample_added(held, slot(path), path), path) == one_more(exported(held, path)),
        forall|other: Seq<char>|
            other != path ==> #[trigger] exported(sample_added(held, slot(path), path), other)
                == exported(held, other),
        undisputed(sample_added(held, slot(path), path), path),
{
}

/// How often an event occurs in a list of events.
pub open spec fn occurrences(tallies: Seq<TallyView>, tally: TallyView) -> nat
    decreases tallies.len(),
{
    if tallies.len() == 0 {
        0
    } else {
        occurrences(tallies.drop_last(), tally) + if tallies.last() == tally {
            1nat
        } else {
            0nat
        }
    }
}

/// The counts after a list of events.
pub open spec fn replay(tallies: Seq<TallyView>) -> Counts
    decreases tallies.len(),
{
    if tallies.len() == 0 {
        Counts::none()
    } else {
        replay(tallies.drop_last()).recorded(tallies.last())
    }
}

/// The number that a counter shows for a number of events.
pub open spec fn shown(count: nat) -> nat {
    if count < 0x20_0000_0000_0000 {
        count
    } else {
        0x20_0000_0000_0000
    }
}

/// The counters that carry a path.
pub enum PathCounter {
    NonWebsocket,
    WebsocketMessages,
    WebsocketSessions,
}

impl PathCounter {
    /// The event that the counter counts under a path.
    pub open spec fn event(self, path: Seq<char>) -> TallyView {
        match self {
            PathCounter::NonWebsocket => TallyView::NonWebsocket(path),
            PathCounter::WebsocketMessages => TallyView::WebsocketMessage(path),
            PathCounter::WebsocketSessions => TallyView::WebsocketSession(path),
        }
    }

    /// The path under which the counter counts an event, where it counts it at all.
    pub open spec fn path(self, tally: TallyView) -> Option<Seq<char>> {
        match (self, tally) {
            (PathCounter::NonWebsocket, TallyView::NonWebsocket(path)) => Some(path),
            (PathCounter::WebsocketMessages, TallyView::WebsocketMessage(path)) => Some(path),
            (PathCounter::WebsocketSessions, TallyView::WebsocketSession(path)) => Some(path),
            _ => None,
        }
    }

    /// What the counter holds.
    pub open spec fn held(self, counts: Counts) -> Map<u64, (Seq<char>, nat)> {
        match self {
            PathCounter::NonWebsocket => counts.non_websocket,
            PathCounter::WebsocketMessages => counts.websocket_messages,
            PathCounter::WebsocketSessions => counts.websocket_sessions,
        }
    }

    /// Holds where the counter counts the event in the slot.
    pub open spec fn counts_in(self, tally: TallyView, at: u64) -> bool {
        self.path(tally) matches Some(path) && slot(path) == at
    }
}

/// How many of a list of events a counter counts in a slot.
pub open spec fn slot_events(tallies: Seq<TallyView>, counter: PathCounter, at: u64) -> nat
    decreases tallies.len(),
{
    if tallies.len() == 0 {
        0
    } else {
        slot_events(tallies.drop_last(), counter, at) + if counter.counts_in(tallies.last(), at) {
            1nat
        } else {
            0nat
        }
    }
}

/// The path of the first of a list of events that a counter counts in a slot.
pub open spec fn opener(tallies: Seq<TallyView>, counter: PathCounter, at: u64) -> Option<Seq<char>>
    decreases tallies.len(),
{
    if tallies.len() == 0 {
        None
    } else {
        let earlier = opener(tallies.drop_last(), counter, at);
        if earlier is None && counter.counts_in(tallies.last(), at) {
            counter.path(tallies.last())
        } else {
            earlier
        }
    }
}

/// After any list of events a counter has those slots open that its events fall in, each under
/// the path of the first of them and with the number of them all.
pub proof fn lemma_slots_hold_events(tallies: Seq<TallyView>, counter: PathCounter, at: u64)
    ensures
        counter.held(replay(tallies)).dom().contains(at) <==> slot_events(tallies, counter, at) > 0,
        opener(tallies, counter, at) is Some <==> slot_events(tallies, counter, at) > 0,
        opener(tallies, counter, at) matches Some(path) ==> {
            &&& counter.held(replay(tallies))[at] == (
                path,
                shown(slot_events(tallies, counter, at)),
            )
            &&& slot(path) == at
            &&& occurrences(tallies, counter.event(path)) > 0
        },
    decreases tallies.len(),
{
    if tallies.len() > 0 {
        lemma_slots_hold_events(tallies.drop_last(), counter, at);
    }
}

/// Holds where no path but this one has its slot among the events that a counter counts.
pub open spec fn alone(tallies: Seq<TallyView>, counter: PathCounter, path: Seq<char>) -> bool {
    forall|i: int|
        0 <= i < tallies.len() && counter.counts_in(#[trigger] tallies[i], slot(path))
            ==> tallies[i] == counter.event(path)
}

/// A slot counts at least the events under a path of that slot, and no more where the path is
/// alone.
proof fn lemma_alone(tallies: Seq<TallyView>, counter: PathCounter, path: Seq<char>)
    ensures
        occurrences(tallies, counter.event(path)) <= slot_events(tallies, counter, slot(path)),
        alone(tallies, counter, path) <==> occurrences(tallies, counter.event(path))
            == slot_events(tallies, counter, slot(path)),
    decreases tallies.len(),
{
    if tallies.len() > 0 {
        let rest = tallies.drop_last();
        lemma_alone(rest, counter, path);
        assert(tallies == rest.push(tallies.last()));
        if alone(rest, counter, path) && (counter.counts_in(tallies.last(), slot(path))
            ==> tallies.last() == counter.event(path)) {
            assert forall|i: int|
                0 <= i < tallies.len() && counter.counts_in(
                    #[trigger] tallies[i],
                    slot(path),
                ) implies tallies[i] == counter.event(path) by {
                if i < rest.len() {
                    assert(rest[i] == tallies[i]);
                }
            }
        }
        if alone(tallies, counter, path) {
            assert forall|i: int|
                0 <= i < rest.len() && counter.counts_in(
                    #[trigger] rest[i],
                    slot(path),
                ) implies rest[i] == counter.event(path) by {
                assert(rest[i] == tallies[i]);
            }
            assert(tallies.last() == tallies[tallies.len() - 1]);
        }
    }
}

/// A counter shows under a path how often its event occurred under that path, whatever else
/// occurred and in whatever order, where no other path that it counts has the slot of that path.
/// Of the other lists of events this holds of those without an event under the path, and of those
/// where the path came first and reached the bound of the counter, and of no more: a path that
/// came first is shown with all events of its slot, and one that did not with none.
pub proof fn lemma_counts_are_occurrences(
    tallies: Seq<TallyView>,
    counter: PathCounter,
    path: Seq<char>,
)
    ensures
        alone(tallies, counter, path) ==> exported(counter.held(replay(tallies)), path) == shown(
            occurrences(tallies, counter.event(path)),
        ),
        exported(counter.held(replay(tallies)), path) == shown(
            occurrences(tallies, counter.event(path)),
        ) <==> {
            ||| alone(tallies, counter, path)
            ||| occurrences(tallies, counter.event(path)) == 0
            ||| opener(tallies, counter, slot(path)) == Some(path) && occurrences(
                tallies,
                counter.event(path),
            ) >= 0x20_0000_0000_0000
        },
        exported(counter.held(replay(tallies)), path) == if opener(tallies, counter, slot(path))
            == Some(path) {
            shown(slot_events(tallies, counter, slot(path)))
        } else {
            0
        },
{
    lemma_slots_hold_events(tallies, counter, slot(path));
    lemma_alone(tallies, counter, path);
    if alone(tallies, counter, path) && slot_events(tallies, counter, slot(path)) > 0 {
        let first = opener(tallies, counter, slot(path))->0;
        let i = lemma_occurs(tallies, counter.event(first));
        assert(counter.counts_in(tallies[i], slot(path)));
    }
}

/// An event that occurs does so at some place.
proof fn lemma_occurs(tallies: Seq<TallyView>, tally: TallyView) -> (at: int)
    requires
        occurrences(tallies, tally) > 0,
    ensures
        0 <= at < tallies.len(),
        tallies[at] == tally,
    decreases tallies.len(),
{
    if tallies.last() == tally {
        tallies.len() - 1
    } else {
        lemma_occurs(tallies.drop_last(), tally)
    }
}

/// The counters without paths show how often their events occurred, whatever else occurred and in
/// whatever order.
pub proof fn lemma_failures_are_occurrences(tallies: Seq<TallyView>)
    ensures
        replay(tallies).non_websocket_fail == shown(
            occurrences(tallies, TallyView::NonWebsocketFail),
        ),
        replay(tallies).websocket_fail == shown(occurrences(tallies, TallyView::WebsocketFail)),
    decreases tallies.len(),
{
    if tallies.len() > 0 {
        lemma_failures_are_occurrences(tallies.drop_last());
    }
}

/// An answered request adds one to its counter in the slot of its own path, or opens the slot at one
/// and under that path. Every other slot, and every other counter, stays as it was.
pub proof fn lemma_answer_is_counted_by_path(before: Counts, path: Seq<char>, other: u64)
    ensures
        ({
            let after = before.recorded(TallyView::NonWebsocket(path));
            let at = slot(path);
            let was = before.non_websocket;
            let held = after.non_websocket;
            &&& held.dom() == was.dom().insert(at)
            &&& !was.dom().contains(at) ==> held[at] == (path, 1nat)
            &&& was.dom().contains(at) ==> held[at].0 == was[at].0
            &&& was.dom().contains(at) && was[at].1 < 0x20_0000_0000_0000 ==> held[at].1
                == was[at].1 + 1
            &&& was.dom().contains(at) && was[at].1 >= 0x20_0000_0000_0000 ==> held[at].1
                == was[at].1
            &&& other != at ==> held[other] == was[other]
            &&& after.websocket_messages == before.websocket_messages
            &&& after.websocket_sessions == before.websocket_sessions
            &&& after.non_websocket_fail == before.non_websocket_fail
            &&& after.websocket_fail == before.websocket_fail
        }),
{
}

/// A message adds one to its counter in the slot of its own path, or opens the slot at one
/// and under that path. Every other slot, and every other counter, stays as it was.
pub proof fn lemma_message_is_counted_by_path(before: Counts, path: Seq<char>, other: u64)
    ensures
        ({
            let after = before.recorded(TallyView::WebsocketMessage(path));
            let at = slot(path);
            let was = before.websocket_messages;
            let held = after.websocket_messages;
            &&& held.dom() == was.dom().insert(at)
            &&& !was.dom().contains(at) ==> held[at] == (path, 1nat)
            &&& was.dom().contains(at) ==> held[at].0 == was[at].0
            &&& was.dom().contains(at) && was[at].1 < 0x20_0000_0000_0000 ==> held[at].1
                == was[at].1 + 1
            &&& was.dom().contains(at) && was[at].1 >= 0x20_0000_0000_0000 ==> held[at].1
                == was[at].1
            &&& other != at ==> held[other] == was[other]
            &&& after.non_websocket == before.non_websocket
            &&& after.websocket_sessions == before.websocket_sessions
            &&& after.non_websocket_fail == before.non_websocket_fail
            &&& after.websocket_fail == before.websocket_fail
        }),
{
}

/// A session adds one to its counter in the slot of its own path, or opens the slot at one
/// and under that path. Every other slot, and every other counter, stays as it was.
pub proof fn lemma_session_is_counted_by_path(before: Counts, path: Seq<char>, other: u64)
    ensures
        ({
            let after = before.recorded(TallyView::WebsocketSession(path));
            let at = slot(path);
            let was = before.websocket_sessions;
            let held = after.websocket_sessions;
            &&& held.dom() == was.dom().insert(at)
            &&& !was.dom().contains(at) ==> held[at] == (path, 1nat)
            &&& was.dom().contains(at) ==> held[at].0 == was[at].0
            &&& was.dom().contains(at) && was[at].1 < 0x20_0000_0000_0000 ==> held[at].1
                == was[at].1 + 1
            &&& was.dom().contains(at) && was[at].1 >= 0x20_0000_0000_0000 ==> held[at].1
                == was[at].1
            &&& other != at ==> held[other] == was[other]
            &&& after.non_websocket == before.non_websocket
            &&& after.websocket_messages == before.websocket_messages
            &&& after.non_websocket_fail == before.non_websocket_fail
            &&& after.websocket_fail == before.websocket_fail
        }),
{
}

/// A failure adds one to the counter of its kind, and every other counter stays as it was.
pub proof fn lemma_failure_is_counted(before: Counts)
    ensures
        ({
            let after = before.recorded(TallyView::NonWebsocketFail);
            &&& before.non_websocket_fail < 0x20_0000_0000_0000 ==> after.non_websocket_fail
                == before.non_websocket_fail + 1
            &&& after.websocket_fail == before.websocket_fail
            &&& after.non_websocket == before.non_websocket
            &&& after.websocket_messages == before.websocket_messages
            &&& after.websocket_sessions == before.websocket_sessions
        }),
        ({
            let after = before.recorded(TallyView::WebsocketFail);
            &&& before.websocket_fail < 0x20_0000_0000_0000 ==> after.websocket_fail
                == before.websocket_fail + 1
            &&& after.non_websocket_fail == before.non_websocket_fail
            &&& after.non_websocket == before.non_websocket
            &&& after.websocket_messages == before.websocket_messages
            &&& after.websocket_sessions == before.websocket_sessions
        }),
{
}

/// What is counted is the event that was handed over, under the path that it names.
pub proof fn lemma_events_are_taken_as_they_are(tally: Tally)
    ensures
        tally matches Tally::NonWebsocket(path) ==> tally@ == TallyView::NonWebsocket(path@),
        tally matches Tally::WebsocketMessage(path) ==> tally@ == TallyView::WebsocketMessage(
            path@,
        ),
        tally matches Tally::WebsocketSession(path) ==> tally@ == TallyView::WebsocketSession(
            path@,
        ),
        tally is NonWebsocketFail ==> tally@ is NonWebsocketFail,
        tally is WebsocketFail ==> tally@ is WebsocketFail,
{
}

} // verus!
