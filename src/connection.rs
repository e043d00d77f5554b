use vstd::prelude::*;
use crate::dispatch::{dispatch, dispatch_view, DispatchOutcome, Message, MessageView, OutcomeView};
use crate::reversal::reversed;

verus! {

/// The lifecycle of one connection.
#[derive(PartialEq, Eq, Structural, Clone, Copy, Debug)]
pub enum ConnState {
    /// Accepted; the protocol upgrade has not completed yet.
    Handshaking,
    /// Upgraded; waiting for the next inbound message.
    Open,
    /// A reply was handed out and its delivery is awaited.
    Sending,
    /// Finished. No event leads out of this state.
    Closed,
}

/// What the transport reports to a connection.
pub enum Event {
    /// The protocol upgrade completed.
    HandshakeSucceeded,
    /// The protocol upgrade failed.
    HandshakeFailed,
    /// One inbound message arrived.
    Received(Message),
    /// A malformed frame or a transport fault while reading.
    ReceiveFailed,
    /// The peer went away without a close frame.
    EndOfStream,
    /// The last reply was delivered.
    SendSucceeded,
    /// The last reply could not be delivered.
    SendFailed,
}

/// What an `Event` holds, as mathematical values.
pub enum EventView {
    HandshakeSucceeded,
    HandshakeFailed,
    Received(MessageView),
    ReceiveFailed,
    EndOfStream,
    SendSucceeded,
    SendFailed,
}

impl View for Event {
    type V = EventView;

    open spec fn view(&self) -> EventView {
        match self {
            Event::HandshakeSucceeded => EventView::HandshakeSucceeded,
            Event::HandshakeFailed => EventView::HandshakeFailed,
            Event::Received(m) => EventView::Received(m@),
            Event::ReceiveFailed => EventView::ReceiveFailed,
            Event::EndOfStream => EventView::EndOfStream,
            Event::SendSucceeded => EventView::SendSucceeded,
            Event::SendFailed => EventView::SendFailed,
        }
    }
}

/// What the transport is asked to do next.
pub enum Action {
    /// Send this text as one outbound text message, then report the result.
    Send(String),
    /// Wait for the next inbound message and report it.
    Receive,
    /// Release the connection; nothing more is sent or read.
    Stop,
}

/// What an `Action` holds, as mathematical values.
pub enum ActionView {
    Send(Seq<char>),
    Receive,
    Stop,
}

impl View for Action {
    type V = ActionView;

    open spec fn view(&self) -> ActionView {
        match self {
            Action::Send(t) => ActionView::Send(t@),
            Action::Receive => ActionView::Receive,
            Action::Stop => ActionView::Stop,
        }
    }
}

/// The next state of a connection and the action it asks for, given one
/// event. A successful handshake opens the connection; an inbound message is
/// dispatched; a delivered reply returns to waiting. Every other event (a
/// failed handshake, a read error, the end of the stream, a failed send, or
/// an event that the state does not expect) ends the connection, and a
/// closed connection stays closed.
pub open spec fn step(s: ConnState, e: EventView) -> (ConnState, ActionView) {
    match (s, e) {
        (ConnState::Handshaking, EventView::HandshakeSucceeded) => (ConnState::Open, ActionView::Receive),
        (ConnState::Open, EventView::Received(m)) => match dispatch_view(m) {
            OutcomeView::Reply(t) => (ConnState::Sending, ActionView::Send(t)),
            OutcomeView::Ignore => (ConnState::Open, ActionView::Receive),
            OutcomeView::Terminate => (ConnState::Closed, ActionView::Stop),
        },
        (ConnState::Sending, EventView::SendSucceeded) => (ConnState::Open, ActionView::Receive),
        _ => (ConnState::Closed, ActionView::Stop),
    }
}

/// The state reached from `s` after the events `evs`, in order.
pub open spec fn run(s: ConnState, evs: Seq<EventView>) -> ConnState
    decreases evs.len(),
{
    if evs.len() == 0 {
        s
    } else {
        step(run(s, evs.drop_last()), evs.last()).0
    }
}

/// The actions asked for from `s` along the events `evs`, one per event.
pub open spec fn actions(s: ConnState, evs: Seq<EventView>) -> Seq<ActionView>
    decreases evs.len(),
{
    if evs.len() == 0 {
        Seq::empty()
    } else {
        actions(s, evs.drop_last()).push(step(run(s, evs.drop_last()), evs.last()).1)
    }
}

/// One accepted connection, owned by the task that serves it.
pub struct Connection {
    state: ConnState,
}

impl View for Connection {
    type V = ConnState;

    closed spec fn view(&self) -> ConnState {
        self.state
    }
}

impl Connection {
    /// A freshly accepted connection, before the protocol upgrade.
    pub fn new() -> (c: Connection)
        ensures
            c@ == ConnState::Handshaking,
    {
        Connection { state: ConnState::Handshaking }
    }

    /// The current lifecycle state.
    pub fn state(&self) -> (s: ConnState)
        ensures
            s == self@,
    {
        self.state
    }

    /// Whether the connection has ended.
    pub fn is_closed(&self) -> (b: bool)
        ensures
            b == (self@ == ConnState::Closed),
    {
        self.state == ConnState::Closed
    }

    /// Takes one event into account and says what the transport does next.
    pub fn handle(&mut self, event: Event) -> (a: Action)
        ensures
            (final(self)@, a@) == step(old(self)@, event@),
    {
        let (next, action) = match (self.state, event) {
            (ConnState::Handshaking, Event::HandshakeSucceeded) => (ConnState::Open, Action::Receive),
            (ConnState::Open, Event::Received(m)) => match dispatch(m) {
                DispatchOutcome::Reply(t) => (ConnState::Sending, Action::Send(t)),
                DispatchOutcome::Ignore => (ConnState::Open, Action::Receive),
                DispatchOutcome::Terminate => (ConnState::Closed, Action::Stop),
            },
            (ConnState::Sending, Event::SendSucceeded) => (ConnState::Open, Action::Receive),
            _ => (ConnState::Closed, Action::Stop),
        };
        self.state = next;
        action
    }
}

/// Running two batches of events one after the other is running their
/// concatenation.
pub proof fn lemma_run_append(s: ConnState, a: Seq<EventView>, b: Seq<EventView>)
    ensures
        run(s, a + b) == run(run(s, a), b),
        actions(s, a + b) == actions(s, a) + actions(run(s, a), b),
    decreases b.len(),
{
    if b.len() == 0 {
        assert(a + b =~= a);
        assert(actions(s, a) + actions(run(s, a), b) =~= actions(s, a));
    } else {
        assert((a + b).drop_last() =~= a + b.drop_last());
        assert((a + b).last() == b.last());
        lemma_run_append(s, a, b.drop_last());
        assert(actions(s, a + b) =~= actions(s, a) + actions(run(s, a), b));
    }
}

/// There is one action per event.
pub proof fn lemma_actions_len(s: ConnState, evs: Seq<EventView>)
    ensures
        actions(s, evs).len() == evs.len(),
    decreases evs.len(),
{
    if evs.len() > 0 {
        lemma_actions_len(s, evs.drop_last());
    }
}

/// One event alone: its step, and the one action it asks for.
pub proof fn lemma_single_event(s: ConnState, e: EventView)
    ensures
        run(s, seq![e]) == step(s, e).0,
        actions(s, seq![e]) == seq![step(s, e).1],
{
    let none = Seq::<EventView>::empty();
    assert(seq![e].drop_last() =~= none);
    assert(run(s, none) == s);
    assert(actions(s, none) == Seq::<ActionView>::empty());
    assert(actions(s, seq![e]) =~= seq![step(s, e).1]);
}

/// A closed connection stays closed and asks for nothing but to stop,
/// whatever is reported to it afterwards.
pub proof fn lemma_closed_is_absorbing(evs: Seq<EventView>)
    ensures
        run(ConnState::Closed, evs) == ConnState::Closed,
        actions(ConnState::Closed, evs).len() == evs.len(),
        forall|i: int|
            0 <= i < evs.len() ==> #[trigger] actions(ConnState::Closed, evs)[i] == ActionView::Stop,
    decreases evs.len(),
{
    lemma_actions_len(ConnState::Closed, evs);
    if evs.len() > 0 {
        lemma_closed_is_absorbing(evs.drop_last());
    }
}

/// A text received on an open connection is answered by exactly one
/// outbound text, its reversal, after which the connection waits again.
pub proof fn lemma_text_gets_one_reply(t: Seq<char>)
    ensures
        actions(
            ConnState::Open,
            seq![EventView::Received(MessageView::Text(t)), EventView::SendSucceeded],
        ) == seq![ActionView::Send(reversed(t)), ActionView::Receive],
        run(
            ConnState::Open,
            seq![EventView::Received(MessageView::Text(t)), EventView::SendSucceeded],
        ) == ConnState::Open,
{
    let a = seq![EventView::Received(MessageView::Text(t))];
    let b = seq![EventView::SendSucceeded];
    lemma_single_event(ConnState::Open, a[0]);
    lemma_single_event(ConnState::Sending, b[0]);
    lemma_run_append(ConnState::Open, a, b);
    assert(a + b =~= seq![EventView::Received(MessageView::Text(t)), EventView::SendSucceeded]);
    assert(seq![ActionView::Send(reversed(t))] + seq![ActionView::Receive] =~= seq![
        ActionView::Send(reversed(t)),
        ActionView::Receive,
    ]);
}

/// From `s`, one event that stops the connection, then anything: every
/// action is a stop and the connection ends closed.
proof fn lemma_stop_then_anything(s: ConnState, e: EventView, rest: Seq<EventView>)
    requires
        step(s, e) == (ConnState::Closed, ActionView::Stop),
    ensures
        run(s, seq![e] + rest) == ConnState::Closed,
        actions(s, seq![e] + rest).len() == rest.len() + 1,
        forall|i: int|
            0 <= i <= rest.len() ==> #[trigger] actions(s, seq![e] + rest)[i] == ActionView::Stop,
{
    lemma_single_event(s, e);
    lemma_run_append(s, seq![e], rest);
    lemma_closed_is_absorbing(rest);
    lemma_actions_len(s, seq![e] + rest);
    assert forall|i: int| 0 <= i <= rest.len() implies #[trigger] actions(s, seq![e] + rest)[i]
        == ActionView::Stop by {
        if i > 0 {
            assert(actions(s, seq![e] + rest)[i] == actions(ConnState::Closed, rest)[i - 1]);
        }
    }
}

/// A close frame on an open connection sends nothing, and every later event
/// is refused: the connection stays closed and only asks to stop.
pub proof fn lemma_close_ends_connection(rest: Seq<EventView>)
    ensures
        ({
            let evs = seq![EventView::Received(MessageView::Close)] + rest;
            &&& run(ConnState::Open, evs) == ConnState::Closed
            &&& actions(ConnState::Open, evs).len() == evs.len()
            &&& forall|i: int|
                0 <= i < evs.len() ==> #[trigger] actions(ConnState::Open, evs)[i] == ActionView::Stop
        }),
{
    lemma_stop_then_anything(ConnState::Open, EventView::Received(MessageView::Close), rest);
}

/// A binary message on an open connection sends nothing and leaves the
/// connection able to answer a following text.
pub proof fn lemma_binary_keeps_connection_usable(b: Seq<u8>, t: Seq<char>)
    ensures
        ({
            let evs = seq![
                EventView::Received(MessageView::Binary(b)),
                EventView::Received(MessageView::Text(t)),
                EventView::SendSucceeded,
            ];
            &&& actions(ConnState::Open, evs) == seq![
                ActionView::Receive,
                ActionView::Send(reversed(t)),
                ActionView::Receive,
            ]
            &&& run(ConnState::Open, evs) == ConnState::Open
        }),
{
    let first = seq![EventView::Received(MessageView::Binary(b))];
    let second = seq![EventView::Received(MessageView::Text(t)), EventView::SendSucceeded];
    lemma_single_event(ConnState::Open, first[0]);
    lemma_run_append(ConnState::Open, first, second);
    lemma_text_gets_one_reply(t);
    assert(first + second =~= seq![
        EventView::Received(MessageView::Binary(b)),
        EventView::Received(MessageView::Text(t)),
        EventView::SendSucceeded,
    ]);
    assert(seq![ActionView::Receive] + seq![ActionView::Send(reversed(t)), ActionView::Receive]
        =~= seq![ActionView::Receive, ActionView::Send(reversed(t)), ActionView::Receive]);
}

/// When a reply cannot be delivered the connection ends: after the one send
/// that failed, nothing more is sent or read, whatever follows.
pub proof fn lemma_send_failure_ends_connection(t: Seq<char>, rest: Seq<EventView>)
    ensures
        ({
            let evs = seq![EventView::Received(MessageView::Text(t)), EventView::SendFailed] + rest;
            &&& run(ConnState::Open, evs) == ConnState::Closed
            &&& actions(ConnState::Open, evs).len() == evs.len()
            &&& actions(ConnState::Open, evs)[0] == ActionView::Send(reversed(t))
            &&& forall|i: int|
                1 <= i < evs.len() ==> #[trigger] actions(ConnState::Open, evs)[i] == ActionView::Stop
        }),
{
    let first = seq![EventView::Received(MessageView::Text(t))];
    let later = seq![EventView::SendFailed] + rest;
    lemma_single_event(ConnState::Open, first[0]);
    lemma_run_append(ConnState::Open, first, later);
    lemma_stop_then_anything(ConnState::Sending, EventView::SendFailed, rest);
    let evs = seq![EventView::Received(MessageView::Text(t)), EventView::SendFailed] + rest;
    assert(evs =~= first + later);
    assert forall|i: int| 1 <= i < evs.len() implies #[trigger] actions(ConnState::Open, evs)[i]
        == ActionView::Stop by {
        assert(actions(ConnState::Open, evs)[i] == actions(ConnState::Sending, later)[i - 1]);
    }
}

/// A failed handshake ends the connection before anything is sent.
pub proof fn lemma_handshake_failure_sends_nothing(rest: Seq<EventView>)
    ensures
        ({
            let evs = seq![EventView::HandshakeFailed] + rest;
            &&& run(ConnState::Handshaking, evs) == ConnState::Closed
            &&& actions(ConnState::Handshaking, evs).len() == evs.len()
            &&& forall|i: int|
                0 <= i < evs.len() ==> #[trigger] actions(ConnState::Handshaking, evs)[i]
                    == ActionView::Stop
        }),
{
    lemma_stop_then_anything(ConnState::Handshaking, EventView::HandshakeFailed, rest);
}

/// Every text a connection sends is the reversal of a text that this same
/// connection received, in answer to that very event; and every text
/// received while the connection waits is answered.
pub proof fn lemma_replies_answer_own_texts(s: ConnState, evs: Seq<EventView>)
    ensures
        actions(s, evs).len() == evs.len(),
        forall|i: int|
            0 <= i < evs.len() && #[trigger] actions(s, evs)[i] is Send ==> {
                &&& evs[i] is Received
                &&& evs[i]->Received_0 is Text
                &&& actions(s, evs)[i] == ActionView::Send(reversed(evs[i]->Received_0->Text_0))
            },
        forall|i: int|
            0 <= i < evs.len() && #[trigger] run(s, evs.take(i)) == ConnState::Open
                && evs[i] is Received && evs[i]->Received_0 is Text
                ==> actions(s, evs)[i] == ActionView::Send(reversed(evs[i]->Received_0->Text_0)),
    decreases evs.len(),
{
    lemma_actions_len(s, evs);
    if evs.len() > 0 {
        let prev = evs.drop_last();
        lemma_replies_answer_own_texts(s, prev);
        assert forall|i: int| 0 <= i < evs.len() - 1 implies #[trigger] evs.take(i) == prev.take(i) by {
            assert(evs.take(i) =~= prev.take(i));
        }
        assert(evs.take(evs.len() - 1) =~= prev);
    }
}

/// The items of `xs` that belong to connection `k`, in order.
pub open spec fn of_connection<A>(xs: Seq<(nat, A)>, k: nat) -> Seq<A>
    decreases xs.len(),
{
    if xs.len() == 0 {
        Seq::empty()
    } else if xs.last().0 == k {
        of_connection(xs.drop_last(), k).push(xs.last().1)
    } else {
        of_connection(xs.drop_last(), k)
    }
}

/// The states of many connections after the interleaved events `evs`, each
/// tagged with the index of the connection it is reported to. An event for
/// an index with no connection changes nothing.
pub open spec fn serve(states: Seq<ConnState>, evs: Seq<(nat, EventView)>) -> Seq<ConnState>
    decreases evs.len(),
{
    if evs.len() == 0 {
        states
    } else {
        let prev = serve(states, evs.drop_last());
        let k = evs.last().0;
        if k < prev.len() {
            prev.update(k as int, step(prev[k as int], evs.last().1).0)
        } else {
            prev
        }
    }
}

/// The actions that the interleaved events `evs` ask for, each tagged with
/// the connection that asks for it.
pub open spec fn outbound(states: Seq<ConnState>, evs: Seq<(nat, EventView)>) -> Seq<(nat, ActionView)>
    decreases evs.len(),
{
    if evs.len() == 0 {
        Seq::empty()
    } else {
        let prev = serve(states, evs.drop_last());
        let k = evs.last().0;
        let a = if k < prev.len() {
            step(prev[k as int], evs.last().1).1
        } else {
            ActionView::Stop
        };
        outbound(states, evs.drop_last()).push((k, a))
    }
}

/// Connections served side by side do not see each other: whatever the
/// interleaving, each one ends in the state, and asks for the actions (its
/// replies included), that its own events alone give it.
pub proof fn lemma_connections_are_independent(
    states: Seq<ConnState>,
    evs: Seq<(nat, EventView)>,
    k: nat,
)
    requires
        k < states.len(),
    ensures
        serve(states, evs).len() == states.len(),
        serve(states, evs)[k as int] == run(states[k as int], of_connection(evs, k)),
        of_connection(outbound(states, evs), k) == actions(states[k as int], of_connection(evs, k)),
    decreases evs.len(),
{
    if evs.len() > 0 {
        let prev_evs = evs.drop_last();
        lemma_connections_are_independent(states, prev_evs, k);
        let mine = of_connection(prev_evs, k);
        let prev_out = outbound(states, prev_evs);
        assert(outbound(states, evs).drop_last() =~= prev_out);
        if evs.last().0 == k {
            assert(of_connection(evs, k).drop_last() =~= mine);
        }
    }
}

} // verus!
