use vstd::prelude::*;
use crate::reversal::{reverse, reversed};

verus! {

/// One inbound message of a connection.
pub enum Message {
    /// A text payload.
    Text(String),
    /// Opaque bytes, which this service does not answer.
    Binary(Vec<u8>),
    /// The peer asks to close the connection.
    Close,
    /// A control frame (ping, pong, raw frame) of no meaning to the service.
    Other,
}

/// What a `Message` holds, as mathematical values.
pub enum MessageView {
    Text(Seq<char>),
    Binary(Seq<u8>),
    Close,
    Other,
}

impl View for Message {
    type V = MessageView;

    open spec fn view(&self) -> MessageView {
        match self {
            Message::Text(t) => MessageView::Text(t@),
            Message::Binary(b) => MessageView::Binary(b@),
            Message::Close => MessageView::Close,
            Message::Other => MessageView::Other,
        }
    }
}

/// What to do about one inbound message.
pub enum DispatchOutcome {
    /// Send this text back to the peer.
    Reply(String),
    /// Do nothing and wait for the next message.
    Ignore,
    /// End the connection without sending anything.
    Terminate,
}

/// What a `DispatchOutcome` holds, as mathematical values.
pub enum OutcomeView {
    Reply(Seq<char>),
    Ignore,
    Terminate,
}

impl View for DispatchOutcome {
    type V = OutcomeView;

    open spec fn view(&self) -> OutcomeView {
        match self {
            DispatchOutcome::Reply(t) => OutcomeView::Reply(t@),
            DispatchOutcome::Ignore => OutcomeView::Ignore,
            DispatchOutcome::Terminate => OutcomeView::Terminate,
        }
    }
}

/// The outcome for a message: a text is answered with its reversal, a close
/// ends the connection, anything else is ignored.
pub open spec fn dispatch_view(m: MessageView) -> OutcomeView {
    match m {
        MessageView::Text(t) => OutcomeView::Reply(reversed(t)),
        MessageView::Close => OutcomeView::Terminate,
        MessageView::Binary(_) => OutcomeView::Ignore,
        MessageView::Other => OutcomeView::Ignore,
    }
}

/// Decides what to do about one inbound message, without touching any
/// connection.
pub fn dispatch(message: Message) -> (out: DispatchOutcome)
    ensures
        out@ == dispatch_view(message@),
{
    match message {
        Message::Text(t) => DispatchOutcome::Reply(reverse(t.as_str())),
        Message::Close => DispatchOutcome::Terminate,
        Message::Binary(_) => DispatchOutcome::Ignore,
        Message::Other => DispatchOutcome::Ignore,
    }
}

/// A reply is produced exactly for a text message, and it is that text
/// reversed.
pub proof fn lemma_reply_iff_text(m: MessageView)
    ensures
        dispatch_view(m) is Reply <==> m is Text,
        m is Text ==> dispatch_view(m) == OutcomeView::Reply(reversed(m->Text_0)),
{
}

} // verus!
