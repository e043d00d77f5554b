//! A connection-oriented text service that answers each text message with
//! the same text reversed, scalar value by scalar value.
//!
//! The library holds the decisions: reversing a payload, dispatching one
//! inbound message, and the per-connection state machine that drives the
//! handshake, the receive loop and termination. The transport itself is
//! driven by the caller, which hands each outcome back as an event.
mod reversal;
mod dispatch;
mod connection;

pub use reversal::{
    lemma_reverse_empty, lemma_reverse_involution, lemma_reverse_preserves_length, reverse, reversed,
};
pub use dispatch::{
    dispatch, dispatch_view, lemma_reply_iff_text, DispatchOutcome, Message, MessageView, OutcomeView,
};
pub use connection::{
    actions, lemma_actions_len, lemma_binary_keeps_connection_usable, lemma_close_ends_connection,
    lemma_closed_is_absorbing, lemma_connections_are_independent,
    lemma_handshake_failure_sends_nothing, lemma_replies_answer_own_texts, lemma_run_append,
    lemma_send_failure_ends_connection, lemma_single_event, lemma_text_gets_one_reply,
    of_connection, outbound, run, serve, step, Action, ActionView, ConnState, Connection, Event,
    EventView,
};
