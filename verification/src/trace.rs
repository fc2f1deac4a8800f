//! Runs of the engine: what comes out of it over a whole sequence of calls.

use crate::model::ConsoleState;
use crate::types::{Callback, ReadDoneView, RequestView, TransferStatus, WriteDoneView};
use crate::wellformed::{
    lemma_allow_wf, lemma_attached_position, lemma_command_wf, lemma_detach_wf, lemma_enter,
    lemma_entry_position, lemma_subscribe_wf,
};
use vstd::prelude::*;

verus! {

/// One call into the engine.
pub enum Event {
    Allow { process: usize, allow_num: usize, slice: Option<Seq<u8>> },
    Subscribe { subscribe_num: usize, callback: Option<Callback>, process: usize },
    Command { cmd_num: usize, arg1: usize, process: usize },
    Transmitted { buffer: Seq<u8> },
    Received { buffer: Seq<u8>, rx_len: nat, error: TransferStatus },
    ReceiveRefused { buffer: Seq<u8> },
    Detach { process: usize },
}

/// Where a run ends, and all that it asked of the transport and reported of
/// writes and of reads on the way, each in order.
pub struct Outcome {
    pub state: ConsoleState,
    pub requests: Seq<RequestView>,
    pub done: Seq<WriteDoneView>,
    pub reads: Seq<ReadDoneView>,
}

impl Event {
    /// The process that makes the call; none for a call of the transport.
    pub open spec fn caller(self) -> Option<usize> {
        match self {
            Event::Allow { process, .. } => Some(process),
            Event::Subscribe { process, .. } => Some(process),
            Event::Command { process, .. } => Some(process),
            Event::Detach { process } => Some(process),
            Event::Transmitted { .. } => None,
            Event::Received { .. } => None,
            Event::ReceiveRefused { .. } => None,
        }
    }
}

impl ConsoleState {
    /// The engine's answer to one call: the next state, the request for the
    /// transport and the write completions.
    pub open spec fn step(self, event: Event) -> (
        ConsoleState,
        Option<RequestView>,
        Seq<WriteDoneView>,
    ) {
        match event {
            Event::Allow { process, allow_num, slice } => (
                self.allow(process, allow_num, slice).0,
                None,
                Seq::empty(),
            ),
            Event::Subscribe { subscribe_num, callback, process } => (
                self.subscribe(subscribe_num, callback, process).0,
                None,
                Seq::empty(),
            ),
            Event::Command { cmd_num, arg1, process } => (
                self.command(cmd_num, arg1, process).0,
                self.command(cmd_num, arg1, process).2,
                Seq::empty(),
            ),
            Event::Transmitted { buffer } => self.transmitted_buffer(buffer),
            Event::Received { buffer, rx_len, error } => (
                self.received_buffer(buffer, rx_len, error).0,
                None,
                Seq::empty(),
            ),
            Event::ReceiveRefused { buffer } => (self.receive_refused(buffer), None, Seq::empty()),
            Event::Detach { process } => (self.detach(process), None, Seq::empty()),
        }
    }

    /// The read completion that one call yields.
    pub open spec fn read_answer(self, event: Event) -> Option<ReadDoneView> {
        match event {
            Event::Received { buffer, rx_len, error } => self.received_buffer(
                buffer,
                rx_len,
                error,
            ).1,
            _ => None,
        }
    }

    /// The outcome of a sequence of calls, made in order.
    pub open spec fn run(self, events: Seq<Event>) -> Outcome
        decreases events.len(),
    {
        if events.len() == 0 {
            Outcome {
                state: self,
                requests: Seq::empty(),
                done: Seq::empty(),
                reads: Seq::empty(),
            }
        } else {
            let before = self.run(events.drop_last());
            let (next, request, done) = before.state.step(events.last());
            Outcome {
                state: next,
                requests: match request {
                    Some(r) => before.requests.push(r),
                    None => before.requests,
                },
                done: before.done + done,
                reads: match before.state.read_answer(events.last()) {
                    Some(r) => before.reads.push(r),
                    None => before.reads,
                },
            }
        }
    }
}

/// Processes are kept apart: a call of one process changes nothing in what
/// the engine keeps for another, which stays attached.
pub proof fn law_call_leaves_others_alone(c: ConsoleState, event: Event, process: usize)
    requires
        c.wf(),
        c.attached(process),
        event.caller() is Some,
        event.caller() != Some(process),
    ensures
        c.step(event).0.wf(),
        c.step(event).0.attached(process),
        c.step(event).0.apps[c.step(event).0.index_of(process)] == c.apps[c.index_of(process)],
{
    lemma_attached_position(c.apps, process);
    let at = c.index_of(process);
    let other = event.caller()->0;
    let next = c.step(event).0;
    lemma_enter(c, other);
    match event {
        Event::Allow { process: q, allow_num, slice } => {
            lemma_allow_wf(c, q, allow_num, slice);
            lemma_entry_position(next, process, at);
        },
        Event::Subscribe { subscribe_num, callback, process: q } => {
            lemma_subscribe_wf(c, subscribe_num, callback, q);
            lemma_entry_position(next, process, at);
        },
        Event::Command { cmd_num, arg1, process: q } => {
            lemma_command_wf(c, cmd_num, arg1, q);
            lemma_entry_position(next, process, at);
        },
        Event::Detach { process: q } => {
            lemma_detach_wf(c, q);
            if c.attached(q) {
                lemma_attached_position(c.apps, q);
                let moved: int = if at < c.index_of(q) {
                    at
                } else {
                    at - 1
                };
                lemma_entry_position(next, process, moved);
            } else {
                lemma_entry_position(next, process, at);
            }
        },
        _ => {},
    }
}

} // verus!
