//! Every accepted read is answered once.

use crate::model::{AppState, ConsoleState, SlotState};
use crate::trace::{law_call_leaves_others_alone, Event};
use crate::types::ReadDoneView;
use crate::wellformed::{
    lemma_attached_position, lemma_command_wf, lemma_enter, lemma_entry_position,
    lemma_received_buffer_wf, lemma_transmitted_buffer_wf,
};
use vstd::prelude::*;

verus! {

/// The read completions among `reads` that go to `process`, in order.
pub open spec fn reads_for(reads: Seq<ReadDoneView>, process: usize) -> Seq<ReadDoneView>
    decreases reads.len(),
{
    if reads.len() == 0 {
        Seq::empty()
    } else if reads.last().process == process {
        reads_for(reads.drop_last(), process).push(reads.last())
    } else {
        reads_for(reads.drop_last(), process)
    }
}

/// The first call among `events` by which the transport hands the receive
/// slot back, after a receive or on refusing one.
pub open spec fn first_return(events: Seq<Event>) -> Option<Event>
    decreases events.len(),
{
    if events.len() == 0 {
        None
    } else {
        match first_return(events.drop_last()) {
            Some(event) => Some(event),
            None => if events.last() is Received || events.last() is ReceiveRefused {
                Some(events.last())
            } else {
                None
            },
        }
    }
}

/// Two entries agree on all that concerns reading.
pub open spec fn same_read(a: AppState, b: AppState) -> bool {
    &&& a.process == b.process
    &&& a.read_callback == b.read_callback
    &&& a.read_buffer == b.read_buffer
    &&& a.read_len == b.read_len
}

/// Arbitration changes nothing that concerns reading.
proof fn lemma_arbitrate_keeps_reads(c: ConsoleState, from: int, at: int)
    requires
        0 <= from,
        0 <= at < c.apps.len(),
    ensures
        c.arbitrate(from).0.apps.len() == c.apps.len(),
        c.arbitrate(from).0.rx == c.rx,
        same_read(c.arbitrate(from).0.apps[at], c.apps[at]),
    decreases c.apps.len() - from,
{
    if from >= c.apps.len() {
    } else if !c.apps[from].pending_write {
        lemma_arbitrate_keeps_reads(c, from + 1, at);
    } else {
        let cleared = c.with_app(from, AppState { pending_write: false, ..c.apps[from] });
        let (next, request, lost) = cleared.restart(from);
        if lost is Some {
            lemma_arbitrate_keeps_reads(next, from + 1, at);
        }
    }
}

/// The return of the transmit slot changes nothing that concerns reading.
proof fn lemma_transmitted_keeps_reads(c: ConsoleState, buffer: Seq<u8>, at: int)
    requires
        0 <= at < c.apps.len(),
    ensures
        c.transmitted_buffer(buffer).0.apps.len() == c.apps.len(),
        c.transmitted_buffer(buffer).0.rx == c.rx,
        same_read(c.transmitted_buffer(buffer).0.apps[at], c.apps[at]),
{
    let returned = ConsoleState { tx: SlotState::Idle(buffer), ..c };
    match c.tx.owner() {
        Some(owner) => {
            if returned.attached(owner) {
                lemma_attached_position(returned.apps, owner);
                let (next, request, done) = returned.complete_owner(returned.index_of(owner));
                if done is Some {
                    lemma_arbitrate_keeps_reads(next, 0, at);
                }
            } else {
                lemma_arbitrate_keeps_reads(returned, 0, at);
            }
        },
        None => {
            lemma_arbitrate_keeps_reads(returned, 0, at);
        },
    }
}

/// The receive slot is with the hardware for `process`, whose entry agrees
/// with `entry` on all that concerns reading.
pub open spec fn reading(c: ConsoleState, process: usize, entry: AppState) -> bool {
    &&& c.wf()
    &&& c.attached(process)
    &&& c.rx == SlotState::InFlight(process)
    &&& same_read(c.apps[c.index_of(process)], entry)
}

/// `process` is attached and the receive slot is not with the hardware on
/// its behalf.
pub open spec fn not_reading(c: ConsoleState, process: usize) -> bool {
    &&& c.wf()
    &&& c.attached(process)
    &&& c.rx.owner() != Some(process)
}

/// Where the read of `process` stands after `events`: outstanding with
/// nothing reported as long as the receive slot has not come back; over with
/// one record, made of what came back first, from then on; or over with no
/// record at all if the transport refused the receive.
pub open spec fn read_stands(
    c: ConsoleState,
    process: usize,
    entry: AppState,
    events: Seq<Event>,
    reported: Seq<ReadDoneView>,
) -> bool {
    match first_return(events) {
        None => reading(c, process, entry) && reported == Seq::<ReadDoneView>::empty(),
        Some(Event::Received { buffer, rx_len, error }) => not_reading(c, process) && reported
            == seq![entry.read_done(buffer, rx_len, error)],
        Some(_) => not_reading(c, process) && reported == Seq::<ReadDoneView>::empty(),
    }
}

/// One more call, not made by the reader, moves its read on as `read_stands`
/// says.
proof fn lemma_read_step(
    c: ConsoleState,
    process: usize,
    entry: AppState,
    events: Seq<Event>,
    reported: Seq<ReadDoneView>,
)
    requires
        events.len() > 0,
        read_stands(c, process, entry, events.drop_last(), reported),
        events.last().caller() != Some(process),
    ensures
        ({
            let next = c.step(events.last()).0;
            let after = match c.read_answer(events.last()) {
                Some(r) => if r.process == process {
                    reported.push(r)
                } else {
                    reported
                },
                None => reported,
            };
            read_stands(next, process, entry, events, after)
        }),
{
    let event = events.last();
    let next = c.step(event).0;
    lemma_attached_position(c.apps, process);
    let at = c.index_of(process);
    let outstanding = first_return(events.drop_last()) is None;
    match event {
        Event::Transmitted { buffer } => {
            lemma_transmitted_buffer_wf(c, buffer);
            lemma_transmitted_keeps_reads(c, buffer, at);
            lemma_entry_position(next, process, at);
        },
        Event::Received { buffer, rx_len, error } => {
            lemma_received_buffer_wf(c, buffer, rx_len, error);
            let record = c.read_answer(event);
            match c.rx.owner() {
                Some(reader) => {
                    if c.attached(reader) {
                        lemma_attached_position(c.apps, reader);
                    }
                },
                None => {},
            }
            lemma_entry_position(next, process, at);
            if outstanding {
                assert(reported.push(record->0) =~= seq![record->0]);
            }
        },
        Event::ReceiveRefused { buffer } => {
            lemma_entry_position(next, process, at);
        },
        _ => {
            lemma_enter(c, event.caller()->0);
            law_call_leaves_others_alone(c, event, process);
        },
    }
}

/// Every accepted read is answered once. Let a process start a read that is
/// accepted. Whatever the other processes and the transport do after that,
/// nothing is reported to the reader until the transport hands the receive
/// slot back. If it hands it back after a receive, exactly one record has
/// been reported to the reader from then on: the one that its read buffer
/// and notifier, as they were when the read started, and that first return
/// of the slot make up. If it hands it back on refusing the receive, nothing
/// is ever reported: the caller was told at once.
pub proof fn law_read_completes_once(
    c: ConsoleState,
    process: usize,
    len: usize,
    events: Seq<Event>,
)
    requires
        c.wf(),
        c.command(2, len, process).1 is Ok,
        events.len() > 0,
        events[0] == (Event::Command { cmd_num: 2, arg1: len, process }),
        forall|k: int| 1 <= k < events.len() ==> (#[trigger] events[k]).caller() != Some(process),
    ensures
        ({
            let started = c.command(2, len, process).0;
            let entry = started.apps[started.index_of(process)];
            let outcome = c.run(events);
            read_stands(
                outcome.state,
                process,
                entry,
                events,
                reads_for(outcome.reads, process),
            )
        }),
    decreases events.len(),
{
    let started = c.command(2, len, process).0;
    let entry = started.apps[started.index_of(process)];
    let earlier = events.drop_last();
    let before = c.run(earlier);
    let outcome = c.run(events);
    if events.len() == 1 {
        lemma_enter(c, process);
        lemma_command_wf(c, 2, len, process);
        lemma_entry_position(started, process, c.enter(process).index_of(process));
    } else {
        law_read_completes_once(c, process, len, earlier);
        lemma_read_step(before.state, process, entry, events, reads_for(before.reads, process));
        let answer = before.state.read_answer(events.last());
        if answer is Some {
            assert(outcome.reads.drop_last() =~= before.reads);
        }
    }
}

} // verus!
