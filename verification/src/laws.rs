//! What holds of the engine across its operations.

use crate::model::{chunk_data, shorter, AppState, ConsoleState, SlotState};
use crate::types::{Callback, ErrorCode, RequestView, TransferStatus, WriteDoneView};
use crate::wellformed::{lemma_attached_position, lemma_enter, lemma_position_unique};
use vstd::prelude::*;

verus! {

/// The process on whose behalf a request goes to the transmitter, if it is
/// a transmit request.
pub open spec fn transmits_for(request: Option<RequestView>) -> Option<usize> {
    match request {
        Some(RequestView::Transmit { process, .. }) => Some(process),
        _ => None,
    }
}

/// Arbitration passes over processes that are not pending.
pub proof fn lemma_arbitrate_skips(c: ConsoleState, from: int, to: int)
    requires
        0 <= from <= to <= c.apps.len(),
        forall|i: int| from <= i < to ==> !(#[trigger] c.apps[i]).pending_write,
    ensures
        c.arbitrate(from) == c.arbitrate(to),
    decreases to - from,
{
    if from < to {
        assert(!c.apps[from].pending_write);
        lemma_arbitrate_skips(c, from + 1, to);
    }
}

/// Arbitration over an idle transmit slot either leaves it idle and asks
/// nothing of the transmitter, or hands it to the one process whose chunk it
/// sends.
pub proof fn lemma_arbitrate_owner(c: ConsoleState, from: int)
    requires
        c.tx is Idle,
        0 <= from,
    ensures
        match c.arbitrate(from).1 {
            Some(request) => request is Transmit && c.arbitrate(from).0.tx == SlotState::InFlight(
                request->Transmit_process,
            ),
            None => c.arbitrate(from).0.tx == c.tx,
        },
    decreases c.apps.len() - from,
{
    if from >= c.apps.len() {
    } else if !c.apps[from].pending_write {
        lemma_arbitrate_owner(c, from + 1);
    } else {
        let cleared = c.with_app(from, AppState { pending_write: false, ..c.apps[from] });
        let (next, request, lost) = cleared.restart(from);
        if lost is Some {
            lemma_arbitrate_owner(next, from + 1);
        }
    }
}

/// One owner at a time, on the side of the processes: a command sends a
/// chunk to the transmitter only by taking the idle transmit slot for its
/// caller; every other command leaves the slot with whoever has it.
pub proof fn law_command_takes_only_idle_slot(
    c: ConsoleState,
    cmd_num: usize,
    arg1: usize,
    process: usize,
)
    ensures
        ({
            let (next, result, request) = c.command(cmd_num, arg1, process);
            match transmits_for(request) {
                Some(owner) => c.tx is Idle && owner == process && next.tx == SlotState::InFlight(
                    process,
                ),
                None => next.tx == c.tx,
            }
        }),
{
    lemma_enter(c, process);
}

/// One owner at a time, on the side of the transport: when the transmit
/// slot comes back, at most one chunk goes out again, and the slot then
/// belongs to the process whose chunk it is; with no chunk the slot is idle
/// and holds the returned buffer.
pub proof fn law_completion_hands_slot_to_one(c: ConsoleState, buffer: Seq<u8>)
    ensures
        ({
            let (next, request, done) = c.transmitted_buffer(buffer);
            match request {
                Some(r) => r is Transmit && next.tx == SlotState::InFlight(r->Transmit_process),
                None => next.tx == SlotState::Idle(buffer),
            }
        }),
{
    let returned = ConsoleState { tx: SlotState::Idle(buffer), ..c };
    match c.tx.owner() {
        Some(process) => {
            if returned.attached(process) {
                let (next, request, done) = returned.complete_owner(returned.index_of(process));
                if done is Some {
                    lemma_arbitrate_owner(next, 0);
                }
            } else {
                lemma_arbitrate_owner(returned, 0);
            }
        },
        None => {
            lemma_arbitrate_owner(returned, 0);
        },
    }
}

/// One owner at a time, for the rest: configuring, receiving, a refused
/// receive and detaching never touch the transmit slot.
pub proof fn law_other_operations_leave_transmit_slot(
    c: ConsoleState,
    process: usize,
    selector: usize,
    slice: Option<Seq<u8>>,
    callback: Option<Callback>,
    buffer: Seq<u8>,
    rx_len: nat,
    error: TransferStatus,
)
    ensures
        c.allow(process, selector, slice).0.tx == c.tx,
        c.subscribe(selector, callback, process).0.tx == c.tx,
        c.received_buffer(buffer, rx_len, error).0.tx == c.tx,
        c.receive_refused(buffer).tx == c.tx,
        c.detach(process).tx == c.tx,
{
}

/// A read that would not fit into the receive slot is rejected with
/// `SizeExceeded`: nothing is asked of the transport and nothing changes.
pub proof fn law_oversized_read_rejected(c: ConsoleState, process: usize, len: usize)
    requires
        c.attached(process),
        c.rx is Idle,
        c.apps[c.index_of(process)].read_buffer is Some,
        shorter(len as nat, c.apps[c.index_of(process)].read_buffer->0.len()) > c.rx->Idle_0.len(),
    ensures
        c.command(2, len, process) == (c, Err::<(), ErrorCode>(ErrorCode::SizeExceeded), None::<
            RequestView,
        >),
{
}

/// A read without a registered read buffer is rejected with
/// `NoBufferRegistered` while the receive slot is idle: nothing is asked of
/// the transport.
pub proof fn law_read_without_buffer_rejected(c: ConsoleState, process: usize, len: usize)
    requires
        c.rx is Idle,
        !c.attached(process) || c.apps[c.index_of(process)].read_buffer is None,
    ensures
        c.command(2, len, process) == (
            c.enter(process),
            Err::<(), ErrorCode>(ErrorCode::NoBufferRegistered),
            None::<RequestView>,
        ),
{
    lemma_enter(c, process);
}

/// While a receive is outstanding, a second start-read, by whichever
/// process, is rejected with `Busy` and asks nothing of the transport; the
/// first receive then completes as if the second had never been tried.
pub proof fn law_second_read_is_busy(
    c: ConsoleState,
    first: usize,
    first_len: usize,
    second: usize,
    second_len: usize,
    buffer: Seq<u8>,
    rx_len: nat,
    error: TransferStatus,
)
    requires
        c.command(2, first_len, first).1 is Ok,
    ensures
        ({
            let outstanding = c.command(2, first_len, first).0;
            let (after, result, request) = outstanding.command(2, second_len, second);
            &&& outstanding.rx == SlotState::InFlight(first)
            &&& result == Err::<(), ErrorCode>(ErrorCode::Busy)
            &&& request is None
            &&& after == outstanding.enter(second)
            &&& after.received_buffer(buffer, rx_len, error).1 == outstanding.received_buffer(
                buffer,
                rx_len,
                error,
            ).1
            &&& outstanding.received_buffer(buffer, rx_len, error).1 is Some
            &&& outstanding.received_buffer(buffer, rx_len, error).1->0.process == first
        }),
{
    lemma_enter(c, first);
    let entered = c.enter(first);
    let i = entered.index_of(first);
    let outstanding = c.command(2, first_len, first).0;
    lemma_position_unique(outstanding.apps, first, i);
    lemma_enter(outstanding, second);
    let after = outstanding.enter(second);
    lemma_position_unique(after.apps, first, i);
}

/// Fairness of arbitration: when the owner's write is complete and the
/// transmit slot comes back, the process that is first in attachment order
/// among the pending ones is started, with the first chunk of its write;
/// the owner is told its total, and those further behind keep waiting.
pub proof fn law_first_pending_is_started(c: ConsoleState, buffer: Seq<u8>, j: int)
    requires
        c.tx is InFlight,
        c.attached(c.tx->InFlight_0),
        c.apps[c.index_of(c.tx->InFlight_0)].write_remaining == 0,
        0 <= j < c.apps.len(),
        c.apps[j].pending_write,
        forall|i: int| 0 <= i < j ==> !(#[trigger] c.apps[i]).pending_write,
        c.apps[j].retained() is Some,
    ensures
        ({
            let (next, request, done) = c.transmitted_buffer(buffer);
            let owner = c.apps[c.index_of(c.tx->InFlight_0)];
            let first = c.apps[j];
            &&& next.tx == SlotState::InFlight(first.process)
            &&& request == Some(
                RequestView::Transmit {
                    process: first.process,
                    data: chunk_data(first.retained()->0, first.write_remaining, buffer),
                    len: shorter(first.write_remaining, buffer.len()),
                },
            )
            &&& done == seq![
                WriteDoneView {
                    process: owner.process,
                    callback: owner.write_callback,
                    result: Ok(owner.write_len),
                },
            ]
            &&& next.apps.len() == c.apps.len()
            &&& !next.apps[j].pending_write
            &&& forall|i: int|
                j < i < c.apps.len() ==> (#[trigger] next.apps[i]).pending_write
                    == c.apps[i].pending_write
        }),
{
    let process = c.tx->InFlight_0;
    let returned = ConsoleState { tx: SlotState::Idle(buffer), ..c };
    lemma_attached_position(c.apps, process);
    let at = returned.index_of(process);
    let owner = returned.apps[at];
    let finished = returned.with_app(at, AppState { write_len: 0, ..owner });
    assert forall|i: int| 0 <= i < j implies !(#[trigger] finished.apps[i]).pending_write by {
        assert(!c.apps[i].pending_write);
    }
    lemma_arbitrate_skips(finished, 0, j);
}

} // verus!
