//! The console engine as a mathematical state machine.
//!
//! Every operation of the executable engine is specified here as a total
//! function from a state (and the operation's arguments) to the next state
//! and to what the operation hands back: a synchronous result, at most one
//! request for the hardware transport, and completion records.

use crate::types::{
    Callback, ErrorCode, ReadDoneView, ReadStatus, RequestView, TransferStatus, WriteDoneView,
};
use vstd::prelude::*;

verus! {

/// State that the engine keeps for one attached process.
pub struct AppState {
    pub process: usize,
    pub write_callback: Option<Callback>,
    /// Bytes registered for transmission and not consumed yet.
    pub write_buffer: Option<Seq<u8>>,
    /// Total length of the current write request.
    pub write_len: nat,
    /// Bytes of the current write request not yet handed to the hardware.
    pub write_remaining: nat,
    /// The process asked to transmit while the slot was taken.
    pub pending_write: bool,
    pub read_callback: Option<Callback>,
    pub read_buffer: Option<Seq<u8>>,
    pub read_len: nat,
}

/// One shared transaction slot: either idle in the engine's hands, or with
/// the hardware on behalf of one process.
pub enum SlotState {
    Idle(Seq<u8>),
    InFlight(usize),
}

/// State of the whole engine. `apps` is in attachment order.
pub struct ConsoleState {
    pub apps: Seq<AppState>,
    pub tx: SlotState,
    pub rx: SlotState,
    pub baud_rate: u32,
}

/// The smaller of two lengths.
pub open spec fn shorter(a: nat, b: nat) -> nat {
    if a <= b {
        a
    } else {
        b
    }
}

/// Contents of a slot after the next chunk of a write was copied into it:
/// the chunk starts where the last `remaining` bytes of `slice` start, fills
/// the front of the slot, and leaves the rest of the slot as it was.
pub open spec fn chunk_data(slice: Seq<u8>, remaining: nat, slot: Seq<u8>) -> Seq<u8>
    recommends
        remaining <= slice.len(),
{
    let n: nat = shorter(remaining, slot.len());
    let start: int = slice.len() - remaining;
    slice.subrange(start, start + n) + slot.subrange(n as int, slot.len() as int)
}

/// Contents of a process's read buffer after the received bytes were copied
/// into its front.
pub open spec fn filled(target: Seq<u8>, slot: Seq<u8>, rx_len: nat) -> Seq<u8> {
    let n: nat = shorter(shorter(rx_len, slot.len()), target.len());
    slot.subrange(0, n as int) + target.subrange(n as int, target.len() as int)
}

/// `i` is the first position in `apps` that belongs to `process`.
pub open spec fn is_position_of(apps: Seq<AppState>, process: usize, i: int) -> bool {
    &&& 0 <= i < apps.len()
    &&& apps[i].process == process
    &&& forall|j: int| 0 <= j < i ==> (#[trigger] apps[j]).process != process
}

/// `apps` has an entry for `process`.
pub open spec fn holds(apps: Seq<AppState>, process: usize) -> bool {
    exists|i: int| is_position_of(apps, process, i)
}

/// The first position in `apps` that belongs to `process`.
pub open spec fn position_of(apps: Seq<AppState>, process: usize) -> int {
    choose|i: int| is_position_of(apps, process, i)
}

/// No process has two entries, and no write has more bytes left than it was
/// started with.
pub open spec fn entries_wf(apps: Seq<AppState>) -> bool {
    &&& forall|i: int, j: int|
        0 <= i < j < apps.len() ==> (#[trigger] apps[i]).process != (#[trigger] apps[j]).process
    &&& forall|i: int|
        0 <= i < apps.len() ==> (#[trigger] apps[i]).write_remaining <= apps[i].write_len
}

impl AppState {
    /// State of a process that has not talked to the engine yet.
    pub open spec fn fresh(process: usize) -> AppState {
        AppState {
            process,
            write_callback: None,
            write_buffer: None,
            write_len: 0,
            write_remaining: 0,
            pending_write: false,
            read_callback: None,
            read_buffer: None,
            read_len: 0,
        }
    }

    /// The registered write buffer, if it still covers the unsent bytes.
    pub open spec fn retained(self) -> Option<Seq<u8>> {
        match self.write_buffer {
            Some(slice) => if self.write_remaining <= slice.len() {
                Some(slice)
            } else {
                None
            },
            None => None,
        }
    }

    /// The state after the engine gave a write up: every write field but the
    /// notifier is reset.
    pub open spec fn write_cleared(self) -> AppState {
        AppState {
            write_buffer: None,
            write_len: 0,
            write_remaining: 0,
            pending_write: false,
            ..self
        }
    }

    /// The record that a reader is owed when the transport returns the
    /// receive slot as `buffer` with `rx_len` bytes received: failure after a
    /// hardware error, an invalid state if the read buffer is gone, and else
    /// the buffer with the received bytes in it, as a success or as cancelled.
    pub open spec fn read_done(self, buffer: Seq<u8>, rx_len: nat, error: TransferStatus) -> ReadDoneView {
        if error == TransferStatus::Failed {
            ReadDoneView {
                process: self.process,
                callback: self.read_callback,
                status: ReadStatus::Failure,
                count: 0,
                buffer: None,
            }
        } else {
            match self.read_buffer {
                Some(target) => ReadDoneView {
                    process: self.process,
                    callback: self.read_callback,
                    status: if error == TransferStatus::Complete {
                        ReadStatus::Success
                    } else {
                        ReadStatus::Cancelled
                    },
                    count: rx_len,
                    buffer: Some(filled(target, buffer, rx_len)),
                },
                None => ReadDoneView {
                    process: self.process,
                    callback: self.read_callback,
                    status: ReadStatus::InvalidState,
                    count: 0,
                    buffer: None,
                },
            }
        }
    }

    /// The state of a reader after its read completed: the read buffer is
    /// consumed unless the hardware failed.
    pub open spec fn after_read(self, error: TransferStatus) -> AppState {
        if error == TransferStatus::Failed {
            self
        } else {
            AppState { read_buffer: None, ..self }
        }
    }

    /// The record that tells the process its write was given up.
    pub open spec fn write_failed(self, error: ErrorCode) -> WriteDoneView {
        WriteDoneView { process: self.process, callback: self.write_callback, result: Err(error) }
    }
}

impl SlotState {
    /// The process on whose behalf the slot is with the hardware.
    pub open spec fn owner(self) -> Option<usize> {
        match self {
            SlotState::Idle(_) => None,
            SlotState::InFlight(process) => Some(process),
        }
    }
}

impl ConsoleState {
    /// A freshly built engine: both slots idle, nobody attached.
    pub open spec fn init(baud_rate: u32, tx_buffer: Seq<u8>, rx_buffer: Seq<u8>) -> ConsoleState {
        ConsoleState {
            apps: Seq::empty(),
            tx: SlotState::Idle(tx_buffer),
            rx: SlotState::Idle(rx_buffer),
            baud_rate,
        }
    }

    /// `i` is the first position in attachment order that belongs to `process`.
    pub open spec fn is_index_of(self, process: usize, i: int) -> bool {
        is_position_of(self.apps, process, i)
    }

    /// The engine keeps state for `process`.
    pub open spec fn attached(self, process: usize) -> bool {
        holds(self.apps, process)
    }

    /// Position of an attached process in attachment order.
    pub open spec fn index_of(self, process: usize) -> int {
        position_of(self.apps, process)
    }

    /// The state in which `process` is attached: unchanged if it was, else
    /// with a fresh entry behind all others.
    pub open spec fn enter(self, process: usize) -> ConsoleState {
        if self.attached(process) {
            self
        } else {
            ConsoleState { apps: self.apps.push(AppState::fresh(process)), ..self }
        }
    }

    /// The state with the entry at position `i` replaced by `app`.
    pub open spec fn with_app(self, i: int, app: AppState) -> ConsoleState {
        ConsoleState { apps: self.apps.update(i, app), ..self }
    }

    /// Hands `slice` to the transmit path on behalf of the process at `i`.
    ///
    /// With the slot idle the process claims it and the next chunk goes to the
    /// hardware; the buffer stays with the process only if more chunks follow.
    /// With the slot taken the process is marked pending and keeps the buffer.
    pub open spec fn send(self, i: int, slice: Seq<u8>) -> (ConsoleState, Option<RequestView>)
        recommends
            0 <= i < self.apps.len(),
            self.apps[i].write_remaining <= slice.len(),
    {
        let app = self.apps[i];
        match self.tx {
            SlotState::Idle(slot) => {
                let n: nat = shorter(app.write_remaining, slot.len());
                let next = AppState {
                    write_remaining: (app.write_remaining - n) as nat,
                    write_buffer: if app.write_remaining > slot.len() {
                        Some(slice)
                    } else {
                        None
                    },
                    ..app
                };
                (
                    ConsoleState {
                        apps: self.apps.update(i, next),
                        tx: SlotState::InFlight(app.process),
                        ..self
                    },
                    Some(
                        RequestView::Transmit {
                            process: app.process,
                            data: chunk_data(slice, app.write_remaining, slot),
                            len: n,
                        },
                    ),
                )
            },
            SlotState::InFlight(_) => (
                self.with_app(i, AppState { pending_write: true, write_buffer: Some(slice), ..app }),
                None,
            ),
        }
    }

    /// Sets up a new write of at most `len` bytes for the process at `i`.
    pub open spec fn send_new(self, i: int, len: nat) -> (
        ConsoleState,
        Result<(), ErrorCode>,
        Option<RequestView>,
    )
        recommends
            0 <= i < self.apps.len(),
    {
        let app = self.apps[i];
        match app.write_buffer {
            Some(slice) => {
                let n: nat = shorter(len, slice.len());
                let started = self.with_app(
                    i,
                    AppState { write_len: n, write_remaining: n, write_buffer: None, ..app },
                );
                let (next, request) = started.send(i, slice);
                (next, Ok(()), request)
            },
            None => (self, Err(ErrorCode::Busy), None),
        }
    }

    /// Sends the next chunk of the write of the process at `i` if the
    /// registered buffer still covers its unsent bytes. If it does not, the
    /// reservation is lost and nothing changes.
    pub open spec fn resume(self, i: int) -> (
        ConsoleState,
        Result<(), ErrorCode>,
        Option<RequestView>,
    )
        recommends
            0 <= i < self.apps.len(),
    {
        let app = self.apps[i];
        match app.retained() {
            Some(slice) => {
                let (next, request) = self.with_app(i, AppState { write_buffer: None, ..app }).send(
                    i,
                    slice,
                );
                (next, Ok(()), request)
            },
            None => (self, Err(ErrorCode::InternalReservation), None),
        }
    }

    /// Continues the write of the process at `i` after one of its chunks
    /// went out. With nothing left it says so and changes nothing: the answer
    /// is `Ok(false)`. With bytes left it sends the next chunk and answers
    /// `Ok(true)`, or fails, changing nothing, if the buffer is gone.
    pub open spec fn send_continue(self, i: int) -> (
        ConsoleState,
        Result<bool, ErrorCode>,
        Option<RequestView>,
    )
        recommends
            0 <= i < self.apps.len(),
    {
        if self.apps[i].write_remaining > 0 {
            let (next, result, request) = self.resume(i);
            match result {
                Ok(_) => (next, Ok(true), request),
                Err(e) => (next, Err(e), request),
            }
        } else {
            (self, Ok(false), None)
        }
    }

    /// Ends the write of the process at `i` as complete: its length is
    /// reported and reset.
    pub open spec fn finish(self, i: int) -> (ConsoleState, WriteDoneView)
        recommends
            0 <= i < self.apps.len(),
    {
        let app = self.apps[i];
        (
            self.with_app(i, AppState { write_len: 0, ..app }),
            WriteDoneView {
                process: app.process,
                callback: app.write_callback,
                result: Ok(app.write_len),
            },
        )
    }

    /// Gives the write of the process at `i` up: the error is reported and
    /// every write field but the notifier is reset.
    pub open spec fn give_up(self, i: int, error: ErrorCode) -> (ConsoleState, WriteDoneView)
        recommends
            0 <= i < self.apps.len(),
    {
        let app = self.apps[i];
        (self.with_app(i, app.write_cleared()), app.write_failed(error))
    }

    /// What the return of the transmit slot means for its owner at `i`: the
    /// write goes on with a request and no record, or it ends with a record,
    /// as complete or as given up.
    pub open spec fn complete_owner(self, i: int) -> (
        ConsoleState,
        Option<RequestView>,
        Option<WriteDoneView>,
    )
        recommends
            0 <= i < self.apps.len(),
    {
        let (next, result, request) = self.send_continue(i);
        match result {
            Ok(more) => if more {
                (next, request, None)
            } else {
                (next.finish(i).0, None, Some(next.finish(i).1))
            },
            Err(e) => (next.give_up(i, e).0, None, Some(next.give_up(i, e).1)),
        }
    }

    /// Starts the write of the pending process at `i` with its first chunk,
    /// or gives it up with a record if its buffer is gone.
    pub open spec fn restart(self, i: int) -> (
        ConsoleState,
        Option<RequestView>,
        Option<WriteDoneView>,
    )
        recommends
            0 <= i < self.apps.len(),
    {
        let (next, result, request) = self.resume(i);
        match result {
            Ok(_) => (next, request, None),
            Err(e) => (next.give_up(i, e).0, None, Some(next.give_up(i, e).1)),
        }
    }

    /// Starts the first pending process at or behind position `from` whose
    /// write can be resumed. Each pending process passed over on the way
    /// loses its flag and its write, and is owed a failure record.
    pub open spec fn arbitrate(self, from: int) -> (
        ConsoleState,
        Option<RequestView>,
        Seq<WriteDoneView>,
    )
        decreases self.apps.len() - from,
    {
        if from < 0 || from >= self.apps.len() {
            (self, None, Seq::empty())
        } else if !self.apps[from].pending_write {
            self.arbitrate(from + 1)
        } else {
            let cleared = self.with_app(
                from,
                AppState { pending_write: false, ..self.apps[from] },
            );
            let (next, request, lost) = cleared.restart(from);
            match lost {
                None => (next, request, Seq::empty()),
                Some(record) => {
                    let (last, later_request, later) = next.arbitrate(from + 1);
                    (last, later_request, seq![record] + later)
                },
            }
        }
    }

    /// Starts a receive of at most `len` bytes for the process at `i`.
    pub open spec fn receive_new(self, i: int, len: nat) -> (
        ConsoleState,
        Result<(), ErrorCode>,
        Option<RequestView>,
    )
        recommends
            0 <= i < self.apps.len(),
    {
        let app = self.apps[i];
        match self.rx {
            SlotState::InFlight(_) => (self, Err(ErrorCode::Busy), None),
            SlotState::Idle(slot) => match app.read_buffer {
                None => (self, Err(ErrorCode::NoBufferRegistered), None),
                Some(target) => {
                    let n: nat = shorter(len, target.len());
                    if n > slot.len() {
                        (self, Err(ErrorCode::SizeExceeded), None)
                    } else {
                        (
                            ConsoleState {
                                apps: self.apps.update(i, AppState { read_len: n, ..app }),
                                rx: SlotState::InFlight(app.process),
                                ..self
                            },
                            Ok(()),
                            Some(RequestView::Receive { process: app.process, data: slot, len: n }),
                        )
                    }
                },
            },
        }
    }

    /// Registers, replaces or withdraws a buffer of `process`: `allow_num` 1
    /// is the write buffer, 2 the read buffer.
    pub open spec fn allow(self, process: usize, allow_num: usize, slice: Option<Seq<u8>>) -> (
        ConsoleState,
        Result<(), ErrorCode>,
    ) {
        let entered = self.enter(process);
        let i: int = entered.index_of(process);
        if allow_num == 1 {
            (entered.with_app(i, AppState { write_buffer: slice, ..entered.apps[i] }), Ok(()))
        } else if allow_num == 2 {
            (entered.with_app(i, AppState { read_buffer: slice, ..entered.apps[i] }), Ok(()))
        } else {
            (self, Err(ErrorCode::UnsupportedOperand))
        }
    }

    /// Registers, replaces or withdraws a notifier of `process`:
    /// `subscribe_num` 1 is write-done, 2 is read-done.
    pub open spec fn subscribe(
        self,
        subscribe_num: usize,
        callback: Option<Callback>,
        process: usize,
    ) -> (ConsoleState, Result<(), ErrorCode>) {
        let entered = self.enter(process);
        let i: int = entered.index_of(process);
        if subscribe_num == 1 {
            (entered.with_app(i, AppState { write_callback: callback, ..entered.apps[i] }), Ok(()))
        } else if subscribe_num == 2 {
            (entered.with_app(i, AppState { read_callback: callback, ..entered.apps[i] }), Ok(()))
        } else {
            (self, Err(ErrorCode::UnsupportedOperand))
        }
    }

    /// Command 0 probes the driver, 1 starts a write of `arg1` bytes, 2 starts
    /// a read of `arg1` bytes, 3 asks the transport to abort the receive in
    /// flight.
    pub open spec fn command(self, cmd_num: usize, arg1: usize, process: usize) -> (
        ConsoleState,
        Result<(), ErrorCode>,
        Option<RequestView>,
    ) {
        let entered = self.enter(process);
        let i: int = entered.index_of(process);
        if cmd_num == 0 {
            (self, Ok(()), None)
        } else if cmd_num == 1 {
            entered.send_new(i, arg1 as nat)
        } else if cmd_num == 2 {
            entered.receive_new(i, arg1 as nat)
        } else if cmd_num == 3 {
            (self, Ok(()), Some(RequestView::AbortReceive))
        } else {
            (self, Err(ErrorCode::UnsupportedOperand), None)
        }
    }

    /// The transport returns the transmit slot as `buffer`.
    ///
    /// The slot is idle again at once. The owner's write, if the owner is
    /// still attached, is continued; when `send_continue` says that it is
    /// finished, its length is reported and reset; when `send_continue`
    /// fails, the error is reported and the write fields are reset. If no
    /// chunk went out, the pending processes are arbitrated in attachment
    /// order.
    pub open spec fn transmitted_buffer(self, buffer: Seq<u8>) -> (
        ConsoleState,
        Option<RequestView>,
        Seq<WriteDoneView>,
    ) {
        let returned = ConsoleState { tx: SlotState::Idle(buffer), ..self };
        match self.tx.owner() {
            Some(process) if returned.attached(process) => {
                let (next, request, done) = returned.complete_owner(returned.index_of(process));
                match done {
                    None => (next, request, Seq::empty()),
                    Some(record) => {
                        let (last, later_request, later) = next.arbitrate(0);
                        (last, later_request, seq![record] + later)
                    },
                }
            },
            _ => returned.arbitrate(0),
        }
    }

    /// The transport returns the receive slot as `buffer`, of which it filled
    /// `rx_len` bytes.
    pub open spec fn received_buffer(self, buffer: Seq<u8>, rx_len: nat, error: TransferStatus) -> (
        ConsoleState,
        Option<ReadDoneView>,
    ) {
        let returned = ConsoleState { rx: SlotState::Idle(buffer), ..self };
        match self.rx.owner() {
            Some(process) if returned.attached(process) => {
                let i: int = returned.index_of(process);
                let app = returned.apps[i];
                (
                    returned.with_app(i, app.after_read(error)),
                    Some(app.read_done(buffer, rx_len, error)),
                )
            },
            _ => (returned, None),
        }
    }

    /// The transport refused the receive just requested and hands the slot
    /// back as `buffer`: the receive slot is idle again, nothing else changes
    /// and nothing is reported, as the caller learns of the refusal at once.
    pub open spec fn receive_refused(self, buffer: Seq<u8>) -> ConsoleState {
        ConsoleState { rx: SlotState::Idle(buffer), ..self }
    }

    /// Forgets a process that was torn down. A slot that is in flight on its
    /// behalf stays in flight until the transport returns it.
    pub open spec fn detach(self, process: usize) -> ConsoleState {
        if self.attached(process) {
            ConsoleState { apps: self.apps.remove(self.index_of(process)), ..self }
        } else {
            self
        }
    }

    /// What holds of every state that the engine reaches: a process is
    /// attached once, no write has more bytes left than it was started with,
    /// and nobody waits for the transmit slot while it is idle.
    pub open spec fn wf(self) -> bool {
        &&& entries_wf(self.apps)
        &&& self.tx is Idle ==> forall|i: int|
            0 <= i < self.apps.len() ==> !(#[trigger] self.apps[i]).pending_write
    }
}

} // verus!
