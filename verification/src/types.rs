//! Plain values exchanged between the console engine, the processes it serves
//! and the hardware transport underneath it.

use vstd::prelude::*;

verus! {

/// Handle of a completion notifier that a process registered.
///
/// The engine never calls a notifier itself: it stores the handle and hands
/// it back inside the completion record that the notifier is owed.
#[derive(Clone, Copy, Debug, PartialEq, Eq, Structural)]
pub struct Callback {
    pub token: usize,
}

/// Errors reported synchronously to a caller, or to a process inside a
/// completion record.
#[derive(Clone, Copy, Debug, PartialEq, Eq, Structural)]
pub enum ErrorCode {
    /// The slot, or the single outstanding receive, is already claimed.
    Busy,
    /// The requested read is longer than the receive slot.
    SizeExceeded,
    /// An operation was started without a registered buffer.
    NoBufferRegistered,
    /// The selector of a configuration call or of a command is unknown.
    UnsupportedOperand,
    /// A buffer that the engine expected to hold is gone.
    InternalReservation,
}

/// How the transport says a receive ended.
#[derive(Clone, Copy, Debug, PartialEq, Eq, Structural)]
pub enum TransferStatus {
    /// The receive completed.
    Complete,
    /// The receive was aborted on request.
    Aborted,
    /// Any other hardware error.
    Failed,
}

/// Status that a read completion carries to the process.
#[derive(Clone, Copy, Debug, PartialEq, Eq, Structural)]
pub enum ReadStatus {
    Success,
    Cancelled,
    /// The process had no read buffer registered any more.
    InvalidState,
    /// The transport reported a hardware error.
    Failure,
}

/// A request that the caller must hand to the hardware transport.
#[derive(Debug, PartialEq, Eq)]
pub enum Request {
    /// Transmit the first `len` bytes of `buffer` on behalf of `process`.
    Transmit { process: usize, buffer: Vec<u8>, len: usize },
    /// Receive `len` bytes into `buffer` on behalf of `process`.
    Receive { process: usize, buffer: Vec<u8>, len: usize },
    /// Terminate the receive in flight, if any.
    AbortReceive,
}

/// Mathematical value of a [`Request`].
pub enum RequestView {
    Transmit { process: usize, data: Seq<u8>, len: nat },
    Receive { process: usize, data: Seq<u8>, len: nat },
    AbortReceive,
}

impl View for Request {
    type V = RequestView;

    open spec fn view(&self) -> RequestView {
        match *self {
            Request::Transmit { process, buffer, len } => RequestView::Transmit {
                process,
                data: buffer@,
                len: len as nat,
            },
            Request::Receive { process, buffer, len } => RequestView::Receive {
                process,
                data: buffer@,
                len: len as nat,
            },
            Request::AbortReceive => RequestView::AbortReceive,
        }
    }
}

/// Completion of one logical write request.
#[derive(Clone, Copy, Debug, PartialEq, Eq)]
pub struct WriteDone {
    pub process: usize,
    /// The notifier to invoke, if the process registered one.
    pub callback: Option<Callback>,
    /// Total bytes sent, or the error that ended the request.
    pub result: Result<usize, ErrorCode>,
}

/// Mathematical value of a [`WriteDone`].
pub struct WriteDoneView {
    pub process: usize,
    pub callback: Option<Callback>,
    pub result: Result<nat, ErrorCode>,
}

impl View for WriteDone {
    type V = WriteDoneView;

    open spec fn view(&self) -> WriteDoneView {
        WriteDoneView {
            process: self.process,
            callback: self.callback,
            result: match self.result {
                Ok(n) => Ok(n as nat),
                Err(e) => Err(e),
            },
        }
    }
}

/// Completion of one read request.
#[derive(Debug, PartialEq, Eq)]
pub struct ReadDone {
    pub process: usize,
    /// The notifier to invoke, if the process registered one.
    pub callback: Option<Callback>,
    pub status: ReadStatus,
    /// Bytes that the transport reported, zero on failure.
    pub count: usize,
    /// The process's read buffer with the received bytes copied in; absent
    /// when nothing was copied.
    pub buffer: Option<Vec<u8>>,
}

/// Mathematical value of a [`ReadDone`].
pub struct ReadDoneView {
    pub process: usize,
    pub callback: Option<Callback>,
    pub status: ReadStatus,
    pub count: nat,
    pub buffer: Option<Seq<u8>>,
}

impl View for ReadDone {
    type V = ReadDoneView;

    open spec fn view(&self) -> ReadDoneView {
        ReadDoneView {
            process: self.process,
            callback: self.callback,
            status: self.status,
            count: self.count as nat,
            buffer: bytes_of(self.buffer),
        }
    }
}

/// The bytes of an optional buffer.
pub open spec fn bytes_of(buffer: Option<Vec<u8>>) -> Option<Seq<u8>> {
    match buffer {
        Some(v) => Some(v@),
        None => None,
    }
}

/// The value of an optional request.
pub open spec fn request_of(request: Option<Request>) -> Option<RequestView> {
    match request {
        Some(r) => Some(r@),
        None => None,
    }
}

/// The value of an optional read completion.
pub open spec fn read_done_of(done: Option<ReadDone>) -> Option<ReadDoneView> {
    match done {
        Some(d) => Some(d@),
        None => None,
    }
}

/// The values of a list of write completions.
pub open spec fn completions_of(done: Seq<WriteDone>) -> Seq<WriteDoneView> {
    Seq::new(done.len(), |i: int| done[i]@)
}

} // verus!
