use console::console::Console;
use console::types::{Callback, ErrorCode, Request, WriteDone};

fn pattern(n: usize) -> Vec<u8> {
    (0..n).map(|i| (i % 251) as u8).collect()
}

fn engine(capacity: usize) -> Console {
    Console::new(115200, vec![0u8; capacity], vec![0u8; capacity])
}

/// Feeds every transmit request straight back as completed, and returns the
/// chunk sizes, the bytes sent and the completions, in order.
fn drain(console: &mut Console, first: Option<Request>) -> (Vec<usize>, Vec<u8>, Vec<WriteDone>) {
    let mut sizes = Vec::new();
    let mut sent = Vec::new();
    let mut completions = Vec::new();
    let mut request = first;
    while let Some(Request::Transmit { buffer, len, .. }) = request {
        sizes.push(len);
        sent.extend_from_slice(&buffer[..len]);
        let (next, done) = console.transmitted_buffer(buffer, len, Ok(()));
        completions.extend(done);
        request = next;
    }
    (sizes, sent, completions)
}

#[test]
fn chunked_write_of_200_bytes_over_a_64_byte_slot() {
    let mut console = engine(64);
    let data = pattern(200);
    assert_eq!(console.subscribe(1, Some(Callback { token: 7 }), 3), Ok(()));
    assert_eq!(console.allow(3, 1, Some(data.clone())), Ok(()));

    let (result, mut request) = console.command(1, 200, 0, 3);
    assert_eq!(result, Ok(()));

    let mut sizes: Vec<usize> = Vec::new();
    let mut sent: Vec<u8> = Vec::new();
    let mut completions: Vec<WriteDone> = Vec::new();
    while let Some(Request::Transmit { process, buffer, len }) = request {
        assert_eq!(process, 3);
        assert_eq!(buffer.len(), 64);
        assert!(completions.is_empty());
        sizes.push(len);
        sent.extend_from_slice(&buffer[..len]);
        let (next, done) = console.transmitted_buffer(buffer, len, Ok(()));
        completions.extend(done);
        request = next;
    }
    assert_eq!(sizes, vec![64, 64, 64, 8]);
    assert_eq!(sent, data);
    assert_eq!(
        completions,
        vec![WriteDone { process: 3, callback: Some(Callback { token: 7 }), result: Ok(200) }]
    );
    assert_eq!(console.tx_owner(), None);
}

#[test]
fn write_state_after_each_chunk() {
    let mut console = engine(64);
    console.allow(1, 1, Some(pattern(200)));
    let (_, request) = console.command(1, 200, 0, 1);
    let app = console.app(1).unwrap();
    assert_eq!(app.write_len(), 200);
    assert_eq!(app.write_remaining(), 136);
    assert!(app.write_buffer().is_some());
    assert!(!app.pending_write());
    assert_eq!(console.tx_owner(), Some(1));

    let buffer = match request {
        Some(Request::Transmit { buffer, .. }) => buffer,
        other => panic!("unexpected request {:?}", other),
    };
    let (request, done) = console.transmitted_buffer(buffer, 64, Ok(()));
    assert!(done.is_empty());
    assert_eq!(console.app(1).unwrap().write_remaining(), 72);

    let buffer = match request {
        Some(Request::Transmit { buffer, len, .. }) => {
            assert_eq!(len, 64);
            buffer
        }
        other => panic!("unexpected request {:?}", other),
    };
    let (request, _) = console.transmitted_buffer(buffer, 64, Ok(()));
    assert_eq!(console.app(1).unwrap().write_remaining(), 8);

    let buffer = match request {
        Some(Request::Transmit { buffer, .. }) => buffer,
        other => panic!("unexpected request {:?}", other),
    };
    let (request, _) = console.transmitted_buffer(buffer, 64, Ok(()));
    let app = console.app(1).unwrap();
    assert_eq!(app.write_remaining(), 0);
    assert_eq!(app.write_len(), 200);
    assert!(app.write_buffer().is_none());
    match request {
        Some(Request::Transmit { len, .. }) => assert_eq!(len, 8),
        other => panic!("unexpected request {:?}", other),
    }
}

#[test]
fn completion_clears_write_len() {
    let mut console = engine(8);
    console.allow(1, 1, Some(pattern(5)));
    let (_, request) = console.command(1, 5, 0, 1);
    let (sizes, _, completions) = drain(&mut console, request);
    assert_eq!(sizes, vec![5]);
    assert_eq!(completions, vec![WriteDone { process: 1, callback: None, result: Ok(5) }]);
    let app = console.app(1).unwrap();
    assert_eq!(app.write_len(), 0);
    assert_eq!(app.write_remaining(), 0);
}

#[test]
fn last_chunk_leaves_rest_of_slot_untouched() {
    let mut console = Console::new(9600, vec![0xEEu8; 8], vec![0u8; 8]);
    console.allow(1, 1, Some(vec![1, 2, 3]));
    let (result, request) = console.command(1, 3, 0, 1);
    assert_eq!(result, Ok(()));
    assert_eq!(
        request,
        Some(Request::Transmit {
            process: 1,
            buffer: vec![1, 2, 3, 0xEE, 0xEE, 0xEE, 0xEE, 0xEE],
            len: 3
        })
    );
}

#[test]
fn write_length_is_capped_by_the_registered_buffer() {
    let mut console = engine(64);
    console.allow(2, 1, Some(pattern(10)));
    let (result, request) = console.command(1, 1000, 0, 2);
    assert_eq!(result, Ok(()));
    assert_eq!(console.app(2).unwrap().write_len(), 10);
    let (sizes, sent, completions) = drain(&mut console, request);
    assert_eq!(sizes, vec![10]);
    assert_eq!(sent, pattern(10));
    assert_eq!(completions, vec![WriteDone { process: 2, callback: None, result: Ok(10) }]);
}

#[test]
fn shorter_write_sends_the_tail_of_the_buffer() {
    let mut console = engine(4);
    console.allow(2, 1, Some(vec![10, 11, 12, 13, 14, 15, 16, 17, 18, 19]));
    let (result, request) = console.command(1, 6, 0, 2);
    assert_eq!(result, Ok(()));
    let (sizes, sent, completions) = drain(&mut console, request);
    assert_eq!(sizes, vec![4, 2]);
    assert_eq!(sent, vec![14, 15, 16, 17, 18, 19]);
    assert_eq!(completions, vec![WriteDone { process: 2, callback: None, result: Ok(6) }]);
}

#[test]
fn write_of_an_exact_multiple_of_the_capacity() {
    let mut console = engine(16);
    console.allow(1, 1, Some(pattern(48)));
    let (_, request) = console.command(1, 48, 0, 1);
    let (sizes, sent, completions) = drain(&mut console, request);
    assert_eq!(sizes, vec![16, 16, 16]);
    assert_eq!(sent, pattern(48));
    assert_eq!(completions.len(), 1);
    assert_eq!(completions[0].result, Ok(48));
}

#[test]
fn zero_length_write_sends_one_empty_chunk() {
    let mut console = engine(16);
    console.subscribe(1, Some(Callback { token: 1 }), 1);
    console.allow(1, 1, Some(pattern(4)));
    let (result, request) = console.command(1, 0, 0, 1);
    assert_eq!(result, Ok(()));
    let (sizes, sent, completions) = drain(&mut console, request);
    assert_eq!(sizes, vec![0]);
    assert!(sent.is_empty());
    assert_eq!(
        completions,
        vec![WriteDone { process: 1, callback: Some(Callback { token: 1 }), result: Ok(0) }]
    );
}

#[test]
fn start_write_without_a_buffer_is_busy() {
    let mut console = engine(16);
    let (result, request) = console.command(1, 10, 0, 4);
    assert_eq!(result, Err(ErrorCode::Busy));
    assert_eq!(request, None);
    assert_eq!(console.tx_owner(), None);
}

#[test]
fn start_write_again_after_the_last_chunk_is_busy() {
    let mut console = engine(16);
    console.allow(4, 1, Some(pattern(10)));
    let (first, _) = console.command(1, 10, 0, 4);
    assert_eq!(first, Ok(()));
    let (second, request) = console.command(1, 10, 0, 4);
    assert_eq!(second, Err(ErrorCode::Busy));
    assert_eq!(request, None);
    assert!(!console.app(4).unwrap().pending_write());
}

#[test]
fn every_process_gets_all_its_bytes_and_its_length_reported() {
    let mut console = engine(16);
    let lengths = [100usize, 33, 16, 1, 250];
    for (p, len) in lengths.iter().enumerate() {
        console.subscribe(1, Some(Callback { token: 100 + p }), p);
        console.allow(p, 1, Some(vec![p as u8 + 1; *len]));
    }
    let mut request = None;
    for (p, len) in lengths.iter().enumerate() {
        let (result, r) = console.command(1, *len, 0, p);
        assert_eq!(result, Ok(()));
        if p == 0 {
            assert!(r.is_some());
            request = r;
        } else {
            assert_eq!(r, None);
        }
    }
    let mut bytes = vec![0usize; lengths.len()];
    let mut reported: Vec<Vec<Result<usize, ErrorCode>>> = vec![Vec::new(); lengths.len()];
    while let Some(Request::Transmit { process, buffer, len }) = request {
        assert_eq!(console.tx_owner(), Some(process));
        assert!(buffer[..len].iter().all(|b| *b == process as u8 + 1));
        assert!(reported[process].is_empty());
        bytes[process] += len;
        let (next, done) = console.transmitted_buffer(buffer, len, Ok(()));
        for d in done {
            assert_eq!(d.callback, Some(Callback { token: 100 + d.process }));
            reported[d.process].push(d.result);
        }
        request = next;
    }
    for (p, len) in lengths.iter().enumerate() {
        assert_eq!(bytes[p], *len);
        assert_eq!(reported[p], vec![Ok(*len)]);
    }
    assert_eq!(console.tx_owner(), None);
}

#[test]
fn replacing_the_buffer_by_a_shorter_one_mid_write_loses_the_write() {
    let mut console = engine(4);
    console.subscribe(1, Some(Callback { token: 9 }), 1);
    console.allow(1, 1, Some(pattern(12)));
    let (_, request) = console.command(1, 12, 0, 1);
    assert_eq!(console.allow(1, 1, Some(pattern(3))), Ok(()));
    let buffer = match request {
        Some(Request::Transmit { buffer, .. }) => buffer,
        other => panic!("unexpected request {:?}", other),
    };
    let (request, done) = console.transmitted_buffer(buffer, 4, Ok(()));
    assert_eq!(request, None);
    assert_eq!(
        done,
        vec![WriteDone {
            process: 1,
            callback: Some(Callback { token: 9 }),
            result: Err(ErrorCode::InternalReservation)
        }]
    );
    let app = console.app(1).unwrap();
    assert_eq!(app.write_len(), 0);
    assert_eq!(app.write_remaining(), 0);
    assert!(app.write_buffer().is_none());
    assert!(!app.pending_write());
    assert_eq!(app.write_callback(), Some(Callback { token: 9 }));
    assert_eq!(console.tx_owner(), None);
}

#[test]
fn withdrawing_the_buffer_mid_write_loses_the_write() {
    let mut console = engine(4);
    console.allow(1, 1, Some(pattern(12)));
    let (_, request) = console.command(1, 12, 0, 1);
    assert_eq!(console.allow(1, 1, None), Ok(()));
    let buffer = match request {
        Some(Request::Transmit { buffer, .. }) => buffer,
        other => panic!("unexpected request {:?}", other),
    };
    let (request, done) = console.transmitted_buffer(buffer, 4, Ok(()));
    assert_eq!(request, None);
    assert_eq!(
        done,
        vec![WriteDone { process: 1, callback: None, result: Err(ErrorCode::InternalReservation) }]
    );
}

#[test]
fn replacing_the_buffer_does_not_cancel_the_chunk_in_flight() {
    let mut console = engine(8);
    console.allow(1, 1, Some(vec![1, 2, 3, 4]));
    let (_, request) = console.command(1, 4, 0, 1);
    assert_eq!(console.allow(1, 1, Some(vec![9, 9])), Ok(()));
    assert_eq!(console.tx_owner(), Some(1));
    let (sizes, sent, completions) = drain(&mut console, request);
    assert_eq!(sizes, vec![4]);
    assert_eq!(sent, vec![1, 2, 3, 4]);
    assert_eq!(completions, vec![WriteDone { process: 1, callback: None, result: Ok(4) }]);
    assert_eq!(console.app(1).unwrap().write_buffer(), &Some(vec![9, 9]));
}

#[test]
fn chunk_size_follows_the_returned_buffer() {
    let mut console = engine(4);
    console.allow(1, 1, Some(pattern(10)));
    let (_, request) = console.command(1, 10, 0, 1);
    match request {
        Some(Request::Transmit { len, .. }) => assert_eq!(len, 4),
        other => panic!("unexpected request {:?}", other),
    }
    let (request, done) = console.transmitted_buffer(vec![0u8; 5], 4, Ok(()));
    assert!(done.is_empty());
    assert_eq!(
        request,
        Some(Request::Transmit { process: 1, buffer: pattern(10)[4..9].to_vec(), len: 5 })
    );
    let (request, done) = console.transmitted_buffer(vec![7u8; 5], 5, Ok(()));
    assert!(done.is_empty());
    assert_eq!(request, Some(Request::Transmit { process: 1, buffer: vec![9, 7, 7, 7, 7], len: 1 }));
}

#[test]
fn spurious_completion_only_replaces_the_idle_buffer() {
    let mut console = engine(4);
    let (request, done) = console.transmitted_buffer(vec![0u8; 6], 0, Ok(()));
    assert_eq!(request, None);
    assert!(done.is_empty());
    assert_eq!(console.tx_owner(), None);
    console.allow(1, 1, Some(pattern(10)));
    let (_, request) = console.command(1, 10, 0, 1);
    match request {
        Some(Request::Transmit { len, buffer, .. }) => {
            assert_eq!(len, 6);
            assert_eq!(buffer.len(), 6);
        }
        other => panic!("unexpected request {:?}", other),
    }
}

#[test]
fn finished_write_is_reported_by_the_completion_with_its_length() {
    let mut console = engine(6);
    console.subscribe(1, Some(Callback { token: 3 }), 1);
    console.allow(1, 1, Some(pattern(5)));
    let (_, request) = console.command(1, 5, 0, 1);
    // The single chunk is out: nothing remains, and the length is still
    // there for the completion to report.
    let app = console.app(1).unwrap();
    assert_eq!(app.write_remaining(), 0);
    assert_eq!(app.write_len(), 5);
    let buffer = match request {
        Some(Request::Transmit { buffer, .. }) => buffer,
        other => panic!("unexpected request {:?}", other),
    };
    let (request, done) = console.transmitted_buffer(buffer, 5, Ok(()));
    assert_eq!(request, None);
    assert_eq!(
        done,
        vec![WriteDone { process: 1, callback: Some(Callback { token: 3 }), result: Ok(5) }]
    );
    assert_eq!(console.app(1).unwrap().write_len(), 0);
    assert_eq!(console.tx_owner(), None);
}
