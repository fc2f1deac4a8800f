use console::console::Console;
use console::types::{Callback, ErrorCode, Request, WriteDone};

fn engine(capacity: usize) -> Console {
    Console::new(115200, vec![0u8; capacity], vec![0u8; capacity])
}

fn take_buffer(request: Option<Request>) -> Vec<u8> {
    match request {
        Some(Request::Transmit { buffer, .. }) => buffer,
        other => panic!("unexpected request {:?}", other),
    }
}

#[test]
fn first_pending_process_is_started_next() {
    let mut console = engine(8);
    for p in [10usize, 20, 30] {
        console.subscribe(1, Some(Callback { token: p }), p);
        console.allow(p, 1, Some(vec![p as u8; 5]));
    }
    let (ra, request) = console.command(1, 5, 0, 10);
    let (rb, request_b) = console.command(1, 5, 0, 20);
    let (rc, request_c) = console.command(1, 5, 0, 30);
    assert_eq!((ra, rb, rc), (Ok(()), Ok(()), Ok(())));
    assert_eq!(request_b, None);
    assert_eq!(request_c, None);
    assert!(console.app(20).unwrap().pending_write());
    assert!(console.app(30).unwrap().pending_write());
    assert_eq!(console.tx_owner(), Some(10));

    let (request, done) = console.transmitted_buffer(take_buffer(request), 5, Ok(()));
    assert_eq!(
        done,
        vec![WriteDone { process: 10, callback: Some(Callback { token: 10 }), result: Ok(5) }]
    );
    assert_eq!(
        request,
        Some(Request::Transmit { process: 20, buffer: vec![20, 20, 20, 20, 20, 0, 0, 0], len: 5 })
    );
    assert_eq!(console.tx_owner(), Some(20));
    assert!(!console.app(20).unwrap().pending_write());
    assert!(console.app(30).unwrap().pending_write());

    let (request, done) = console.transmitted_buffer(take_buffer(request), 5, Ok(()));
    assert_eq!(
        done,
        vec![WriteDone { process: 20, callback: Some(Callback { token: 20 }), result: Ok(5) }]
    );
    match &request {
        Some(Request::Transmit { process, len, .. }) => {
            assert_eq!(*process, 30);
            assert_eq!(*len, 5);
        }
        other => panic!("unexpected request {:?}", other),
    }
    let (request, done) = console.transmitted_buffer(take_buffer(request), 5, Ok(()));
    assert_eq!(request, None);
    assert_eq!(
        done,
        vec![WriteDone { process: 30, callback: Some(Callback { token: 30 }), result: Ok(5) }]
    );
    assert_eq!(console.tx_owner(), None);
}

#[test]
fn order_of_attachment_decides_not_order_of_requests() {
    let mut console = engine(8);
    console.allow(1, 1, Some(vec![1; 3]));
    console.allow(2, 1, Some(vec![2; 3]));
    console.allow(3, 1, Some(vec![3; 3]));
    let (_, request) = console.command(1, 3, 0, 1);
    console.command(1, 3, 0, 3);
    console.command(1, 3, 0, 2);
    let (request, _) = console.transmitted_buffer(take_buffer(request), 3, Ok(()));
    match request {
        Some(Request::Transmit { process, .. }) => assert_eq!(process, 2),
        other => panic!("unexpected request {:?}", other),
    }
}

#[test]
fn no_second_chunk_enters_the_slot_while_one_is_in_flight() {
    let mut console = engine(4);
    console.allow(1, 1, Some(vec![1; 10]));
    console.allow(2, 1, Some(vec![2; 10]));
    let (_, mut request) = console.command(1, 10, 0, 1);
    let (result, queued) = console.command(1, 10, 0, 2);
    assert_eq!(result, Ok(()));
    assert_eq!(queued, None);
    let mut owners = Vec::new();
    while let Some(Request::Transmit { process, buffer, len }) = request {
        assert_eq!(console.tx_owner(), Some(process));
        assert!(buffer[..len].iter().all(|b| *b == process as u8));
        owners.push(process);
        let (again, none) = console.command(1, 10, 0, 99);
        assert_eq!(again, Err(ErrorCode::Busy));
        assert_eq!(none, None);
        let (next, _) = console.transmitted_buffer(buffer, len, Ok(()));
        request = next;
    }
    assert_eq!(owners, vec![1, 1, 1, 2, 2, 2]);
}

#[test]
fn pending_process_without_its_buffer_is_passed_over_with_an_error() {
    let mut console = engine(8);
    console.subscribe(1, Some(Callback { token: 2 }), 2);
    console.allow(1, 1, Some(vec![1; 3]));
    console.allow(2, 1, Some(vec![2; 3]));
    console.allow(3, 1, Some(vec![3; 3]));
    let (_, request) = console.command(1, 3, 0, 1);
    console.command(1, 3, 0, 2);
    console.command(1, 3, 0, 3);
    assert_eq!(console.allow(2, 1, None), Ok(()));

    let (request, done) = console.transmitted_buffer(take_buffer(request), 3, Ok(()));
    assert_eq!(
        done,
        vec![
            WriteDone { process: 1, callback: None, result: Ok(3) },
            WriteDone {
                process: 2,
                callback: Some(Callback { token: 2 }),
                result: Err(ErrorCode::InternalReservation)
            },
        ]
    );
    match request {
        Some(Request::Transmit { process, len, .. }) => {
            assert_eq!(process, 3);
            assert_eq!(len, 3);
        }
        other => panic!("unexpected request {:?}", other),
    }
    let lost = console.app(2).unwrap();
    assert!(!lost.pending_write());
    assert_eq!(lost.write_len(), 0);
    assert_eq!(lost.write_remaining(), 0);
}

#[test]
fn slot_is_idle_when_every_pending_process_lost_its_buffer() {
    let mut console = engine(8);
    console.allow(1, 1, Some(vec![1; 3]));
    console.allow(2, 1, Some(vec![2; 3]));
    let (_, request) = console.command(1, 3, 0, 1);
    console.command(1, 3, 0, 2);
    console.allow(2, 1, None);
    let (request, done) = console.transmitted_buffer(take_buffer(request), 3, Ok(()));
    assert_eq!(request, None);
    assert_eq!(done.len(), 2);
    assert_eq!(done[1].result, Err(ErrorCode::InternalReservation));
    assert_eq!(console.tx_owner(), None);
    assert!(!console.app(2).unwrap().pending_write());
}

#[test]
fn pending_zero_length_write_is_started_and_reported() {
    let mut console = engine(8);
    console.allow(1, 1, Some(vec![1; 3]));
    console.allow(2, 1, Some(vec![2; 3]));
    let (_, request) = console.command(1, 3, 0, 1);
    let (result, queued) = console.command(1, 0, 0, 2);
    assert_eq!(result, Ok(()));
    assert_eq!(queued, None);
    let (request, _) = console.transmitted_buffer(take_buffer(request), 3, Ok(()));
    match &request {
        Some(Request::Transmit { process, len, .. }) => {
            assert_eq!(*process, 2);
            assert_eq!(*len, 0);
        }
        other => panic!("unexpected request {:?}", other),
    }
    let (request, done) = console.transmitted_buffer(take_buffer(request), 0, Ok(()));
    assert_eq!(request, None);
    assert_eq!(done, vec![WriteDone { process: 2, callback: None, result: Ok(0) }]);
}

#[test]
fn detached_owner_gets_nothing_and_the_next_one_starts() {
    let mut console = engine(4);
    console.allow(1, 1, Some(vec![1; 10]));
    console.allow(2, 1, Some(vec![2; 3]));
    let (_, request) = console.command(1, 10, 0, 1);
    console.command(1, 3, 0, 2);
    console.detach(1);
    assert!(console.app(1).is_none());
    assert_eq!(console.attached_count(), 1);
    assert_eq!(console.tx_owner(), Some(1));
    let (request, done) = console.transmitted_buffer(take_buffer(request), 4, Ok(()));
    assert!(done.is_empty());
    assert_eq!(request, Some(Request::Transmit { process: 2, buffer: vec![2, 2, 2, 1], len: 3 }));
    assert_eq!(console.tx_owner(), Some(2));
}

#[test]
fn detaching_an_unknown_process_changes_nothing() {
    let mut console = engine(4);
    console.allow(1, 1, Some(vec![1; 2]));
    console.detach(5);
    assert_eq!(console.attached_count(), 1);
    assert!(console.app(1).is_some());
}

#[test]
fn detached_process_attaches_afresh_behind_the_others() {
    let mut console = engine(4);
    console.allow(1, 1, Some(vec![1; 2]));
    console.allow(2, 1, Some(vec![2; 2]));
    console.allow(3, 1, Some(vec![3; 2]));
    console.detach(1);
    console.allow(1, 1, Some(vec![1; 2]));
    let (_, request) = console.command(1, 2, 0, 3);
    console.command(1, 2, 0, 1);
    console.command(1, 2, 0, 2);
    let (request, _) = console.transmitted_buffer(take_buffer(request), 2, Ok(()));
    match &request {
        Some(Request::Transmit { process, .. }) => assert_eq!(*process, 2),
        other => panic!("unexpected request {:?}", other),
    }
    let (request, _) = console.transmitted_buffer(take_buffer(request), 2, Ok(()));
    match &request {
        Some(Request::Transmit { process, .. }) => assert_eq!(*process, 1),
        other => panic!("unexpected request {:?}", other),
    }
}

#[test]
fn owner_that_asks_again_mid_write_restarts_with_the_new_length() {
    let mut console = engine(4);
    console.allow(1, 1, Some(vec![1, 2, 3, 4, 5, 6, 7, 8, 9, 10]));
    let (_, request) = console.command(1, 10, 0, 1);
    let (result, none) = console.command(1, 6, 0, 1);
    assert_eq!(result, Ok(()));
    assert_eq!(none, None);
    let app = console.app(1).unwrap();
    assert!(app.pending_write());
    assert_eq!(app.write_len(), 6);
    assert_eq!(app.write_remaining(), 6);

    let (request, done) = console.transmitted_buffer(take_buffer(request), 4, Ok(()));
    assert!(done.is_empty());
    assert_eq!(request, Some(Request::Transmit { process: 1, buffer: vec![5, 6, 7, 8], len: 4 }));
    let (request, done) = console.transmitted_buffer(take_buffer(request), 4, Ok(()));
    assert!(done.is_empty());
    assert_eq!(request, Some(Request::Transmit { process: 1, buffer: vec![9, 10, 7, 8], len: 2 }));
    let (request, done) = console.transmitted_buffer(take_buffer(request), 2, Ok(()));
    assert_eq!(request, None);
    assert_eq!(
        done,
        vec![
            WriteDone { process: 1, callback: None, result: Ok(6) },
            WriteDone { process: 1, callback: None, result: Err(ErrorCode::InternalReservation) },
        ]
    );
    assert_eq!(console.tx_owner(), None);
}
