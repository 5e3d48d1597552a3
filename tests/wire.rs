use distance_log::framing::{encode_frame, parse_json_rpc_header, HeaderParse};
use distance_log::transport::{Action, Event, Phase, RequestIds, TransportWorker};

#[test]
fn encoded_frame_reads_back() {
    let body = br#"{"method":"GetPersonaName","params":[5],"id":1}"#;
    let frame = encode_frame(body);
    let header = format!("Content-Length: {}\r\n\r\n", body.len());
    assert_eq!(&frame[..header.len()], header.as_bytes());
    assert_eq!(&frame[header.len()..], &body[..]);
    assert_eq!(
        parse_json_rpc_header(&frame),
        HeaderParse::Complete { length: body.len(), consumed: header.len() }
    );
}

#[test]
fn empty_body_frame() {
    let frame = encode_frame(b"");
    assert_eq!(frame, b"Content-Length: 0\r\n\r\n".to_vec());
}

#[test]
fn header_after_blank_lines() {
    let buf = b"\r\n\r\nContent-Length: 123\r\n\r\n{...";
    assert_eq!(parse_json_rpc_header(buf), HeaderParse::Complete { length: 123, consumed: 27 });
}

#[test]
fn partial_headers_need_more_bytes() {
    for buf in [
        &b""[..],
        b"\r",
        b"\r\nContent-Le",
        b"Content-Length: ",
        b"Content-Length: 42",
        b"Content-Length: 42\r\n\r",
    ] {
        assert_eq!(parse_json_rpc_header(buf), HeaderParse::Incomplete, "{:?}", buf);
    }
}

#[test]
fn malformed_headers_are_refused() {
    for buf in [
        &b"Content-Type: 4\r\n\r\n"[..],
        b"Content-Length: \r\n\r\n",
        b"Content-Length: 4\n\n",
        b"Content-Length: x",
        b"\rX",
        b"Content-Length: 99999999999999999999999999\r\n\r\n",
    ] {
        assert_eq!(parse_json_rpc_header(buf), HeaderParse::Invalid, "{:?}", buf);
    }
}

#[test]
fn request_ids_count_up_and_wrap() {
    let mut ids = RequestIds::new();
    assert_eq!(ids.get_next_id(), 1);
    assert_eq!(ids.get_next_id(), 2);
    ids.id = u64::MAX;
    assert_eq!(ids.get_next_id(), 0);
}

/// A connection that fails its `fail_on`-th write (counting from 1) and
/// answers every request written whole with "reply-<request>".
struct SimulatedConnection {
    writes: usize,
    fail_on: usize,
    last_written: Option<Vec<u8>>,
    reconnects: usize,
}

fn drive(worker: &mut TransportWorker, conn: &mut SimulatedConnection) -> Option<(u64, Vec<u8>)> {
    loop {
        let event = match worker.next_action() {
            Action::Wait => return None,
            Action::Write { frame } => {
                conn.writes += 1;
                if conn.writes == conn.fail_on {
                    Event::IoFailed
                } else {
                    conn.last_written = Some(frame);
                    Event::Written
                }
            }
            Action::ReadHeader => {
                let body = reply_for(conn.last_written.as_ref().unwrap());
                Event::HeaderRead { length: body.len() }
            }
            Action::ReadBody { length } => {
                let body = reply_for(conn.last_written.as_ref().unwrap());
                assert_eq!(body.len(), length);
                Event::BodyRead { body }
            }
            Action::Reconnect => {
                conn.reconnects += 1;
                Event::Reconnected
            }
        };
        if let Some(d) = worker.on_event(event) {
            return Some((d.id, d.body));
        }
    }
}

fn reply_for(frame: &[u8]) -> Vec<u8> {
    let start = frame.windows(4).position(|w| w == b"\r\n\r\n").unwrap() + 4;
    let mut reply = b"reply-".to_vec();
    reply.extend_from_slice(&frame[start..]);
    reply
}

#[test]
fn failed_write_is_retried_after_reconnect() {
    let mut worker = TransportWorker::new();
    let mut conn = SimulatedConnection { writes: 0, fail_on: 2, last_written: None, reconnects: 0 };
    for (id, payload) in [(1u64, "a"), (2, "b"), (3, "c")] {
        assert!(worker.on_event(Event::Submitted { id, payload: payload.as_bytes().to_vec() }).is_none());
    }
    let mut delivered = Vec::new();
    while let Some((id, body)) = drive(&mut worker, &mut conn) {
        delivered.push((id, String::from_utf8(body).unwrap()));
    }
    assert_eq!(
        delivered,
        vec![(1, "reply-a".to_string()), (2, "reply-b".to_string()), (3, "reply-c".to_string())]
    );
    assert_eq!(conn.reconnects, 1);
    assert_eq!(conn.writes, 4);
    assert_eq!(worker.phase, Phase::Idle);
    assert!(worker.queue.is_empty());
}

#[test]
fn failure_keeps_queue_and_rewrites_head() {
    let mut worker = TransportWorker::new();
    worker.on_event(Event::Submitted { id: 7, payload: b"x".to_vec() });
    worker.on_event(Event::Written);
    worker.on_event(Event::HeaderRead { length: 3 });
    assert_eq!(worker.phase, Phase::AwaitingBody { length: 3 });
    worker.on_event(Event::IoFailed);
    assert_eq!(worker.phase, Phase::Reconnecting);
    assert_eq!(worker.queue.len(), 1);
    worker.on_event(Event::Reconnected);
    match worker.next_action() {
        Action::Write { frame } => assert_eq!(frame, b"Content-Length: 1\r\n\r\nx".to_vec()),
        other => panic!("expected a write, got {:?}", other),
    }
}

#[test]
fn body_of_wrong_length_is_not_delivered() {
    let mut worker = TransportWorker::new();
    worker.on_event(Event::Submitted { id: 1, payload: b"q".to_vec() });
    worker.on_event(Event::Written);
    worker.on_event(Event::HeaderRead { length: 5 });
    assert!(worker.on_event(Event::BodyRead { body: b"abc".to_vec() }).is_none());
    assert_eq!(worker.queue.len(), 1);
    let d = worker.on_event(Event::BodyRead { body: b"abcde".to_vec() }).unwrap();
    assert_eq!(d.id, 1);
    assert_eq!(worker.phase, Phase::Idle);
}
