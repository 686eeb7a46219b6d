use wifi_echo::echo::{chunk_message, echo_step, run_session, EchoAction, MAX_READ};

fn reply_bytes(action: EchoAction) -> Vec<u8> {
    match action {
        EchoAction::Reply(bytes) => bytes,
        EchoAction::Stop => panic!("expected a reply, got a stop"),
    }
}

#[test]
fn echo_step_returns_exact_bytes() {
    let buf: Vec<u8> = b"hello".to_vec();
    let reply = reply_bytes(echo_step(&buf, 5));
    assert_eq!(reply, b"hello".to_vec());
}

#[test]
fn echo_step_partial_buffer() {
    // Only the bytes the read returned are echoed, not the whole buffer.
    let mut buf: Vec<u8> = vec![0u8; MAX_READ];
    buf[0] = b'a';
    buf[1] = b'b';
    buf[2] = b'c';
    let reply = reply_bytes(echo_step(&buf, 3));
    assert_eq!(reply, b"abc".to_vec());
}

#[test]
fn echo_step_full_buffer() {
    let buf: Vec<u8> = (0..MAX_READ).map(|i| (i % 251) as u8).collect();
    let reply = reply_bytes(echo_step(&buf, MAX_READ));
    assert_eq!(reply, buf);
}

#[test]
fn echo_step_single_byte() {
    let buf: Vec<u8> = vec![42u8];
    let reply = reply_bytes(echo_step(&buf, 1));
    assert_eq!(reply, vec![42u8]);
}

#[test]
fn echo_step_zero_read_stops() {
    let buf: Vec<u8> = vec![1u8, 2, 3];
    assert!(matches!(echo_step(&buf, 0), EchoAction::Stop));
}

#[test]
fn session_ping_then_close() {
    // A client sends b"ping", reads back exactly b"ping", then closes;
    // the handler ends cleanly having written nothing more.
    let reads: Vec<Vec<u8>> = vec![b"ping".to_vec(), Vec::new()];
    let out = run_session(&reads);
    assert_eq!(out, b"ping".to_vec());
}

#[test]
fn session_stops_at_close() {
    let reads: Vec<Vec<u8>> = vec![b"before".to_vec(), Vec::new(), b"after".to_vec()];
    let out = run_session(&reads);
    assert_eq!(out, b"before".to_vec());
}

#[test]
fn session_immediate_close_writes_nothing() {
    let reads: Vec<Vec<u8>> = vec![Vec::new()];
    let out = run_session(&reads);
    assert!(out.is_empty());
}

#[test]
fn long_message_echoed_in_chunks() {
    // A 1300-byte message arrives as 512-, 512- and 276-byte reads and is
    // echoed back whole, order and content preserved.
    let data: Vec<u8> = (0..1300u32).map(|i| (i % 241) as u8).collect();
    let chunks = chunk_message(&data);
    assert_eq!(chunks.len(), 3);
    assert_eq!(chunks[0].len(), MAX_READ);
    assert_eq!(chunks[1].len(), MAX_READ);
    assert_eq!(chunks[2].len(), 276);
    let out = run_session(&chunks);
    assert_eq!(out, data);
}

#[test]
fn chunk_message_empty() {
    let data: Vec<u8> = Vec::new();
    let chunks = chunk_message(&data);
    assert!(chunks.is_empty());
}

#[test]
fn chunk_message_exact_boundary() {
    let data: Vec<u8> = vec![9u8; MAX_READ];
    let chunks = chunk_message(&data);
    assert_eq!(chunks.len(), 1);
    assert_eq!(chunks[0], data);

    let data2: Vec<u8> = vec![7u8; 2 * MAX_READ];
    let chunks2 = chunk_message(&data2);
    assert_eq!(chunks2.len(), 2);
    assert_eq!(chunks2[0].len(), MAX_READ);
    assert_eq!(chunks2[1].len(), MAX_READ);
    let out = run_session(&chunks2);
    assert_eq!(out, data2);
}

#[test]
fn five_connections_no_crosstalk() {
    // Five independent sessions, each with its own data: every one gets
    // back exactly what it sent, untouched by the others.
    let inputs: Vec<Vec<u8>> = (0u8..5)
        .map(|k| (0..600u32).map(|i| (i as u8).wrapping_mul(k + 1)).collect())
        .collect();
    let outputs: Vec<Vec<u8>> = inputs
        .iter()
        .map(|data| {
            let mut reads = chunk_message(data);
            reads.push(Vec::new());
            run_session(&reads)
        })
        .collect();
    for (input, output) in inputs.iter().zip(outputs.iter()) {
        assert_eq!(output, input);
    }
}
