use soul_core::pipe::{OutputPipe, TermEvent, FLUSH_INTERVAL_MS, MAX_FLUSH_BYTES};

fn data_bytes(evs: &[TermEvent]) -> Vec<u8> {
    let mut out = Vec::new();
    for ev in evs {
        if let TermEvent::Data { bytes, .. } = ev {
            out.extend_from_slice(bytes);
        }
    }
    out
}

fn exit_count(evs: &[TermEvent]) -> usize {
    evs.iter().filter(|e| matches!(e, TermEvent::Exit { .. })).count()
}

#[test]
fn flush_interval_is_short() {
    assert!(FLUSH_INTERVAL_MS <= 100);
}

#[test]
fn bytes_delivered_in_order_across_ticks() {
    // a producer slower than the flush interval: every byte appears after
    // the next tick, and the concatenation of all data payloads equals the
    // concatenation of everything produced, in order
    let mut pipe = OutputPipe::new(7);
    let mut published: Vec<u8> = Vec::new();
    let mut produced: Vec<u8> = Vec::new();

    for chunk in [&b"hello "[..], &b"world"[..], &b"!\n"[..]] {
        pipe.append(chunk);
        produced.extend_from_slice(chunk);
        let evs = pipe.flush_tick();
        published.extend_from_slice(&data_bytes(&evs));
        assert_eq!(exit_count(&evs), 0);
    }
    assert_eq!(published, produced);
}

#[test]
fn single_burst_then_silence_is_still_delivered() {
    // the flusher's periodic drain alone triggers delivery: the reader
    // appends once and never again, and the data still arrives
    let mut pipe = OutputPipe::new(1);
    pipe.append(b"prompt> ");
    let evs = pipe.flush_tick();
    assert_eq!(data_bytes(&evs), b"prompt> ".to_vec());
    assert_eq!(exit_count(&evs), 0);
    // nothing new arrived: the next tick publishes nothing
    let evs2 = pipe.flush_tick();
    assert!(evs2.is_empty());
}

#[test]
fn oversized_drain_is_split_never_dropped() {
    let mut pipe = OutputPipe::new(2);
    let big = vec![0xabu8; MAX_FLUSH_BYTES + 1234];
    pipe.append(&big);
    let evs = pipe.flush_tick();
    let mut sizes = Vec::new();
    for ev in &evs {
        if let TermEvent::Data { id, bytes } = ev {
            assert_eq!(*id, 2);
            assert!(!bytes.is_empty());
            assert!(bytes.len() <= MAX_FLUSH_BYTES);
            sizes.push(bytes.len());
        }
    }
    assert_eq!(sizes, vec![MAX_FLUSH_BYTES, 1234]);
    assert_eq!(data_bytes(&evs), big);
}

#[test]
fn exit_event_published_exactly_once_after_last_data() {
    let mut pipe = OutputPipe::new(3);
    pipe.append(b"tail");
    pipe.mark_finished();
    let evs = pipe.flush_tick();
    // the final drain still carries the data that arrived before the end
    assert_eq!(data_bytes(&evs), b"tail".to_vec());
    assert_eq!(exit_count(&evs), 1);
    assert!(matches!(evs.last(), Some(TermEvent::Exit { id: 3 })));
    // and the exit event is never repeated
    let evs2 = pipe.flush_tick();
    assert!(evs2.is_empty());
}

#[test]
fn terminal_scenario_echo_then_close() {
    // create a session, write a command, let the fake backend echo it:
    // the concatenated payload contains "hi", and closing the stream yields
    // exactly one exit event and no further data
    let mut mgr = soul_core::pty::PtyManager::new(String::from("/tmp/soul"));
    let id = mgr.create();
    let mut pipe = OutputPipe::new(id);

    // the command layer forwards the write; the backend echoes it back
    assert!(mgr.write(id).is_ok());
    let echoed = b"echo hi\r\nhi\r\n";
    pipe.append(echoed);
    let evs = pipe.flush_tick();
    let text = String::from_utf8(data_bytes(&evs)).unwrap();
    assert!(text.contains("hi"));
    assert_eq!(exit_count(&evs), 0);

    // close: the driver kills the child, the reader sees end-of-stream
    assert!(mgr.close(id));
    pipe.mark_finished();
    let evs = pipe.flush_tick();
    assert_eq!(data_bytes(&evs), Vec::<u8>::new());
    assert_eq!(exit_count(&evs), 1);
    let evs = pipe.flush_tick();
    assert!(evs.is_empty());
}
