use tcp_transfer::codec::{encode_header, Handshake, HeaderDecoder};
use tcp_transfer::engine::{after_read, WorkerAction};
use tcp_transfer::gate::{at_least_one, parallelism, Gate};
use tcp_transfer::naming::{base_name, file_name_for, name_or_default, scheme_len};
use tcp_transfer::progress::{chunk_count, Progress};
use tcp_transfer::session::{Role, Session, SessionError, SessionState, CHUNK_SIZE};

#[test]
fn progress_counts_and_refuses_overshoot() {
    let mut p = Progress::new(10);
    assert!(p.advance(4));
    assert!(p.advance(6));
    assert!(p.is_complete());
    assert!(!p.advance(1));
    assert_eq!(p.value(), 10);
    assert_eq!(p.remaining(), 0);
}

#[test]
fn chunk_counts() {
    assert_eq!(chunk_count(0, 65536), 0);
    assert_eq!(chunk_count(1, 65536), 1);
    assert_eq!(chunk_count(65536, 65536), 1);
    assert_eq!(chunk_count(65537, 65536), 2);
    assert_eq!(chunk_count(10_000_000, 65536), 153);
    assert_eq!(chunk_count(u64::MAX, 65536), u64::MAX / 65536 + 1);
    assert_eq!(chunk_count(u64::MAX, 1), u64::MAX);
}

#[test]
fn invalid_name_gets_default() {
    assert_eq!(file_name_for(vec![0xff, 0xfe, b'a']), "received_file");
    assert_eq!(name_or_default(None), "received_file");
    assert_eq!(file_name_for(b"hi.txt".to_vec()), "hi.txt");
    assert_eq!(file_name_for("é.txt".as_bytes().to_vec()), "é.txt");
}

#[test]
fn base_names() {
    assert_eq!(base_name(b"/home/u/docs/report.pdf"), b"report.pdf".to_vec());
    assert_eq!(base_name(b"report.pdf"), b"report.pdf".to_vec());
    assert_eq!(base_name(b"dir/"), b"".to_vec());
    assert_eq!(base_name(b""), b"".to_vec());
}

#[test]
fn scheme_is_stripped() {
    assert_eq!(scheme_len(b"tcp://127.0.0.1:8000"), 6);
    assert_eq!(scheme_len(b"127.0.0.1:8000"), 0);
    assert_eq!(scheme_len(b"tcp:/"), 0);
}

#[test]
fn gate_blocks_past_capacity() {
    let n = 3;
    let mut g = Gate::new(n);
    for _ in 0..n {
        assert!(g.try_acquire());
    }
    assert!(!g.try_acquire());
    assert_eq!(g.held(), n);
    g.release();
    assert_eq!(g.available(), 1);
    assert!(g.try_acquire());
    assert!(!g.try_acquire());
}

#[test]
fn parallelism_is_positive() {
    assert!(parallelism() >= 1);
    assert_eq!(at_least_one(0), 1);
    assert_eq!(at_least_one(4), 4);
}

#[test]
fn worker_decisions() {
    assert_eq!(after_read(Some(0), CHUNK_SIZE), WorkerAction::Stop(None));
    assert_eq!(after_read(Some(100), CHUNK_SIZE), WorkerAction::Write(100));
    assert_eq!(after_read(None, CHUNK_SIZE), WorkerAction::Stop(Some(SessionError::Io)));
    assert_eq!(after_read(Some(CHUNK_SIZE + 1), CHUNK_SIZE), WorkerAction::Stop(Some(SessionError::Io)));
}

#[test]
fn empty_file_completes_with_zero() {
    let mut s = Session::new(Role::Receiver);
    assert_eq!(s.state(), SessionState::Admitted);
    assert!(s.grant_permit());
    assert!(s.start_streaming(0, 2));
    s.worker_done(None);
    s.worker_done(None);
    assert_eq!(s.state(), SessionState::Completed);
    assert_eq!(s.transferred(), 0);
}

#[test]
fn no_workers_ends_at_once() {
    let mut s = Session::new(Role::Sender);
    s.grant_permit();
    assert!(s.start_streaming(0, 0));
    assert_eq!(s.state(), SessionState::Completed);
    let mut t = Session::new(Role::Sender);
    t.grant_permit();
    t.start_streaming(5, 0);
    assert_eq!(t.state(), SessionState::Failed(SessionError::ShortPayload));
}

#[test]
fn out_of_order_events_change_nothing() {
    let mut s = Session::new(Role::Receiver);
    assert!(!s.start_streaming(5, 1));
    s.chunk_moved(3);
    s.worker_done(None);
    assert_eq!(s.state(), SessionState::Admitted);
    assert_eq!(s.transferred(), 0);
    assert!(s.grant_permit());
    assert!(!s.grant_permit());
}

#[test]
fn large_transfer_counts_every_byte() {
    let size: usize = 10_000_000;
    let payload: Vec<u8> = (0..size).map(|i| (i % 251) as u8).collect();
    let mut w = encode_header(size as u64, b"big.bin").unwrap();
    w.extend_from_slice(&payload);

    let mut s = Session::new(Role::Receiver);
    assert!(s.grant_permit());
    let mut d = HeaderDecoder::new();
    let mut pos = 0;
    let frame = loop {
        let end = usize::min(pos + CHUNK_SIZE, w.len());
        match d.feed(&w[pos..end]) {
            Handshake::Pending => pos = end,
            Handshake::Done(f) => {
                pos = end;
                break f;
            }
            Handshake::Failed(e) => panic!("{:?}", e),
        }
    };
    let workers = 4;
    assert!(s.start_streaming(frame.file_size, workers));
    let mut file = frame.payload.clone();
    s.chunk_moved(frame.payload.len() as u64);
    let mut turn = 0;
    let mut live = vec![true; workers];
    while live.iter().any(|l| *l) {
        let k = turn % workers;
        turn += 1;
        if !live[k] {
            continue;
        }
        let end = usize::min(pos + CHUNK_SIZE, w.len());
        match after_read(Some(end - pos), CHUNK_SIZE) {
            WorkerAction::Write(n) => {
                file.extend_from_slice(&w[pos..pos + n]);
                pos += n;
                s.chunk_moved(n as u64);
            }
            WorkerAction::Stop(e) => {
                live[k] = false;
                s.worker_done(e);
            }
        }
    }
    assert_eq!(file, payload);
    assert_eq!(s.state(), SessionState::Completed);
    assert_eq!(s.transferred(), 10_000_000);
    assert_eq!(s.file_size(), 10_000_000);
}

#[test]
fn sender_closing_early_fails_the_session() {
    let mut s = Session::new(Role::Receiver);
    s.grant_permit();
    s.start_streaming(100, 2);
    s.chunk_moved(40);
    s.worker_done(None);
    s.worker_done(None);
    assert_eq!(s.state(), SessionState::Failed(SessionError::ShortPayload));
    assert!(s.transferred() < s.file_size());
}

#[test]
fn first_worker_error_wins() {
    let mut s = Session::new(Role::Sender);
    s.grant_permit();
    s.start_streaming(100, 3);
    s.chunk_moved(100);
    s.worker_done(None);
    s.worker_done(Some(SessionError::Io));
    s.worker_done(Some(SessionError::Worker));
    assert_eq!(s.state(), SessionState::Failed(SessionError::Io));
}

#[test]
fn overshoot_fails_the_session() {
    let mut s = Session::new(Role::Receiver);
    s.grant_permit();
    s.start_streaming(5, 1);
    s.chunk_moved(4);
    s.chunk_moved(4);
    assert_eq!(s.transferred(), 4);
    s.worker_done(None);
    assert_eq!(s.state(), SessionState::Failed(SessionError::OversizedPayload));
}

#[test]
fn failure_is_terminal() {
    let mut s = Session::new(Role::Receiver);
    s.grant_permit();
    s.fail(SessionError::Io);
    assert_eq!(s.state(), SessionState::Failed(SessionError::Io));
    assert!(s.is_finished());
    s.fail(SessionError::Worker);
    assert_eq!(s.state(), SessionState::Failed(SessionError::Io));
    assert_eq!(s.role(), Role::Receiver);
}
