use bitfrost::peer_worker::{PeerWorker, Reason, WorkerAction, WorkerEvent};
use bitfrost::torrent::TorrentInfo;

// The digest of `data()`.
const DIGEST: [u8; 20] = [
    0xf1, 0x89, 0x25, 0x2f, 0xa8, 0xfd, 0x47, 0xc4, 0xfc, 0x49, 0xe7, 0xe6, 0xda, 0xde, 0x4d, 0xea,
    0x77, 0xa3, 0x2f, 0x16,
];

fn data() -> Vec<u8> {
    (0..20000u32).map(|i| ((i * 7 + 3) % 256) as u8).collect()
}

fn torrent() -> TorrentInfo {
    TorrentInfo {
        announce_list: vec![],
        name: "f".to_string(),
        piece_length: 32768,
        length: Some(20000),
        pieces: DIGEST.to_vec(),
        info_hash: [0; 20],
    }
}

fn go(worker: &mut PeerWorker, event: WorkerEvent) -> WorkerAction {
    assert!(worker.accepts(&event));
    worker.step(event)
}

fn block(index: u32, begin: u32, bytes: &[u8]) -> WorkerEvent {
    let mut payload = index.to_be_bytes().to_vec();
    payload.extend_from_slice(&begin.to_be_bytes());
    payload.extend_from_slice(bytes);
    WorkerEvent::Message(7, payload)
}

/// A worker that has told its pieces, knows those of the peer, and has piece 0 to download.
fn assigned() -> PeerWorker {
    let mut worker = PeerWorker::new(torrent());
    assert!(matches!(worker.start_worker(), WorkerAction::AskBitfield));
    let bits = vec![false, true].into_boxed_slice();
    match go(&mut worker, WorkerEvent::Bitfield(bits)) {
        WorkerAction::SendBitfield(message) => assert_eq!(message, vec![0, 0, 0, 2, 5, 0x40]),
        _ => panic!("no bitfield message"),
    }
    assert!(matches!(
        go(&mut worker, WorkerEvent::Sent(true)),
        WorkerAction::Read(Some(120))
    ));
    match go(&mut worker, WorkerEvent::Message(5, vec![0x80])) {
        WorkerAction::AskPiece(bits) => {
            assert_eq!(bits.len(), 8);
            assert!(bits[0] && !bits[1]);
        }
        _ => panic!("no question for a piece"),
    }
    match go(&mut worker, WorkerEvent::Assigned(Some(0))) {
        WorkerAction::SendInterested(message) => assert_eq!(message, vec![0, 0, 0, 1, 2]),
        _ => panic!("no interest"),
    }
    assert!(matches!(
        go(&mut worker, WorkerEvent::Sent(true)),
        WorkerAction::Read(Some(120))
    ));
    worker
}

fn request(action: WorkerAction) -> Vec<u8> {
    match action {
        WorkerAction::SendRequest(message) => message,
        _ => panic!("no request"),
    }
}

/// A worker that has asked for both blocks of piece 0.
fn asked() -> PeerWorker {
    let mut worker = assigned();
    assert_eq!(
        request(go(&mut worker, WorkerEvent::Message(1, vec![]))),
        vec![0, 0, 0, 13, 6, 0, 0, 0, 0, 0, 0, 0, 0, 0, 0, 64, 0]
    );
    assert!(matches!(go(&mut worker, WorkerEvent::Sent(true)), WorkerAction::Read(None)));
    assert_eq!(worker.next_block(20000), Some(16384));
    assert_eq!(
        request(go(&mut worker, WorkerEvent::Message(2, vec![]))),
        vec![0, 0, 0, 13, 6, 0, 0, 0, 0, 0, 0, 64, 0, 0, 0, 14, 32]
    );
    assert!(matches!(go(&mut worker, WorkerEvent::Sent(true)), WorkerAction::Read(None)));
    worker
}

#[test]
fn piece_is_downloaded_block_by_block() {
    let mut worker = asked();
    assert!(matches!(
        go(&mut worker, block(0, 16384, &data()[16384..])),
        WorkerAction::Read(None)
    ));
    assert!(!worker.received_all_blocks(20000));
    match go(&mut worker, block(0, 0, &data()[..16384])) {
        WorkerAction::PieceDone(0, piece) => assert_eq!(piece, data()),
        _ => panic!("the piece is not done"),
    }
    assert!(worker.verify_piece(0, &data()));
    assert!(matches!(go(&mut worker, WorkerEvent::Sent(true)), WorkerAction::AskPiece(_)));
}

#[test]
fn worker_asks_five_times_for_the_next_piece() {
    let mut worker = asked();
    go(&mut worker, block(0, 0, &data()[..16384]));
    go(&mut worker, block(0, 16384, &data()[16384..]));
    let mut action = go(&mut worker, WorkerEvent::Sent(true));
    for _ in 0..5 {
        assert!(matches!(action, WorkerAction::AskPiece(_)));
        assert!(matches!(
            go(&mut worker, WorkerEvent::Assigned(None)),
            WorkerAction::Rest(500)
        ));
        action = go(&mut worker, WorkerEvent::Rested);
    }
    assert!(matches!(action, WorkerAction::AskComplete));
    assert!(matches!(
        go(&mut worker, WorkerEvent::Complete(false)),
        WorkerAction::Rest(1000)
    ));
    assert!(matches!(go(&mut worker, WorkerEvent::Rested), WorkerAction::Read(None)));
}

#[test]
fn worker_ends_when_the_download_is_complete() {
    let mut worker = asked();
    go(&mut worker, block(0, 0, &data()[..16384]));
    go(&mut worker, block(0, 16384, &data()[16384..]));
    go(&mut worker, WorkerEvent::Sent(true));
    for _ in 0..5 {
        go(&mut worker, WorkerEvent::Assigned(None));
        go(&mut worker, WorkerEvent::Rested);
    }
    assert!(matches!(go(&mut worker, WorkerEvent::Complete(true)), WorkerAction::Finish));
    assert!(!worker.accepts(&WorkerEvent::Rested));
}

#[test]
fn next_piece_is_asked_for_at_once() {
    let mut worker = asked();
    go(&mut worker, block(0, 0, &data()[..16384]));
    go(&mut worker, block(0, 16384, &data()[16384..]));
    go(&mut worker, WorkerEvent::Sent(true));
    assert_eq!(
        request(go(&mut worker, WorkerEvent::Assigned(Some(0))))[4..13],
        [6, 0, 0, 0, 0, 0, 0, 0, 0]
    );
}

#[test]
fn spoilt_piece_is_given_back() {
    let mut worker = asked();
    go(&mut worker, block(0, 0, &data()[..16384]));
    assert!(matches!(
        go(&mut worker, block(0, 16384, &data()[1..3617])),
        WorkerAction::Terminate(Reason::VerificationFailed, Some(0))
    ));
}

#[test]
fn lost_connection_gives_the_piece_back() {
    let mut worker = asked();
    assert!(!worker.accepts(&WorkerEvent::TimedOut));
    assert!(matches!(
        go(&mut worker, WorkerEvent::Lost),
        WorkerAction::Terminate(Reason::ConnectionLost, Some(0))
    ));
    assert!(!worker.accepts(&WorkerEvent::Lost));
}

#[test]
fn choked_worker_times_out() {
    let mut worker = asked();
    assert!(matches!(
        go(&mut worker, WorkerEvent::Message(0, vec![])),
        WorkerAction::Read(Some(120))
    ));
    assert!(matches!(
        go(&mut worker, WorkerEvent::TimedOut),
        WorkerAction::Terminate(Reason::TimedOut, Some(0))
    ));
}

#[test]
fn request_that_cannot_be_sent_ends_the_worker() {
    let mut worker = assigned();
    go(&mut worker, WorkerEvent::Message(1, vec![]));
    assert!(matches!(
        go(&mut worker, WorkerEvent::Sent(false)),
        WorkerAction::Terminate(Reason::RequestFailed, Some(0))
    ));
}

#[test]
fn interest_that_cannot_be_sent_is_an_error() {
    let mut worker = PeerWorker::new(torrent());
    worker.start_worker();
    go(&mut worker, WorkerEvent::Bitfield(vec![false; 8].into_boxed_slice()));
    go(&mut worker, WorkerEvent::Message(5, vec![0x80]));
    go(&mut worker, WorkerEvent::Assigned(Some(0)));
    assert!(matches!(go(&mut worker, WorkerEvent::Sent(false)), WorkerAction::Abort));
}

#[test]
fn peer_without_a_useful_piece_is_read_on() {
    let mut worker = PeerWorker::new(torrent());
    worker.start_worker();
    go(&mut worker, WorkerEvent::Bitfield(vec![true].into_boxed_slice()));
    go(&mut worker, WorkerEvent::Sent(true));
    go(&mut worker, WorkerEvent::Message(5, vec![0]));
    assert!(matches!(
        go(&mut worker, WorkerEvent::Assigned(None)),
        WorkerAction::Read(Some(120))
    ));
    // The peer has got the piece in the meantime.
    assert!(matches!(
        go(&mut worker, WorkerEvent::Message(4, vec![0, 0, 0, 0])),
        WorkerAction::RequestPiece(0)
    ));
    assert!(matches!(
        go(&mut worker, WorkerEvent::Granted(true)),
        WorkerAction::Read(Some(120))
    ));
    assert_eq!(request(go(&mut worker, WorkerEvent::Message(1, vec![])))[13..], [0, 0, 64, 0]);
}

#[test]
fn block_of_another_piece_is_passed_over() {
    let mut worker = asked();
    assert!(matches!(
        go(&mut worker, block(3, 0, &data()[..16384])),
        WorkerAction::Read(None)
    ));
    assert!(!worker.received_all_blocks(20000));
}

#[test]
fn messages_that_are_too_short_or_too_long_are_not_taken() {
    let worker = asked();
    assert!(!worker.accepts(&WorkerEvent::Message(4, vec![0, 0, 0])));
    assert!(!worker.accepts(&WorkerEvent::Message(7, vec![0, 0, 0])));
    assert!(!worker.accepts(&WorkerEvent::Message(7, vec![0, 0, 0, 0, 0])));
    assert!(!worker.accepts(&block(0, 19999, &[1, 2])));
    assert!(worker.accepts(&block(0, 19999, &[1])));
}

#[test]
fn five_requests_go_out_without_an_answer() {
    let mut big = torrent();
    big.piece_length = 16384 * 8;
    big.length = Some(16384 * 8);
    let mut worker = PeerWorker::new(big);
    worker.start_worker();
    go(&mut worker, WorkerEvent::Bitfield(vec![false; 8].into_boxed_slice()));
    go(&mut worker, WorkerEvent::Message(5, vec![0x80]));
    go(&mut worker, WorkerEvent::Assigned(Some(0)));
    go(&mut worker, WorkerEvent::Sent(true));
    for i in 0..5u32 {
        let message = request(go(&mut worker, WorkerEvent::Message(1, vec![])));
        assert_eq!(message[9..13], (i * 16384).to_be_bytes());
        go(&mut worker, WorkerEvent::Sent(true));
    }
    assert!(matches!(
        go(&mut worker, WorkerEvent::Message(1, vec![])),
        WorkerAction::Read(None)
    ));
}

#[test]
fn no_bitfield_goes_out_without_a_piece() {
    for bits in [vec![], vec![false; 8]] {
        let mut worker = PeerWorker::new(torrent());
        worker.start_worker();
        assert!(matches!(
            go(&mut worker, WorkerEvent::Bitfield(bits.into_boxed_slice())),
            WorkerAction::Read(Some(120))
        ));
    }
}

#[test]
fn worker_without_leave_has_no_piece() {
    let mut worker = PeerWorker::new(torrent());
    worker.start_worker();
    go(&mut worker, WorkerEvent::Bitfield(vec![].into_boxed_slice()));
    go(&mut worker, WorkerEvent::Message(1, vec![]));
    go(&mut worker, WorkerEvent::Message(4, vec![0, 0, 0, 0]));
    assert!(matches!(go(&mut worker, WorkerEvent::Granted(false)), WorkerAction::Read(None)));
    assert!(matches!(
        go(&mut worker, WorkerEvent::Message(4, vec![0, 0, 0, 0])),
        WorkerAction::RequestPiece(0)
    ));
    go(&mut worker, WorkerEvent::Granted(false));
    assert!(matches!(
        go(&mut worker, WorkerEvent::Lost),
        WorkerAction::Terminate(Reason::ConnectionLost, None)
    ));
}

#[test]
fn second_bitfield_keeps_the_piece_under_way() {
    let mut worker = asked();
    go(&mut worker, block(0, 0, &data()[..16384]));
    match go(&mut worker, WorkerEvent::Message(5, vec![0xff])) {
        WorkerAction::SendInterested(message) => assert_eq!(message, vec![0, 0, 0, 1, 2]),
        _ => panic!("no interest"),
    }
    assert!(matches!(go(&mut worker, WorkerEvent::Sent(true)), WorkerAction::Read(None)));
    match go(&mut worker, block(0, 16384, &data()[16384..])) {
        WorkerAction::PieceDone(0, piece) => assert_eq!(piece, data()),
        _ => panic!("the piece is not done"),
    }
    match go(&mut worker, WorkerEvent::Sent(true)) {
        WorkerAction::AskPiece(bits) => assert!(bits.iter().all(|b| *b)),
        _ => panic!("no question for a piece"),
    }
}

#[test]
fn worker_learns_what_the_peer_has_got() {
    let mut worker = asked();
    go(&mut worker, WorkerEvent::Message(4, vec![0, 0, 0, 7]));
    go(&mut worker, WorkerEvent::Message(4, vec![0, 0, 0, 8]));
    go(&mut worker, block(0, 0, &data()[..16384]));
    go(&mut worker, block(0, 16384, &data()[16384..]));
    match go(&mut worker, WorkerEvent::Sent(true)) {
        WorkerAction::AskPiece(bits) => {
            assert_eq!(bits.to_vec(), vec![true, false, false, false, false, false, false, true])
        }
        _ => panic!("no question for a piece"),
    }
}

#[test]
fn finished_piece_is_neither_asked_for_nor_given_back() {
    let mut worker = asked();
    go(&mut worker, block(0, 0, &data()[..16384]));
    go(&mut worker, block(0, 16384, &data()[16384..]));
    go(&mut worker, WorkerEvent::Sent(true));
    for _ in 0..5 {
        go(&mut worker, WorkerEvent::Assigned(None));
        go(&mut worker, WorkerEvent::Rested);
    }
    go(&mut worker, WorkerEvent::Complete(false));
    go(&mut worker, WorkerEvent::Rested);
    assert!(matches!(
        go(&mut worker, WorkerEvent::Message(2, vec![])),
        WorkerAction::Read(None)
    ));
    assert!(matches!(
        go(&mut worker, block(0, 0, &data()[..16384])),
        WorkerAction::Read(None)
    ));
    assert!(matches!(
        go(&mut worker, WorkerEvent::Lost),
        WorkerAction::Terminate(Reason::ConnectionLost, None)
    ));
}
