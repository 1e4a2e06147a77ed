use bitfrost::client::PeerWorker;
use bitfrost::peer_worker::{Reason, WorkerEvent};
use bitfrost::plain_worker::PlainAction;
use bitfrost::torrent::TorrentInfo;

// The digest of the bytes 1, 2, 3 and 4.
const DIGEST: [u8; 20] = [
    0x12, 0xda, 0xda, 0x1f, 0xff, 0x4d, 0x47, 0x87, 0xad, 0xe3, 0x33, 0x31, 0x47, 0x20, 0x2c, 0x3b,
    0x44, 0x3e, 0x37, 0x6f,
];

fn torrent() -> TorrentInfo {
    let mut pieces = DIGEST.to_vec();
    pieces.extend_from_slice(&DIGEST);
    TorrentInfo {
        announce_list: vec![],
        name: "f".to_string(),
        piece_length: 4,
        length: Some(7),
        pieces,
        info_hash: [0; 20],
    }
}

fn go(worker: &mut PeerWorker, event: WorkerEvent) -> PlainAction {
    assert!(worker.accepts(&event));
    worker.step(event)
}

fn block(index: u32, begin: u32, bytes: &[u8]) -> WorkerEvent {
    let mut payload = index.to_be_bytes().to_vec();
    payload.extend_from_slice(&begin.to_be_bytes());
    payload.extend_from_slice(bytes);
    WorkerEvent::Message(7, payload)
}

/// A worker that knows the pieces of the peer and has this piece to download.
fn with_piece(index: usize) -> PeerWorker {
    with_piece_of(torrent(), index)
}

fn with_piece_of(torrent: TorrentInfo, index: usize) -> PeerWorker {
    let mut worker = PeerWorker::new(torrent);
    assert!(matches!(worker.start_worker(), PlainAction::Read(Some(60))));
    assert!(matches!(
        go(&mut worker, WorkerEvent::Message(5, vec![0xc0])),
        PlainAction::AskPiece(_)
    ));
    match go(&mut worker, WorkerEvent::Assigned(Some(index))) {
        PlainAction::SendInterested(message) => assert_eq!(message, vec![0, 0, 0, 1, 2]),
        _ => panic!("no interest"),
    }
    assert!(matches!(go(&mut worker, WorkerEvent::Sent(true)), PlainAction::Read(Some(60))));
    worker
}

fn asked_for(worker: &mut PeerWorker) -> Vec<u8> {
    match go(worker, WorkerEvent::Message(1, vec![])) {
        PlainAction::SendRequest(message) => {
            assert!(matches!(go(worker, WorkerEvent::Sent(true)), PlainAction::Read(None)));
            message
        }
        _ => panic!("no request"),
    }
}

#[test]
fn plain_worker_downloads_a_piece() {
    let mut worker = with_piece(0);
    assert_eq!(
        asked_for(&mut worker),
        vec![0, 0, 0, 13, 6, 0, 0, 0, 0, 0, 0, 0, 0, 0, 0, 0, 4]
    );
    assert_eq!(worker.next_block(), None);
    assert!(!worker.received_all_blocks(4));
    match go(&mut worker, block(0, 0, &[1, 2, 3, 4])) {
        PlainAction::PieceDone(0, piece) => assert_eq!(piece, vec![1, 2, 3, 4]),
        _ => panic!("the piece is not done"),
    }
    assert!(worker.verify_piece(1, &vec![1, 2, 3, 4]));
    assert!(matches!(go(&mut worker, WorkerEvent::Sent(true)), PlainAction::AskPiece(_)));
    assert!(matches!(go(&mut worker, WorkerEvent::Assigned(None)), PlainAction::Read(None)));
}

#[test]
fn plain_worker_starts_afresh_after_a_piece() {
    let mut worker = with_piece(0);
    asked_for(&mut worker);
    go(&mut worker, block(0, 0, &[1, 2, 3, 4]));
    // The requests are gone.
    assert_eq!(worker.next_block(), Some(0));
    assert!(worker.received_all_blocks(0));
    assert!(!worker.received_all_blocks(1));
    go(&mut worker, WorkerEvent::Sent(true));
    // The next piece is the last one, and is cut.
    match go(&mut worker, WorkerEvent::Assigned(Some(1))) {
        PlainAction::SendRequest(message) => assert_eq!(
            message,
            vec![0, 0, 0, 13, 6, 0, 0, 0, 1, 0, 0, 0, 0, 0, 0, 0, 3]
        ),
        _ => panic!("no request"),
    }
    go(&mut worker, WorkerEvent::Sent(true));
    assert!(!worker.accepts(&block(1, 0, &[1, 2, 3, 4])));
    assert!(worker.accepts(&block(1, 0, &[1, 2, 3])));
}

#[test]
fn plain_worker_downloads_two_pieces() {
    let mut worker = with_piece_of(TorrentInfo { length: Some(8), ..torrent() }, 1);
    assert_eq!(asked_for(&mut worker)[13..], [0, 0, 0, 4]);
    match go(&mut worker, block(1, 0, &[1, 2, 3, 4])) {
        PlainAction::PieceDone(1, piece) => assert_eq!(piece, vec![1, 2, 3, 4]),
        _ => panic!("the piece is not done"),
    }
    go(&mut worker, WorkerEvent::Sent(true));
    match go(&mut worker, WorkerEvent::Assigned(Some(0))) {
        PlainAction::SendRequest(message) => {
            assert_eq!(message[5..], [0, 0, 0, 0, 0, 0, 0, 0, 0, 0, 0, 4])
        }
        _ => panic!("no request"),
    }
    go(&mut worker, WorkerEvent::Sent(true));
    match go(&mut worker, block(0, 0, &[1, 2, 3, 4])) {
        PlainAction::PieceDone(0, piece) => assert_eq!(piece, vec![1, 2, 3, 4]),
        _ => panic!("the piece is not done"),
    }
}

#[test]
fn plain_worker_after_the_last_piece_has_a_whole_one() {
    let mut pieces = DIGEST.to_vec();
    // The digest of the bytes 1, 2 and 3.
    pieces.extend_from_slice(&[
        0x70, 0x37, 0x80, 0x71, 0x98, 0xc2, 0x2a, 0x7d, 0x2b, 0x08, 0x07, 0x37, 0x1d, 0x76, 0x37,
        0x79, 0xa8, 0x4f, 0xdf, 0xcf,
    ]);
    let mut worker = with_piece_of(TorrentInfo { pieces, ..torrent() }, 1);
    assert_eq!(asked_for(&mut worker)[13..], [0, 0, 0, 3]);
    match go(&mut worker, block(1, 0, &[1, 2, 3])) {
        PlainAction::PieceDone(1, piece) => assert_eq!(piece, vec![1, 2, 3]),
        _ => panic!("the piece is not done"),
    }
    go(&mut worker, WorkerEvent::Sent(true));
    match go(&mut worker, WorkerEvent::Assigned(Some(0))) {
        PlainAction::SendRequest(message) => assert_eq!(message[13..], [0, 0, 0, 4]),
        _ => panic!("no request"),
    }
    go(&mut worker, WorkerEvent::Sent(true));
    assert!(matches!(
        go(&mut worker, block(0, 0, &[1, 2, 3, 4])),
        PlainAction::PieceDone(0, _)
    ));
}

#[test]
fn plain_worker_asks_for_nothing_past_the_last_piece() {
    // The last piece is one block long, a whole one two.
    for length in [49152, 40000] {
        let torrent = TorrentInfo { piece_length: 32768, length: Some(length), ..torrent() };
        let mut worker = with_piece_of(torrent, 1);
        assert_eq!(
            asked_for(&mut worker)[13..],
            ((length - 32768) as u32).to_be_bytes()
        );
        assert_eq!(worker.next_block(), Some(16384));
        assert!(matches!(
            go(&mut worker, WorkerEvent::Message(4, vec![0, 0, 0, 0])),
            PlainAction::Read(None)
        ));
    }
    let torrent = TorrentInfo { piece_length: 32768, length: Some(65536), ..torrent() };
    let mut worker = with_piece_of(torrent, 1);
    asked_for(&mut worker);
    assert_eq!(
        asked_for(&mut worker)[9..],
        [0, 0, 0x40, 0, 0, 0, 0x40, 0]
    );
}

#[test]
fn plain_worker_without_a_length() {
    let mut worker = with_piece_of(TorrentInfo { length: None, ..torrent() }, 1);
    assert!(matches!(
        go(&mut worker, WorkerEvent::Message(1, vec![])),
        PlainAction::Read(None)
    ));
    assert!(!worker.accepts(&block(1, 0, &[1])));
}

#[test]
fn plain_worker_with_more_pieces_than_the_file() {
    let mut pieces = torrent().pieces;
    pieces.extend_from_slice(&DIGEST);
    let mut worker = with_piece_of(TorrentInfo { pieces, ..torrent() }, 2);
    assert_eq!(asked_for(&mut worker)[13..], [0, 0, 0, 3]);
}

#[test]
fn plain_worker_cuts_the_last_piece() {
    let mut worker = with_piece(1);
    assert_eq!(asked_for(&mut worker)[13..], [0, 0, 0, 3]);
    assert!(!worker.accepts(&block(1, 0, &[1, 2, 3, 4])));
    assert!(worker.accepts(&block(1, 0, &[1, 2, 3])));
}

#[test]
fn plain_worker_reports_a_spoilt_piece() {
    let mut worker = with_piece(0);
    asked_for(&mut worker);
    assert!(matches!(
        go(&mut worker, block(0, 0, &[4, 3, 2, 1])),
        PlainAction::Terminate(Reason::VerificationFailed, Some(0))
    ));
    assert!(!worker.accepts(&WorkerEvent::Lost));
}

#[test]
fn plain_worker_reports_its_piece_when_it_ends() {
    let mut worker = with_piece(1);
    match go(&mut worker, WorkerEvent::TimedOut) {
        PlainAction::Terminate(Reason::TimedOut, failed) => assert_eq!(failed, Some(1)),
        _ => panic!("the worker goes on"),
    }
    let mut worker = with_piece(1);
    match go(&mut worker, WorkerEvent::Lost) {
        PlainAction::Terminate(Reason::ConnectionLost, failed) => assert_eq!(failed, Some(1)),
        _ => panic!("the worker goes on"),
    }
    let mut worker = with_piece(1);
    go(&mut worker, WorkerEvent::Message(1, vec![]));
    match go(&mut worker, WorkerEvent::Sent(false)) {
        PlainAction::Terminate(Reason::RequestFailed, failed) => assert_eq!(failed, Some(1)),
        _ => panic!("the worker goes on"),
    }
}

#[test]
fn plain_worker_without_a_piece_reports_nothing() {
    let mut worker = PeerWorker::new(torrent());
    worker.start_worker();
    match go(&mut worker, WorkerEvent::TimedOut) {
        PlainAction::Terminate(Reason::TimedOut, failed) => assert_eq!(failed, None),
        _ => panic!("the worker goes on"),
    }
}

#[test]
fn plain_worker_takes_up_a_piece_that_the_peer_has_got() {
    let mut worker = PeerWorker::new(torrent());
    worker.start_worker();
    assert!(!worker.accepts(&WorkerEvent::Message(4, vec![0, 0])));
    assert!(matches!(
        go(&mut worker, WorkerEvent::Message(4, vec![0, 0, 0, 1])),
        PlainAction::RequestPiece(1)
    ));
    assert!(matches!(go(&mut worker, WorkerEvent::Granted(true)), PlainAction::Read(Some(60))));
    assert_eq!(asked_for(&mut worker)[5..], [0, 0, 0, 1, 0, 0, 0, 0, 0, 0, 0, 3]);
}

#[test]
fn plain_worker_with_a_piece_is_interested_at_once() {
    let mut worker = with_piece(0);
    assert!(matches!(
        go(&mut worker, WorkerEvent::Message(5, vec![0xff])),
        PlainAction::SendInterested(_)
    ));
    assert!(matches!(go(&mut worker, WorkerEvent::Sent(false)), PlainAction::Abort));
}

#[test]
fn plain_worker_without_leave_has_no_piece() {
    let mut worker = PeerWorker::new(torrent());
    worker.start_worker();
    go(&mut worker, WorkerEvent::Message(1, vec![]));
    go(&mut worker, WorkerEvent::Message(4, vec![0, 0, 0, 1]));
    assert!(matches!(go(&mut worker, WorkerEvent::Granted(false)), PlainAction::Read(None)));
    assert!(matches!(
        go(&mut worker, WorkerEvent::Lost),
        PlainAction::Terminate(Reason::ConnectionLost, None)
    ));
}

#[test]
fn plain_worker_learns_what_the_peer_has_got() {
    let mut worker = with_piece(0);
    asked_for(&mut worker);
    go(&mut worker, WorkerEvent::Message(4, vec![0, 0, 0, 5]));
    go(&mut worker, WorkerEvent::Message(4, vec![0, 0, 0, 8]));
    go(&mut worker, block(0, 0, &[1, 2, 3, 4]));
    match go(&mut worker, WorkerEvent::Sent(true)) {
        PlainAction::AskPiece(bits) => {
            assert_eq!(bits.to_vec(), vec![true, true, false, false, false, true, false, false])
        }
        _ => panic!("no question for a piece"),
    }
}
