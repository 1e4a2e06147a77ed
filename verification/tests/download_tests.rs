use bitfrost::bitfield_actor;
use bitfrost::client::{DownloadAction, DownloadEvent, TorrentClient};
use bitfrost::peer_worker::{PeerWorker, WorkerAction, WorkerEvent};
use bitfrost::plain_worker::{PeerWorker as PlainWorker, PlainAction};
use bitfrost::torrent::TorrentInfo;

fn torrent(pieces: usize) -> TorrentInfo {
    TorrentInfo {
        announce_list: vec!["udp://t:1".to_string(), "http://t".to_string()],
        name: "f".to_string(),
        piece_length: 4,
        length: Some(4 * pieces as u64),
        pieces: vec![7; 20 * pieces],
        info_hash: [9; 20],
    }
}

#[test]
fn piece_that_a_worker_gave_back_goes_to_the_next_one() {
    let all = vec![true; 8].into_boxed_slice();
    let mut account = bitfield_actor::BitfieldState::new(vec![false; 8].into_boxed_slice());
    let mut worker = PeerWorker::new(torrent(8));
    worker.start_worker();
    worker.step(WorkerEvent::Bitfield(vec![false; 8].into_boxed_slice()));
    let piece = match worker.step(WorkerEvent::Message(5, vec![0xff])) {
        WorkerAction::AskPiece(bits) => bitfield_actor::get_requestable_piece(&mut account, bits),
        _ => panic!("no question for a piece"),
    };
    assert_eq!(piece, Some(0));
    worker.step(WorkerEvent::Assigned(piece));
    worker.step(WorkerEvent::Sent(true));
    let failed = match worker.step(WorkerEvent::Lost) {
        WorkerAction::Terminate(_, piece) => piece,
        _ => panic!("the worker goes on"),
    };
    bitfield_actor::bitfield_actor(
        &mut account,
        bitfield_actor::BitfieldMsg::PieceFailed(failed),
    );
    assert_eq!(bitfield_actor::get_requestable_piece(&mut account, all), Some(0));
}

#[test]
fn piece_that_a_plain_worker_reported_goes_to_the_next_one() {
    let all = vec![true; 8].into_boxed_slice();
    let mut account = bitfield_actor::BitfieldState::new(vec![false; 8].into_boxed_slice());
    let mut worker = PlainWorker::new(torrent(8));
    worker.start_worker();
    let piece = match worker.step(WorkerEvent::Message(5, vec![0xff])) {
        PlainAction::AskPiece(bits) => bitfield_actor::get_requestable_piece(&mut account, bits),
        _ => panic!("no question for a piece"),
    };
    worker.step(WorkerEvent::Assigned(piece));
    worker.step(WorkerEvent::Sent(true));
    worker.step(WorkerEvent::Message(1, vec![]));
    worker.step(WorkerEvent::Sent(true));
    // The piece is spoilt.
    let failed = match worker.step(WorkerEvent::Message(7, vec![0, 0, 0, 0, 0, 0, 0, 0, 1, 2, 3, 4]))
    {
        PlainAction::Terminate(_, failed) => failed,
        _ => panic!("the worker goes on"),
    };
    assert_eq!(failed, Some(0));
    bitfield_actor::bitfield_actor(
        &mut account,
        bitfield_actor::BitfieldMsg::PieceFailed(failed.map(|index| index as usize)),
    );
    assert_eq!(bitfield_actor::get_requestable_piece(&mut account, all), Some(0));
}

/// What a worker does that asks for leave to download piece 0 and is given this answer.
fn after_leave(granted: bool) -> WorkerAction {
    let mut worker = PeerWorker::new(torrent(1));
    worker.start_worker();
    worker.step(WorkerEvent::Bitfield(vec![false].into_boxed_slice()));
    worker.step(WorkerEvent::Message(1, vec![]));
    assert!(matches!(
        worker.step(WorkerEvent::Message(4, vec![0, 0, 0, 0])),
        WorkerAction::RequestPiece(0)
    ));
    worker.step(WorkerEvent::Granted(granted))
}

#[test]
fn leave_of_the_actor_decides_whether_a_worker_goes_on() {
    let mut account = bitfield_actor::BitfieldState::new(vec![false].into_boxed_slice());
    for expected in [true, false] {
        let granted = match bitfield_actor::bitfield_actor(
            &mut account,
            bitfield_actor::BitfieldMsg::RequestPiece(0),
        ) {
            bitfield_actor::BitfieldReply::Flag(granted) => granted,
            _ => panic!("no yes or no"),
        };
        assert_eq!(granted, expected);
        match after_leave(granted) {
            WorkerAction::SendRequest(_) => assert!(granted),
            WorkerAction::Read(None) => assert!(!granted),
            _ => panic!("neither a request nor a read"),
        }
    }
}

#[test]
fn download_ends_with_the_last_piece() {
    for pieces in [0, 1, 7, 8, 9, 16, 17] {
        let mut client = TorrentClient::new(torrent(pieces));
        let (bits, _) = client.start();
        let mut account = bitfield_actor::BitfieldState::new(bits);
        for index in (0..pieces).rev() {
            assert!(!account.is_complete());
            bitfield_actor::bitfield_actor(&mut account, bitfield_actor::BitfieldMsg::Have(index));
        }
        let complete = match bitfield_actor::bitfield_actor(
            &mut account,
            bitfield_actor::BitfieldMsg::IsComplete,
        ) {
            bitfield_actor::BitfieldReply::Flag(complete) => complete,
            _ => panic!("no yes or no"),
        };
        assert!(complete);
        assert!(matches!(
            client.download_file(DownloadEvent::Complete(complete)),
            DownloadAction::Finish
        ));
    }
}

#[test]
fn copy_of_a_torrent_says_the_same() {
    let one = torrent(2);
    let two = one.clone();
    assert_eq!(two.announce_list, one.announce_list);
    assert_eq!(two.name, one.name);
    assert_eq!(two.piece_length, one.piece_length);
    assert_eq!(two.length, one.length);
    assert_eq!(two.pieces, one.pieces);
    assert_eq!(two.info_hash, one.info_hash);
}
