use bitfrost::client::{
    create_client_id, create_handshake, create_udp_request, create_udp_request_with, get_client_id,
    DownloadAction, DownloadEvent, Error, TorrentClient,
};
use bitfrost::torrent::TorrentInfo;
use bitfrost::tracker::PeerAddr;

fn torrent(pieces: usize) -> TorrentInfo {
    TorrentInfo {
        announce_list: vec![],
        name: "some file".to_string(),
        piece_length: 4,
        length: None,
        pieces: vec![0; pieces],
        info_hash: [0; 20],
    }
}

fn peers(n: u32) -> Vec<PeerAddr> {
    (0..n).map(|ip| PeerAddr { ip, port: 1 }).collect()
}

fn go(client: &mut TorrentClient, event: DownloadEvent) -> DownloadAction {
    assert!(client.accepts(&event));
    client.download_file(event)
}

fn started(action: DownloadAction) -> Vec<u32> {
    match action {
        DownloadAction::Start(peers) => peers.iter().map(|p| p.ip).collect(),
        _ => panic!("no worker is started"),
    }
}

/// A client that waits for peers.
fn fetching() -> TorrentClient {
    let mut client = TorrentClient::new(torrent(20));
    assert!(matches!(client.start().1, DownloadAction::CheckComplete));
    assert!(matches!(
        go(&mut client, DownloadEvent::Complete(false)),
        DownloadAction::FetchPeers
    ));
    client
}

#[test]
fn handshake_names_protocol_torrent_and_client() {
    let handshake = create_handshake([1; 20], [2; 20]);
    assert_eq!(handshake[0], 19);
    assert_eq!(&handshake[1..20], b"BitTorrent protocol");
    assert_eq!(handshake[20..28], [0; 8]);
    assert_eq!(handshake[28..48], [1; 20]);
    assert_eq!(handshake[48..68], [2; 20]);
}

#[test]
fn client_id_starts_with_the_kind_of_the_client() {
    assert_eq!(&create_client_id(*b"abcdefghijkl"), b"-BF0001-abcdefghijkl");
    let one = get_client_id();
    let two = get_client_id();
    assert_eq!(&one[..8], b"-BF0001-");
    assert_eq!(&two[..8], b"-BF0001-");
    assert_ne!(one, two);
}

#[test]
fn udp_request_holds_all_fields() {
    let request = create_udp_request_with(0x0a0b0c0d, &[1; 20], &[2; 20], 0x01020304);
    let mut expected = vec![0, 0, 4, 0x17, 0x27, 0x10, 0x19, 0x80, 0, 0, 0, 0, 10, 11, 12, 13];
    expected.extend_from_slice(&[1; 20]);
    expected.extend_from_slice(&[2; 20]);
    expected.extend_from_slice(&[0; 32]);
    expected.extend_from_slice(&[1, 2, 3, 4, 0xff, 0xff, 0xff, 0xff, 0x1a, 0xe1]);
    assert_eq!(request, expected);
}

#[test]
fn udp_requests_draw_their_numbers() {
    let one = create_udp_request(&[1; 20], &[2; 20]);
    let two = create_udp_request(&[1; 20], &[2; 20]);
    assert_eq!(one.len(), 98);
    assert_eq!(one[..12], two[..12]);
    assert_eq!(one[16..88], two[16..88]);
    assert_eq!(one[92..], two[92..]);
    assert_ne!((&one[12..16], &one[88..92]), (&two[12..16], &two[88..92]));
}

#[test]
fn output_path_is_the_name_of_the_torrent() {
    let client = TorrentClient::new(torrent(0));
    assert_eq!(client.output_path(), "./some file");
    assert_eq!(client.torrent().name, "some file");
}

#[test]
fn account_starts_with_a_clear_bit_for_each_piece() {
    for (bytes, pieces) in [(0, 0), (20, 1), (39, 1), (160, 8), (180, 9)] {
        let mut client = TorrentClient::new(torrent(bytes));
        let (bits, _) = client.start();
        assert_eq!(bits.len(), pieces);
        assert!(bits.iter().all(|b| !*b));
    }
}

#[test]
fn few_peers_are_all_started_together() {
    let mut client = fetching();
    assert_eq!(started(go(&mut client, DownloadEvent::Peers(peers(3)))), vec![0, 1, 2]);
    assert!(matches!(go(&mut client, DownloadEvent::WorkerDone), DownloadAction::Wait));
    assert!(matches!(go(&mut client, DownloadEvent::WorkerDone), DownloadAction::Wait));
    assert!(matches!(go(&mut client, DownloadEvent::WorkerDone), DownloadAction::Rest(5)));
    assert!(matches!(go(&mut client, DownloadEvent::Rested), DownloadAction::CheckComplete));
}

#[test]
fn every_peer_is_tried_once_in_order() {
    let mut client = fetching();
    let mut tried = started(go(&mut client, DownloadEvent::Peers(peers(33))));
    assert_eq!(tried.len(), 30);
    for _ in 0..3 {
        tried.extend(started(go(&mut client, DownloadEvent::WorkerDone)));
    }
    assert_eq!(tried, (0..33).collect::<Vec<u32>>());
    for _ in 0..29 {
        assert!(matches!(go(&mut client, DownloadEvent::WorkerDone), DownloadAction::Wait));
    }
    assert!(matches!(go(&mut client, DownloadEvent::WorkerDone), DownloadAction::Rest(5)));
}

#[test]
fn client_rests_without_peers() {
    let mut client = fetching();
    assert!(matches!(
        go(&mut client, DownloadEvent::Peers(vec![])),
        DownloadAction::Rest(10)
    ));
    let mut client = fetching();
    assert!(matches!(go(&mut client, DownloadEvent::PeersFailed), DownloadAction::Rest(5)));
    assert!(!client.accepts(&DownloadEvent::WorkerDone));
}

#[test]
fn download_ends_when_it_is_complete() {
    let mut client = TorrentClient::new(torrent(20));
    client.start();
    assert!(matches!(
        go(&mut client, DownloadEvent::Complete(true)),
        DownloadAction::Finish
    ));
    assert!(!client.accepts(&DownloadEvent::Complete(true)));
}

#[test]
fn download_fails_without_the_bitfield_actor() {
    let mut client = TorrentClient::new(torrent(20));
    client.start();
    match go(&mut client, DownloadEvent::ActorGone) {
        DownloadAction::Fail(error) => {
            assert_eq!(
                error.message(),
                "Error with starting the client: Bitfield actor dropped"
            );
            assert!(matches!(error, Error::StartError(text) if text == "Bitfield actor dropped"));
        }
        _ => panic!("no failure"),
    }
}
