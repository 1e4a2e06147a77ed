use bitfrost::bencode::Bencode;
use bitfrost::torrent::TorrentInfo;
use bitfrost::tracker::{
    compact_peers, create_announce_request, create_connect_request, create_http_request,
    fetch_peers, reply_peers, tracker_tasks, PeerAddr, TrackerAction, TrackerEvent, TrackerTask,
};

fn torrent(announce: &[&str]) -> TorrentInfo {
    TorrentInfo {
        announce_list: announce.iter().map(|s| s.to_string()).collect(),
        name: "f".to_string(),
        piece_length: 4,
        length: Some(0x0102),
        pieces: vec![],
        info_hash: [0x11; 20],
    }
}

fn peer(ip: u32, port: u16) -> PeerAddr {
    PeerAddr { ip, port }
}

fn go(task: &mut TrackerTask, event: TrackerEvent) -> TrackerAction {
    assert!(task.accepts(&event));
    task.step_with(event, 0xaabbccdd, 0x01020304)
}

fn peers(action: TrackerAction) -> Vec<PeerAddr> {
    match action {
        TrackerAction::Finish(peers) => peers,
        _ => panic!("the task goes on"),
    }
}

fn datagram(action: TrackerAction, max: usize) -> Vec<u8> {
    match action {
        TrackerAction::Exchange(datagram, limit) => {
            assert_eq!(limit, max);
            datagram
        }
        _ => panic!("no datagram"),
    }
}

fn host(announce: &str) -> String {
    let mut task = TrackerTask::new(announce, &torrent(&[]), [0x22; 20]);
    match task.start() {
        TrackerAction::Resolve(host) => host,
        _ => panic!("no UDP tracker"),
    }
}

#[test]
fn peers_take_six_bytes_each() {
    assert_eq!(
        compact_peers(&[10, 0, 0, 1, 0x1a, 0xe1, 1, 2, 3, 4, 0, 80, 9, 9], 0),
        vec![peer(0x0a000001, 6881), peer(0x01020304, 80)]
    );
    assert_eq!(compact_peers(&[9, 1, 2, 3, 4, 0, 5], 1), vec![peer(0x01020304, 5)]);
    assert_eq!(compact_peers(&[1, 2, 3, 4, 5], 0), vec![]);
    assert_eq!(compact_peers(&[1], 1), vec![]);
}

#[test]
fn connect_request_holds_the_transaction() {
    assert_eq!(
        create_connect_request(0xaabbccdd),
        vec![0, 0, 4, 0x17, 0x27, 0x10, 0x19, 0x80, 0, 0, 0, 0, 0xaa, 0xbb, 0xcc, 0xdd]
    );
}

#[test]
fn announce_request_holds_all_fields() {
    let request = create_announce_request(
        &[1, 2, 3, 4, 5, 6, 7, 8],
        0xaabbccdd,
        &[0x11; 20],
        &[0x22; 20],
        0x0102,
        0x01020304,
    );
    assert_eq!(request.len(), 98);
    assert_eq!(request[..16], [1, 2, 3, 4, 5, 6, 7, 8, 0, 0, 0, 1, 0xaa, 0xbb, 0xcc, 0xdd]);
    assert_eq!(request[16..36], [0x11; 20]);
    assert_eq!(request[36..56], [0x22; 20]);
    assert_eq!(request[56..64], [0; 8]);
    assert_eq!(request[64..72], [0, 0, 0, 0, 0, 0, 1, 2]);
    assert_eq!(request[72..88], [0; 16]);
    assert_eq!(request[88..], [1, 2, 3, 4, 0xff, 0xff, 0xff, 0xff, 0x1a, 0xe1]);
}

#[test]
fn http_request_is_a_url() {
    let mut hash = [b'a'; 20];
    hash[0] = 0;
    hash[1] = 0xfe;
    hash[2] = b'-';
    hash[3] = b' ';
    assert_eq!(
        create_http_request("http://t/announce", &hash, b"-BF0001-.~_z\x0f~~~~~~~", 1234),
        "http://t/announce?info_hash=%00%FE-%20aaaaaaaaaaaaaaaa&peer_id=-BF0001-.~_z%0F~~~~~~~&port=6881&uploaded=0&downloaded=0&left=1234&compact=1"
    );
    assert!(create_http_request("x", &hash, &hash, 0).ends_with("&left=0&compact=1"));
}

#[test]
fn udp_host_stands_between_scheme_and_slash() {
    assert_eq!(host("udp://t.example:80/announce"), "t.example:80");
    assert_eq!(host("udp://t.example:80"), "t.example:80");
    assert_eq!(host("udp://udp://t:1/a/b"), "t:1");
    assert_eq!(host("udp:///x"), "");
}

#[test]
fn udp_tracker_is_asked_in_two_exchanges() {
    let mut task = TrackerTask::new("udp://t:1/a", &torrent(&[]), [0x22; 20]);
    assert!(matches!(task.start(), TrackerAction::Resolve(_)));
    assert!(matches!(go(&mut task, TrackerEvent::Resolved(true)), TrackerAction::Bind));
    assert_eq!(
        datagram(go(&mut task, TrackerEvent::Bound(true)), 512),
        create_connect_request(0xaabbccdd)
    );
    let reply = vec![0, 0, 0, 0, 0xaa, 0xbb, 0xcc, 0xdd, 1, 2, 3, 4, 5, 6, 7, 8];
    assert_eq!(
        datagram(go(&mut task, TrackerEvent::Received(Some(reply))), 4096),
        create_announce_request(
            &[1, 2, 3, 4, 5, 6, 7, 8],
            0xaabbccdd,
            &[0x11; 20],
            &[0x22; 20],
            0x0102,
            0x01020304
        )
    );
    let mut reply = vec![0, 0, 0, 1];
    reply.extend_from_slice(&[7; 16]);
    reply.extend_from_slice(&[1, 2, 3, 4, 0, 80, 5]);
    assert_eq!(
        peers(go(&mut task, TrackerEvent::Received(Some(reply)))),
        vec![peer(0x01020304, 80)]
    );
    assert!(!task.accepts(&TrackerEvent::Received(None)));
}

#[test]
fn udp_tracker_that_answers_wrongly_has_no_peers() {
    let connecting = || {
        let mut task = TrackerTask::new("udp://t:1/a", &torrent(&[]), [0x22; 20]);
        task.start();
        go(&mut task, TrackerEvent::Resolved(true));
        go(&mut task, TrackerEvent::Bound(true));
        task
    };
    let fine = vec![0, 0, 0, 0, 0xaa, 0xbb, 0xcc, 0xdd, 1, 2, 3, 4, 5, 6, 7, 8];
    let mut wrong_action = fine.clone();
    wrong_action[3] = 1;
    let mut wrong_transaction = fine.clone();
    wrong_transaction[7] = 0;
    for reply in vec![Some(wrong_action), Some(wrong_transaction), Some(fine[..15].to_vec()), None] {
        assert_eq!(peers(go(&mut connecting(), TrackerEvent::Received(reply))), vec![]);
    }
    let announcing = || {
        let mut task = connecting();
        go(&mut task, TrackerEvent::Received(Some(fine.clone())));
        task
    };
    for reply in vec![Some(vec![0; 26]), Some(vec![0, 0, 0, 1]), None] {
        assert_eq!(peers(go(&mut announcing(), TrackerEvent::Received(reply))), vec![]);
    }
}

#[test]
fn udp_tracker_that_cannot_be_reached_has_no_peers() {
    let mut task = TrackerTask::new("udp://t:1/a", &torrent(&[]), [0; 20]);
    task.start();
    assert_eq!(peers(go(&mut task, TrackerEvent::Resolved(false))), vec![]);
    let mut task = TrackerTask::new("udp://t:1/a", &torrent(&[]), [0; 20]);
    task.start();
    go(&mut task, TrackerEvent::Resolved(true));
    assert_eq!(peers(go(&mut task, TrackerEvent::Bound(false))), vec![]);
}

#[test]
fn http_tracker_is_asked_once() {
    for announce in ["http://t/a", "https://t/a"] {
        let mut task = TrackerTask::new(announce, &torrent(&[]), [b'x'; 20]);
        match task.start() {
            TrackerAction::Get(url) => {
                assert_eq!(url, create_http_request(announce, &[0x11; 20], &[b'x'; 20], 0x0102))
            }
            _ => panic!("no HTTP tracker"),
        }
        let reply = b"d8:intervali60e5:peers6:\x01\x02\x03\x04\x00\x50e".to_vec();
        assert_eq!(
            peers(go(&mut task, TrackerEvent::Received(Some(reply)))),
            vec![peer(0x01020304, 80)]
        );
    }
}

#[test]
fn http_tracker_that_answers_wrongly_has_no_peers() {
    for reply in vec![
        None,
        Some(b"nonsense".to_vec()),
        Some(b"le".to_vec()),
        Some(b"de".to_vec()),
        Some(b"d5:peersi1ee".to_vec()),
        Some(b"d5:peers6:123456ex".to_vec()),
    ] {
        let mut task = TrackerTask::new("http://t", &torrent(&[]), [0; 20]);
        task.start();
        assert_eq!(peers(go(&mut task, TrackerEvent::Received(reply))), vec![]);
    }
}

#[test]
fn tracker_of_another_scheme_is_not_asked() {
    for announce in ["wss://t", "", "UDP://t:1"] {
        let mut task = TrackerTask::new(announce, &torrent(&[]), [0; 20]);
        assert_eq!(peers(task.start()), vec![]);
    }
}

#[test]
fn reply_is_a_dictionary_with_peers() {
    let reply = Bencode::Dict(vec![(
        b"peers".to_vec(),
        Bencode::Bytes(vec![1, 2, 3, 4, 0, 80, 1, 2, 3, 4, 0, 81]),
    )]);
    assert_eq!(reply_peers(&reply), vec![peer(0x01020304, 80), peer(0x01020304, 81)]);
    assert_eq!(reply_peers(&Bencode::Bytes(vec![1, 2, 3, 4, 0, 80])), vec![]);
}

#[test]
fn transaction_of_a_real_task_is_the_one_it_expects() {
    let mut task = TrackerTask::new("udp://t:1/a", &torrent(&[]), [0x22; 20]);
    task.start();
    task.step(TrackerEvent::Resolved(true));
    let request = datagram(task.step(TrackerEvent::Bound(true)), 512);
    let mut reply = vec![0; 4];
    reply.extend_from_slice(&request[12..16]);
    reply.extend_from_slice(&[9; 8]);
    let announce = datagram(task.step(TrackerEvent::Received(Some(reply))), 4096);
    assert_eq!(announce.len(), 98);
    assert_eq!(announce[..8], [9; 8]);
}

#[test]
fn every_tracker_gets_a_task() {
    let mut tasks = tracker_tasks(&torrent(&["udp://a:1", "http://b", "c"]), [0; 20]);
    assert_eq!(tasks.len(), 3);
    assert!(matches!(tasks[0].start(), TrackerAction::Resolve(host) if host == "a:1"));
    assert!(matches!(tasks[1].start(), TrackerAction::Get(_)));
    assert!(matches!(tasks[2].start(), TrackerAction::Finish(_)));
}

#[test]
fn each_peer_is_listed_once() {
    let results = vec![
        Some(vec![peer(1, 1), peer(2, 1), peer(1, 1)]),
        None,
        Some(vec![peer(2, 2), peer(2, 1)]),
    ];
    let dht = vec![peer(1, 1), peer(3, 3)];
    assert_eq!(
        fetch_peers(&results, &dht),
        vec![peer(1, 1), peer(2, 1), peer(2, 2), peer(3, 3)]
    );
    assert_eq!(fetch_peers(&vec![None], &vec![]), vec![]);
}
