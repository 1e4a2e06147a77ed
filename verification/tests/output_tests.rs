use bitfrost::dht_protocol::dht_search;
use bitfrost::output_actor::{output_actor, OutputAction, OutputFile, OutputMsg};
use bitfrost::torrent::TorrentInfo;

fn torrent(length: Option<u64>) -> TorrentInfo {
    TorrentInfo {
        announce_list: vec![],
        name: "f".to_string(),
        piece_length: 4,
        length,
        pieces: vec![0; 70],
        info_hash: [0; 20],
    }
}

#[test]
fn file_is_given_its_size_where_it_is_known() {
    let file = OutputFile::new(&torrent(Some(10)));
    assert_eq!(file.file_name(), "./f");
    assert_eq!(file.preallocation(), Some(10));
    assert_eq!(OutputFile::new(&torrent(None)).preallocation(), None);
    assert_eq!(OutputFile::new(&torrent(Some(0))).preallocation(), None);
}

#[test]
fn piece_goes_where_the_pieces_before_it_end() {
    let file = OutputFile::new(&torrent(Some(10)));
    match output_actor(&file, OutputMsg::Have((2, vec![7, 8]))) {
        OutputAction::Write(8, data, 2) => assert_eq!(data, vec![7, 8]),
        _ => panic!("no piece is written"),
    }
    match output_actor(&file, OutputMsg::Have((0, vec![1, 2, 3, 4, 5]))) {
        OutputAction::Write(0, data, 4) => assert_eq!(data.len(), 5),
        _ => panic!("no piece is written"),
    }
}

#[test]
fn piece_that_the_torrent_has_not_is_skipped() {
    let file = OutputFile::new(&torrent(Some(10)));
    assert!(matches!(
        output_actor(&file, OutputMsg::Have((3, vec![1]))),
        OutputAction::Skip(3)
    ));
}

#[test]
fn piece_without_an_offset_is_not_taken() {
    let mut huge = torrent(None);
    huge.piece_length = u64::MAX;
    let file = OutputFile::new(&huge);
    assert!(file.accepts(&OutputMsg::Have((1, vec![]))));
    assert!(!file.accepts(&OutputMsg::Have((2, vec![]))));
    assert!(file.accepts(&OutputMsg::Have((3, vec![]))));
}

#[test]
fn pieces_in_any_order_make_the_file() {
    let content: Vec<u8> = (1..=10).collect();
    let file = OutputFile::new(&torrent(Some(10)));
    let mut bytes = vec![0u8; 10];
    for index in [2usize, 0, 1] {
        let piece = content[index * 4..std::cmp::min(index * 4 + 4, 10)].to_vec();
        match output_actor(&file, OutputMsg::Have((index, piece))) {
            OutputAction::Write(offset, data, _) => {
                let at = offset as usize;
                bytes[at..at + data.len()].copy_from_slice(&data);
            }
            OutputAction::Skip(_) => panic!("a piece is skipped"),
        }
    }
    assert_eq!(bytes, content);
}

#[test]
fn nodes_of_the_torrent_are_asked() {
    let nodes = vec![("a.example".to_string(), 1u16), ("b".to_string(), 65535)];
    assert_eq!(dht_search(&nodes), vec!["a.example:1", "b:65535"]);
    assert_eq!(dht_search(&vec![("c".to_string(), 0)]), vec!["c:0"]);
}

#[test]
fn known_nodes_are_asked_where_the_torrent_names_none() {
    assert_eq!(
        dht_search(&vec![]),
        vec![
            "router.bittorrent.com:6881",
            "dht.transmissionbt.com:6881",
            "router.utorrent.com:6881"
        ]
    );
}
