use bitfrost::bencode::{decode, decode_whole, encode, Bencode};
use bitfrost::torrent::{
    get_torrent_info_hash, parse_torrent_file, read_torrent, Error, TorrentInfo,
};

const INFO: &[u8] = b"d6:lengthi5e4:name8:file.bin12:piece lengthi4e6:pieces40:aaaaaaaaaaaaaaaaaaaabbbbbbbbbbbbbbbbbbbbe";

const INFO_HASH: [u8; 20] = [
    0xc2, 0x41, 0x84, 0xb6, 0x3e, 0xfe, 0xd3, 0x39, 0x66, 0xc0, 0xb8, 0x8c, 0xd8, 0x23, 0x91, 0xe9,
    0x40, 0xd1, 0xc0, 0x0d,
];

fn bytes(s: &str) -> Bencode {
    Bencode::Bytes(s.as_bytes().to_vec())
}

fn dict(entries: Vec<(&str, Bencode)>) -> Bencode {
    Bencode::Dict(entries.into_iter().map(|(k, v)| (k.as_bytes().to_vec(), v)).collect())
}

fn info() -> Bencode {
    dict(vec![
        ("length", Bencode::Integer(5)),
        ("name", bytes("file.bin")),
        ("piece length", Bencode::Integer(4)),
        ("pieces", bytes("aaaaaaaaaaaaaaaaaaaabbbbbbbbbbbbbbbbbbbb")),
    ])
}

fn invalid(r: Result<TorrentInfo, Error>) -> String {
    match r {
        Err(Error::InvalidTorrent(text)) => text,
        Err(Error::Bencode(text)) => panic!("a bencode error: {}", text),
        Ok(_) => panic!("no error"),
    }
}

fn refused(value: Bencode) -> String {
    invalid(read_torrent(&value))
}

#[test]
fn torrent_file_is_parsed() {
    let mut data = b"d8:announce20:udp://t.example:80/x4:info".to_vec();
    data.extend_from_slice(INFO);
    data.push(b'e');
    let torrent = match parse_torrent_file(&data) {
        Ok(torrent) => torrent,
        Err(error) => panic!("{}", error.message()),
    };
    assert_eq!(torrent.announce_list, vec!["udp://t.example:80/x".to_string()]);
    assert_eq!(torrent.name, "file.bin");
    assert_eq!(torrent.piece_length, 4);
    assert_eq!(torrent.length, Some(5));
    assert_eq!(torrent.pieces, b"aaaaaaaaaaaaaaaaaaaabbbbbbbbbbbbbbbbbbbb".to_vec());
    assert_eq!(torrent.info_hash, INFO_HASH);
}

#[test]
fn what_follows_a_torrent_file_is_passed_over() {
    let mut data = b"d8:announce1:a4:info".to_vec();
    data.extend_from_slice(INFO);
    data.extend_from_slice(b"etrailing");
    assert!(parse_torrent_file(&data).is_ok());
}

#[test]
fn bytes_that_are_no_bencode_are_an_error() {
    match parse_torrent_file(b"nonsense") {
        Err(error) => {
            assert!(error.message().starts_with("Bencode error: Bencode decoding error: "));
            assert!(matches!(error, Error::Bencode(_)));
        }
        Ok(_) => panic!("no error"),
    }
    assert!(matches!(parse_torrent_file(b""), Err(Error::Bencode(_))));
}

#[test]
fn each_missing_entry_has_its_error() {
    assert_eq!(invalid(parse_torrent_file(b"le")), "Top-level is not a dictionary");
    assert_eq!(refused(Bencode::Integer(1)), "Top-level is not a dictionary");
    assert_eq!(refused(dict(vec![])), "Missing 'announce'");
    assert_eq!(
        refused(dict(vec![("announce", Bencode::Integer(1)), ("info", info())])),
        "Missing 'announce'"
    );
    assert_eq!(refused(dict(vec![("announce", bytes("a"))])), "Missing 'info' dictionary");
    assert_eq!(
        refused(dict(vec![("announce", bytes("a")), ("info", bytes("b"))])),
        "Missing 'info' dictionary"
    );
    let with = |entries: Vec<(&str, Bencode)>| {
        refused(dict(vec![("announce", bytes("a")), ("info", dict(entries))]))
    };
    assert_eq!(with(vec![]), "Missing 'name'");
    assert_eq!(with(vec![("name", bytes("n"))]), "Missing 'piece length'");
    assert_eq!(
        with(vec![("name", bytes("n")), ("piece length", bytes("4"))]),
        "Missing 'piece length'"
    );
    assert_eq!(
        with(vec![("name", bytes("n")), ("piece length", Bencode::Integer(4))]),
        "Missing 'pieces'"
    );
}

#[test]
fn errors_are_told_in_words() {
    assert_eq!(
        Error::InvalidTorrent("Missing 'name'".to_string()).message(),
        "Invalid torrent file: Missing 'name'"
    );
    assert_eq!(Error::Bencode("x".to_string()).message(), "Bencode error: x");
}

#[test]
fn announce_list_goes_before_announce() {
    let value = dict(vec![
        ("announce", bytes("a")),
        (
            "announce-list",
            Bencode::List(vec![
                Bencode::List(vec![bytes("b"), Bencode::Integer(1), bytes("c")]),
                bytes("d"),
                Bencode::List(vec![bytes("e")]),
            ]),
        ),
        ("info", info()),
    ]);
    match read_torrent(&value) {
        Ok(torrent) => assert_eq!(torrent.announce_list, vec!["b", "c", "e"]),
        Err(error) => panic!("{}", error.message()),
    }
}

#[test]
fn empty_announce_list_falls_back_to_announce() {
    let value = dict(vec![
        ("announce", bytes("a")),
        ("announce-list", Bencode::List(vec![Bencode::List(vec![]), bytes("d")])),
        ("info", info()),
    ]);
    match read_torrent(&value) {
        Ok(torrent) => assert_eq!(torrent.announce_list, vec!["a"]),
        Err(error) => panic!("{}", error.message()),
    }
}

#[test]
fn text_that_is_no_utf8_is_replaced() {
    let value = dict(vec![
        ("announce", bytes("a")),
        (
            "info",
            dict(vec![
                ("name", Bencode::Bytes(vec![b'n', 0xff, b'm'])),
                ("piece length", Bencode::Integer(-1)),
                ("pieces", bytes("")),
            ]),
        ),
    ]);
    match read_torrent(&value) {
        Ok(torrent) => {
            assert_eq!(torrent.name, "n\u{fffd}m");
            assert_eq!(torrent.piece_length, u64::MAX);
            assert_eq!(torrent.length, None);
        }
        Err(error) => panic!("{}", error.message()),
    }
}

#[test]
fn info_hash_is_the_digest_of_the_encoded_dictionary() {
    assert_eq!(get_torrent_info_hash(&info()).ok(), Some(INFO_HASH));
    // The digest of `de`.
    assert_eq!(
        get_torrent_info_hash(&dict(vec![])).ok().map(|h| h[..4].to_vec()),
        Some(vec![0x60, 0x0c, 0xcd, 0x1b])
    );
}

#[test]
fn info_hash_does_not_depend_on_the_rest_of_the_file() {
    let one = dict(vec![("announce", bytes("a")), ("info", info())]);
    let two = dict(vec![("announce", bytes("b")), ("comment", bytes("c")), ("info", info())]);
    assert_eq!(
        read_torrent(&one).ok().map(|t| t.info_hash),
        read_torrent(&two).ok().map(|t| t.info_hash)
    );
}

#[test]
fn values_are_encoded_and_decoded() {
    let value = dict(vec![
        ("b", Bencode::List(vec![Bencode::Integer(-3), bytes("x"), dict(vec![])])),
        ("a", bytes("12")),
    ]);
    let data = match encode(&value) {
        Ok(data) => data,
        Err(text) => panic!("{}", text),
    };
    assert_eq!(data, b"d1:a2:121:bli-3e1:xdeee".to_vec());
    let again = match decode(&data) {
        Ok(value) => value,
        Err(text) => panic!("{}", text),
    };
    assert!(matches!(again.get(b"a"), Some(Bencode::Bytes(b)) if b == b"12"));
    match again.get(b"b") {
        Some(Bencode::List(items)) => {
            assert_eq!(items.len(), 3);
            assert!(matches!(items[0], Bencode::Integer(-3)));
            assert!(matches!(&items[2], Bencode::Dict(d) if d.is_empty()));
        }
        _ => panic!("no list"),
    }
    assert!(again.get(b"c").is_none());
    assert_eq!(encode(&again).ok(), Some(data));
}

#[test]
fn last_entry_of_a_key_counts() {
    let value = dict(vec![("k", Bencode::Integer(1)), ("k", Bencode::Integer(2))]);
    assert!(matches!(value.get(b"k"), Some(Bencode::Integer(2))));
    assert_eq!(encode(&value).ok(), Some(b"d1:ki2ee".to_vec()));
    assert!(Bencode::Integer(1).get(b"k").is_none());
}

#[test]
fn whole_value_leaves_nothing_over() {
    assert!(decode_whole(b"i1ex").is_none());
    assert!(decode_whole(b"x").is_none());
    assert!(matches!(decode_whole(b"i-7e"), Some(Bencode::Integer(-7))));
    match decode_whole(b"d1:ali1e2:xyee") {
        Some(value) => match value.get(b"a") {
            Some(Bencode::List(items)) => {
                assert!(matches!(items[0], Bencode::Integer(1)));
                assert!(matches!(&items[1], Bencode::Bytes(b) if b == b"xy"));
            }
            _ => panic!("no list"),
        },
        None => panic!("no value"),
    }
}
