use bitfrost::peer_worker::PeerWorker;
use bitfrost::wire::{create_bitfield_message, create_request, read_peer_message, ReadStep};

fn need(bytes: &[u8]) -> usize {
    match read_peer_message(bytes) {
        ReadStep::Need(n) => n,
        ReadStep::Message(..) => panic!("a message too early"),
    }
}

fn message(bytes: &[u8]) -> (u8, Vec<u8>) {
    match read_peer_message(bytes) {
        ReadStep::Need(n) => panic!("{} bytes are missing", n),
        ReadStep::Message(id, payload) => (id, payload),
    }
}

#[test]
fn message_is_read_in_three_parts() {
    assert_eq!(need(&[]), 4);
    assert_eq!(need(&[0, 0]), 2);
    assert_eq!(need(&[0, 0, 0, 5]), 1);
    assert_eq!(need(&[0, 0, 0, 5, 4]), 4);
    assert_eq!(need(&[0, 0, 0, 5, 4, 0, 0, 0]), 1);
    assert_eq!(message(&[0, 0, 0, 5, 4, 0, 0, 0, 9]), (4, vec![0, 0, 0, 9]));
}

#[test]
fn message_without_payload_is_its_id() {
    assert_eq!(message(&[0, 0, 0, 1, 1]), (1, vec![]));
}

#[test]
fn keep_alive_is_read_as_an_empty_message() {
    assert_eq!(message(&[0, 0, 0, 0]), (0, vec![]));
}

#[test]
fn what_follows_a_message_is_left() {
    assert_eq!(message(&[0, 0, 0, 2, 7, 42, 0, 0]), (7, vec![42]));
}

#[test]
fn request_names_index_offset_and_size() {
    assert_eq!(
        create_request(1, 16384, 16384),
        vec![0, 0, 0, 13, 6, 0, 0, 0, 1, 0, 0, 64, 0, 0, 0, 64, 0]
    );
}

#[test]
fn request_is_read_back() {
    let (id, payload) = message(&create_request(0x01020304, 0xfffe, 7));
    assert_eq!(id, 6);
    assert_eq!(payload, vec![1, 2, 3, 4, 0, 0, 0xff, 0xfe, 0, 0, 0, 7]);
}

#[test]
fn bitfield_message_packs_the_pieces() {
    let bits: Box<[bool]> = vec![true, false, true, false, false, false, false, false, true]
        .into_boxed_slice();
    assert_eq!(create_bitfield_message(&bits), vec![0, 0, 0, 3, 5, 0xa0, 0x80]);
    assert_eq!(message(&create_bitfield_message(&bits)), (5, vec![0xa0, 0x80]));
}

#[test]
fn worker_reads_messages_alike() {
    match PeerWorker::read_peer_message(&[0, 0, 0, 2, 9, 1]) {
        ReadStep::Message(9, payload) => assert_eq!(payload, vec![1]),
        _ => panic!("no message"),
    }
}
