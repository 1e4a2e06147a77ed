use bitfrost::blocks::{
    count_unanswered, create_block_request, next_missing, received_all_blocks, verify_piece,
};
use std::collections::HashMap;

fn pending(blocks: &[(u32, bool)]) -> HashMap<u32, bool> {
    blocks.iter().cloned().collect()
}

#[test]
fn piece_is_whole_with_every_block() {
    assert!(received_all_blocks(&pending(&[(0, true), (16384, true)]), 20000));
    assert!(!received_all_blocks(&pending(&[(0, true)]), 20000));
    assert!(!received_all_blocks(&pending(&[(0, true), (16384, false)]), 20000));
    assert!(received_all_blocks(&pending(&[(0, true)]), 16384));
    assert!(!received_all_blocks(&pending(&[]), 1));
    assert!(received_all_blocks(&pending(&[]), 0));
}

#[test]
fn block_past_the_end_adds_nothing() {
    assert!(!received_all_blocks(&pending(&[(0, true), (40000, true)]), 20000));
}

#[test]
fn requests_without_answer_are_counted() {
    assert_eq!(count_unanswered(&pending(&[(0, true), (16384, false), (32768, false)])), 2);
    assert_eq!(count_unanswered(&pending(&[])), 0);
}

#[test]
fn next_block_is_the_first_missing() {
    assert_eq!(next_missing(&pending(&[]), 40000), Some(0));
    assert_eq!(next_missing(&pending(&[(0, false)]), 40000), Some(16384));
    assert_eq!(next_missing(&pending(&[(16384, true)]), 40000), Some(0));
    assert_eq!(
        next_missing(&pending(&[(0, true), (16384, true), (32768, false)]), 40000),
        None
    );
    assert_eq!(next_missing(&pending(&[(0, true)]), 16384), None);
    assert_eq!(next_missing(&pending(&[]), 0), None);
}

#[test]
fn request_ends_with_the_piece() {
    assert_eq!(
        create_block_request(2, 16384, 20000),
        vec![0, 0, 0, 13, 6, 0, 0, 0, 2, 0, 0, 64, 0, 0, 0, 14, 32]
    );
    assert_eq!(create_block_request(0, 0, 20000)[13..], [0, 0, 64, 0]);
}

#[test]
fn digest_decides_whether_a_piece_is_right() {
    // The digests of `abc` and of nothing.
    let pieces: Vec<u8> = vec![
        0xa9, 0x99, 0x3e, 0x36, 0x47, 0x06, 0x81, 0x6a, 0xba, 0x3e, 0x25, 0x71, 0x78, 0x50, 0xc2,
        0x6c, 0x9c, 0xd0, 0xd8, 0x9d, 0xda, 0x39, 0xa3, 0xee, 0x5e, 0x6b, 0x4b, 0x0d, 0x32, 0x55,
        0xbf, 0xef, 0x95, 0x60, 0x18, 0x90, 0xaf, 0xd8, 0x07, 0x09,
    ];
    assert!(verify_piece(&pieces, 0, &b"abc".to_vec()));
    assert!(verify_piece(&pieces, 1, &vec![]));
    assert!(!verify_piece(&pieces, 1, &b"abc".to_vec()));
    assert!(!verify_piece(&pieces, 0, &b"abd".to_vec()));
}
