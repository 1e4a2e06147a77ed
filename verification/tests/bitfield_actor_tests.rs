use bitfrost::bitfield_actor::{
    bitfield_actor, get_requestable_piece, BitfieldMsg, BitfieldReply, BitfieldState,
};

fn bits(s: &str) -> Box<[bool]> {
    s.chars().map(|c| c == '1').collect::<Vec<bool>>().into_boxed_slice()
}

fn flag(reply: BitfieldReply) -> bool {
    match reply {
        BitfieldReply::Flag(flag) => flag,
        _ => panic!("no yes or no"),
    }
}

#[test]
fn pieces_are_given_out_in_order() {
    let mut state = BitfieldState::new(bits("0100"));
    assert_eq!(get_requestable_piece(&mut state, bits("1111")), Some(0));
    assert_eq!(get_requestable_piece(&mut state, bits("1111")), Some(2));
    assert_eq!(get_requestable_piece(&mut state, bits("0001")), Some(3));
}

#[test]
fn piece_is_shared_by_three_workers_at_most() {
    let mut state = BitfieldState::new(bits("00"));
    for _ in 0..3 {
        assert_eq!(get_requestable_piece(&mut state, bits("10")), Some(0));
    }
    assert_eq!(get_requestable_piece(&mut state, bits("10")), None);
    assert_eq!(get_requestable_piece(&mut state, bits("11")), Some(1));
}

#[test]
fn piece_that_failed_is_given_out_again() {
    let mut state = BitfieldState::new(bits("00"));
    assert_eq!(get_requestable_piece(&mut state, bits("11")), Some(0));
    assert!(matches!(
        bitfield_actor(&mut state, BitfieldMsg::PieceFailed(Some(0))),
        BitfieldReply::Nothing
    ));
    assert_eq!(get_requestable_piece(&mut state, bits("11")), Some(0));
    assert_eq!(get_requestable_piece(&mut state, bits("11")), Some(1));
}

#[test]
fn piece_taken_with_leave_is_given_out_after_it_failed() {
    let mut state = BitfieldState::new(bits("0"));
    assert!(flag(bitfield_actor(&mut state, BitfieldMsg::RequestPiece(0))));
    bitfield_actor(&mut state, BitfieldMsg::PieceFailed(Some(0)));
    assert_eq!(get_requestable_piece(&mut state, bits("1")), Some(0));
}

#[test]
fn failure_that_is_reported_twice_changes_nothing() {
    let mut state = BitfieldState::new(bits("00"));
    assert_eq!(get_requestable_piece(&mut state, bits("11")), Some(0));
    for _ in 0..2 {
        bitfield_actor(&mut state, BitfieldMsg::PieceFailed(Some(0)));
    }
    bitfield_actor(&mut state, BitfieldMsg::PieceFailed(Some(2)));
    bitfield_actor(&mut state, BitfieldMsg::PieceFailed(None));
    for _ in 0..3 {
        assert_eq!(get_requestable_piece(&mut state, bits("10")), Some(0));
    }
    assert_eq!(get_requestable_piece(&mut state, bits("10")), None);
}

#[test]
fn failure_takes_one_worker_off_a_shared_piece() {
    let mut state = BitfieldState::new(bits("0"));
    for _ in 0..3 {
        assert_eq!(get_requestable_piece(&mut state, bits("1")), Some(0));
    }
    bitfield_actor(&mut state, BitfieldMsg::PieceFailed(Some(0)));
    assert_eq!(get_requestable_piece(&mut state, bits("1")), Some(0));
    assert_eq!(get_requestable_piece(&mut state, bits("1")), None);
}

#[test]
fn peer_that_tells_of_fewer_pieces_is_answered() {
    let mut state = BitfieldState::new(bits("00"));
    assert_eq!(get_requestable_piece(&mut state, bits("0")), None);
    assert_eq!(get_requestable_piece(&mut state, bits("")), None);
    assert_eq!(state.next_piece(&bits("1")), Some(0));
    assert_eq!(get_requestable_piece(&mut state, bits("1")), Some(0));
    let mut done = BitfieldState::new(bits("11"));
    assert_eq!(get_requestable_piece(&mut done, bits("1")), None);
}

#[test]
fn leave_to_download_is_given_once() {
    let mut state = BitfieldState::new(bits("010"));
    assert!(flag(bitfield_actor(&mut state, BitfieldMsg::RequestPiece(0))));
    assert!(!flag(bitfield_actor(&mut state, BitfieldMsg::RequestPiece(0))));
    assert!(!flag(bitfield_actor(&mut state, BitfieldMsg::RequestPiece(1))));
    assert!(!flag(bitfield_actor(&mut state, BitfieldMsg::RequestPiece(3))));
    assert_eq!(get_requestable_piece(&mut state, bits("111")), Some(2));
}

#[test]
fn requested_piece_is_taken_out_of_the_first_round() {
    let mut state = BitfieldState::new(bits("00"));
    bitfield_actor(&mut state, BitfieldMsg::Requested(0));
    bitfield_actor(&mut state, BitfieldMsg::Requested(9));
    assert_eq!(get_requestable_piece(&mut state, bits("11")), Some(1));
    assert_eq!(get_requestable_piece(&mut state, bits("11")), Some(0));
}

#[test]
fn download_is_complete_with_every_piece() {
    let mut state = BitfieldState::new(bits("01"));
    assert_eq!(state.len(), 2);
    assert!(!flag(bitfield_actor(&mut state, BitfieldMsg::HasPiece(0))));
    assert!(!flag(bitfield_actor(&mut state, BitfieldMsg::IsComplete)));
    bitfield_actor(&mut state, BitfieldMsg::Have(0));
    bitfield_actor(&mut state, BitfieldMsg::Have(7));
    assert!(flag(bitfield_actor(&mut state, BitfieldMsg::HasPiece(0))));
    assert!(!flag(bitfield_actor(&mut state, BitfieldMsg::HasPiece(7))));
    assert!(flag(bitfield_actor(&mut state, BitfieldMsg::IsComplete)));
    assert!(state.is_complete());
    match bitfield_actor(&mut state, BitfieldMsg::Get) {
        BitfieldReply::Bits(all) => assert_eq!(all, bits("11")),
        _ => panic!("no bits"),
    }
}
