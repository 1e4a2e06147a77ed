use bitfrost::bitfield::{
    bitfield_actor, get_requestable_piece, BitfieldMsg, BitfieldReply, BitfieldState,
};

fn bits(s: &str) -> Box<[bool]> {
    s.chars().map(|c| c == '1').collect::<Vec<bool>>().into_boxed_slice()
}

#[test]
fn plain_account_gives_a_piece_to_one_worker() {
    let mut state = BitfieldState::new(bits("010"));
    assert_eq!(get_requestable_piece(&mut state, bits("111")), Some(0));
    assert_eq!(get_requestable_piece(&mut state, bits("100")), None);
    assert_eq!(get_requestable_piece(&mut state, bits("111")), Some(2));
    assert_eq!(get_requestable_piece(&mut state, bits("111")), None);
}

#[test]
fn plain_account_takes_a_short_peer() {
    let mut state = BitfieldState::new(bits("00"));
    assert_eq!(get_requestable_piece(&mut state, bits("0")), None);
    assert_eq!(get_requestable_piece(&mut state, bits("1")), Some(0));
}

#[test]
fn plain_account_gives_out_a_failed_piece_again() {
    let mut state = BitfieldState::new(bits("00"));
    assert_eq!(get_requestable_piece(&mut state, bits("11")), Some(0));
    bitfield_actor(&mut state, BitfieldMsg::PieceFailed(0));
    bitfield_actor(&mut state, BitfieldMsg::PieceFailed(0));
    bitfield_actor(&mut state, BitfieldMsg::PieceFailed(5));
    assert_eq!(get_requestable_piece(&mut state, bits("11")), Some(0));
}

#[test]
fn plain_account_gives_out_a_piece_that_was_only_registered() {
    let mut state = BitfieldState::new(bits("00"));
    bitfield_actor(&mut state, BitfieldMsg::Requested(0));
    bitfield_actor(&mut state, BitfieldMsg::Requested(8));
    assert_eq!(get_requestable_piece(&mut state, bits("11")), Some(0));
}

#[test]
fn plain_account_knows_what_is_here() {
    let mut state = BitfieldState::new(bits("00"));
    bitfield_actor(&mut state, BitfieldMsg::Have(1));
    bitfield_actor(&mut state, BitfieldMsg::Have(2));
    assert!(matches!(
        bitfield_actor(&mut state, BitfieldMsg::HasPiece(1)),
        BitfieldReply::Flag(true)
    ));
    assert!(matches!(
        bitfield_actor(&mut state, BitfieldMsg::HasPiece(2)),
        BitfieldReply::Flag(false)
    ));
    match bitfield_actor(&mut state, BitfieldMsg::Get) {
        BitfieldReply::Bits(all) => assert_eq!(all, bits("01")),
        _ => panic!("no bits"),
    }
}
