use bitfrost::util::{bitwise_and, pack_bits, vec_u8_to_box_bool};

fn bits(s: &str) -> Box<[bool]> {
    s.chars().map(|c| c == '1').collect::<Vec<bool>>().into_boxed_slice()
}

#[test]
fn unpacks_heaviest_bit_first() {
    let bits = vec_u8_to_box_bool(vec![0x80, 0x01]);
    assert_eq!(bits.len(), 16);
    assert!(bits[0] && bits[15]);
    assert_eq!(bits.iter().filter(|b| **b).count(), 2);
}

#[test]
fn unpacks_nothing_from_nothing() {
    assert_eq!(vec_u8_to_box_bool(vec![]).len(), 0);
}

#[test]
fn conjunction_is_as_long_as_the_shorter() {
    assert_eq!(bitwise_and(&bits("1101"), &bits("101")), bits("100"));
    assert_eq!(bitwise_and(&bits("01"), &bits("1111")), bits("01"));
    assert_eq!(bitwise_and(&bits(""), &bits("1")), bits(""));
}

#[test]
fn packs_into_whole_bytes() {
    assert_eq!(pack_bits(&bits("101")), vec![0b1010_0000]);
    assert_eq!(pack_bits(&bits("1000000011")), vec![0x80, 0xc0]);
    assert_eq!(pack_bits(&bits("")), Vec::<u8>::new());
}

#[test]
fn packing_undoes_unpacking() {
    let bytes: Vec<u8> = (0..=255).collect();
    assert_eq!(pack_bits(&vec_u8_to_box_bool(bytes.clone())), bytes);
}

#[test]
fn unpacking_undoes_packing_up_to_clear_bits() {
    let before = bits("110100111");
    let after = vec_u8_to_box_bool(pack_bits(&before));
    assert_eq!(after.len(), 16);
    assert_eq!(&after[..9], &before[..]);
    assert!(after[9..].iter().all(|b| !*b));
}
