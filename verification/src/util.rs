//! Bit strings and their packing into bytes.
use vstd::prelude::*;

verus! {

/// `Vec::into_boxed_slice`, which keeps the elements in their order.
#[verifier::external_body]
pub(crate) fn boxed_bits(v: Vec<bool>) -> (r: Box<[bool]>)
    ensures
        r@ == v@,
{
    v.into_boxed_slice()
}

/// The pairwise conjunction of two bit strings, as long as the shorter of them.
pub open spec fn bits_and(a: Seq<bool>, b: Seq<bool>) -> Seq<bool> {
    Seq::new(if a.len() <= b.len() { a.len() } else { b.len() }, |i: int| a[i] && b[i])
}

/// Bit `i` of a byte, where bit 0 has the least weight.
pub open spec fn bit_at(byte: u8, i: int) -> bool {
    (byte >> (i as u8)) & 1u8 == 1u8
}

/// The bits of a byte string, the heaviest bit of each byte first.
pub open spec fn unpacked(bytes: Seq<u8>) -> Seq<bool> {
    Seq::new(8 * bytes.len(), |k: int| bit_at(bytes[k / 8], 7 - k % 8))
}

/// The weight `w` where the bit string holds a set bit at `i`, and nothing elsewhere.
pub open spec fn weight_at(bits: Seq<bool>, i: int, w: int) -> int {
    if 0 <= i < bits.len() && bits[i] {
        w
    } else {
        0
    }
}

/// Byte `k` of the packing of a bit string: eight bits, the first of them the heaviest; what lies
/// past the end of the bit string counts as clear.
pub open spec fn packed_byte(bits: Seq<bool>, k: int) -> u8 {
    (weight_at(bits, 8 * k, 128) + weight_at(bits, 8 * k + 1, 64) + weight_at(bits, 8 * k + 2, 32)
        + weight_at(bits, 8 * k + 3, 16) + weight_at(bits, 8 * k + 4, 8) + weight_at(
        bits,
        8 * k + 5,
        4,
    ) + weight_at(bits, 8 * k + 6, 2) + weight_at(bits, 8 * k + 7, 1)) as u8
}

/// The number of bytes that hold `n` bits.
pub open spec fn packed_len(n: nat) -> nat {
    ((n + 7) / 8) as nat
}

/// The packing of a bit string into as many bytes as it needs.
pub open spec fn packed(bits: Seq<bool>) -> Seq<u8> {
    Seq::new(packed_len(bits.len()), |k: int| packed_byte(bits, k))
}

/// A bit of the bit string, clear past its end.
pub open spec fn padded_bit(bits: Seq<bool>, i: int) -> bool {
    0 <= i < bits.len() && bits[i]
}

proof fn lemma_byte_of_bits(
    b0: bool,
    b1: bool,
    b2: bool,
    b3: bool,
    b4: bool,
    b5: bool,
    b6: bool,
    b7: bool,
    byte: u8,
)
    requires
        bit_at(byte, 7) == b0,
        bit_at(byte, 6) == b1,
        bit_at(byte, 5) == b2,
        bit_at(byte, 4) == b3,
        bit_at(byte, 3) == b4,
        bit_at(byte, 2) == b5,
        bit_at(byte, 1) == b6,
        bit_at(byte, 0) == b7,
    ensures
        byte == (if b0 { 128int } else { 0 }) + (if b1 { 64int } else { 0 }) + (if b2 { 32int } else { 0 })
            + (if b3 { 16int } else { 0 }) + (if b4 { 8int } else { 0 }) + (if b5 { 4int } else { 0 })
            + (if b6 { 2int } else { 0 }) + (if b7 { 1int } else { 0 }),
{
    assert(byte == (byte >> 7u8 & 1u8) * 128 + (byte >> 6u8 & 1u8) * 64 + (byte >> 5u8 & 1u8) * 32 + (byte
        >> 4u8 & 1u8) * 16 + (byte >> 3u8 & 1u8) * 8 + (byte >> 2u8 & 1u8) * 4 + (byte >> 1u8 & 1u8) * 2 + (
    byte >> 0u8 & 1u8)) by (bit_vector);
    assert(byte >> 7u8 & 1u8 <= 1 && byte >> 6u8 & 1u8 <= 1 && byte >> 5u8 & 1u8 <= 1 && byte >> 4u8 & 1u8
        <= 1 && byte >> 3u8 & 1u8 <= 1 && byte >> 2u8 & 1u8 <= 1 && byte >> 1u8 & 1u8 <= 1 && byte >> 0u8
        & 1u8 <= 1) by (bit_vector);
}

/// A byte whose bits are those of the bit string is the packed byte.
proof fn lemma_packed_byte(bits: Seq<bool>, k: int, byte: u8)
    requires
        forall|j: int| 0 <= j < 8 ==> bit_at(byte, 7 - j) == #[trigger] padded_bit(bits, 8 * k + j),
        0 <= k,
    ensures
        byte == packed_byte(bits, k),
{
    assert(padded_bit(bits, 8 * k + 0) == bit_at(byte, 7 - 0));
    assert(padded_bit(bits, 8 * k + 1) == bit_at(byte, 7 - 1));
    assert(padded_bit(bits, 8 * k + 2) == bit_at(byte, 7 - 2));
    assert(padded_bit(bits, 8 * k + 3) == bit_at(byte, 7 - 3));
    assert(padded_bit(bits, 8 * k + 4) == bit_at(byte, 7 - 4));
    assert(padded_bit(bits, 8 * k + 5) == bit_at(byte, 7 - 5));
    assert(padded_bit(bits, 8 * k + 6) == bit_at(byte, 7 - 6));
    assert(padded_bit(bits, 8 * k + 7) == bit_at(byte, 7 - 7));
    lemma_byte_of_bits(
        bit_at(byte, 7),
        bit_at(byte, 6),
        bit_at(byte, 5),
        bit_at(byte, 4),
        bit_at(byte, 3),
        bit_at(byte, 2),
        bit_at(byte, 1),
        bit_at(byte, 0),
        byte,
    );
}

/// Setting one bit of a byte leaves the others as they were.
proof fn lemma_set_bit(byte: u8, s: u8)
    requires
        s < 8,
    ensures
        forall|i: int|
            0 <= i < 8 ==> #[trigger] bit_at(byte | (1u8 << s), i) == (i == s || bit_at(byte, i)),
{
    assert forall|i: int| 0 <= i < 8 implies #[trigger] bit_at(byte | (1u8 << s), i) == (i == s
        || bit_at(byte, i)) by {
        let m = i as u8;
        assert(s < 8 && m < 8 ==> ((((byte | (1u8 << s)) >> m) & 1u8 == 1u8) <==> (m == s || (byte >> m) & 1u8
            == 1u8))) by (bit_vector);
    }
}

/// A copy of a bit string.
pub(crate) fn copy_bits(bits: &Box<[bool]>) -> (r: Box<[bool]>)
    ensures
        r@ == bits@,
{
    let mut copy: Vec<bool> = Vec::with_capacity(bits.len());
    let mut i: usize = 0;
    while i < bits.len()
        invariant
            i <= bits@.len(),
            copy@ == bits@.take(i as int),
        decreases bits@.len() - i,
    {
        copy.push(bits[i]);
        i += 1;
    }
    boxed_bits(copy)
}

/// The pieces that both bit strings have.
pub fn bitwise_and(a: &Box<[bool]>, b: &Box<[bool]>) -> (r: Box<[bool]>)
    ensures
        r@ == bits_and(a@, b@),
{
    let len: usize = if a.len() <= b.len() {
        a.len()
    } else {
        b.len()
    };
    let mut result: Vec<bool> = Vec::with_capacity(len);
    let mut i: usize = 0;
    while i < len
        invariant
            len <= a@.len(),
            len <= b@.len(),
            i <= len,
            result@ == bits_and(a@, b@).take(i as int),
            len == bits_and(a@, b@).len(),
        decreases len - i,
    {
        result.push(a[i] && b[i]);
        i += 1;
    }
    boxed_bits(result)
}

/// The bits of a byte string, the heaviest bit of each byte first.
pub fn vec_u8_to_box_bool(vec: Vec<u8>) -> (r: Box<[bool]>)
    requires
        8 * vec@.len() <= isize::MAX,
    ensures
        r@ == unpacked(vec@),
{
    let mut bools: Vec<bool> = Vec::with_capacity(vec.len() * 8);
    let mut n: usize = 0;
    while n < vec.len()
        invariant
            n <= vec@.len(),
            bools@ == unpacked(vec@).take(8 * n),
        decreases vec@.len() - n,
    {
        let byte: u8 = vec[n];
        let mut i: u8 = 8;
        while i > 0
            invariant
                n < vec@.len(),
                byte == vec@[n as int],
                i <= 8,
                bools@ == unpacked(vec@).take(8 * n + (8 - i)),
            decreases i,
        {
            i -= 1;
            let bit: bool = (byte >> i) & 1u8 != 0;
            assert((byte >> i) & 1u8 <= 1) by (bit_vector);
            proof {
                let k: int = 8 * n + (7 - i);
                assert(k / 8 == n && k % 8 == 7 - i);
                assert(unpacked(vec@)[k] == bit);
            }
            bools.push(bit);
        }
        n += 1;
    }
    boxed_bits(bools)
}

/// The bytes that carry a bit string on the wire, the heaviest bit of each byte first and the
/// last byte filled up with clear bits.
pub fn pack_bits(bits: &Box<[bool]>) -> (r: Vec<u8>)
    ensures
        r@ == packed(bits@),
{
    let n: usize = bits.len();
    let len: usize = if n % 8 == 0 {
        n / 8
    } else {
        n / 8 + 1
    };
    let mut bytes: Vec<u8> = Vec::with_capacity(len);
    let mut k: usize = 0;
    while k < len
        invariant
            n == bits@.len(),
            len == packed_len(bits@.len()),
            k <= len,
            bytes@ == packed(bits@).take(k as int),
        decreases len - k,
    {
        let mut byte: u8 = 0;
        let mut j: usize = 0;
        proof {
            assert forall|m: int| 0 <= m < 8 implies !#[trigger] bit_at(0u8, m) by {
                let s = m as u8;
                assert((0u8 >> s) & 1u8 == 0u8) by (bit_vector);
            }
        }
        while j < 8 && 8 * k + j < n
            invariant
                n == bits@.len(),
                len == packed_len(bits@.len()),
                k < len,
                j <= 8,
                8 * k + j <= n,
                forall|m: int|
                    0 <= m < j ==> bit_at(byte, 7 - m) == #[trigger] padded_bit(bits@, 8 * k + m),
                forall|m: int| 0 <= m < 8 - j ==> !#[trigger] bit_at(byte, m),
            decreases 8 - j,
        {
            if bits[8 * k + j] {
                let s: u8 = 7 - j as u8;
                proof {
                    lemma_set_bit(byte, s);
                }
                byte = byte | (1u8 << s);
            }
            j += 1;
        }
        proof {
            lemma_packed_byte(bits@, k as int, byte);
        }
        bytes.push(byte);
        k += 1;
    }
    bytes
}

/// What a peer unpacks from a packed bit string starts with that bit string.
pub proof fn law_unpack_of_pack(bits: Seq<bool>)
    ensures
        unpacked(packed(bits)).take(bits.len() as int) == bits,
        forall|i: int|
            bits.len() <= i < unpacked(packed(bits)).len() ==> !#[trigger] unpacked(packed(bits))[i],
{
    assert forall|i: int| 0 <= i < unpacked(packed(bits)).len() implies #[trigger] unpacked(
        packed(bits),
    )[i] == padded_bit(bits, i) by {
        lemma_packed_bit(bits, i / 8, i % 8);
    }
}

/// Unpacking bytes and packing the bits again gives the bytes back.
pub proof fn law_pack_of_unpack(bytes: Seq<u8>)
    ensures
        packed(unpacked(bytes)) == bytes,
{
    assert forall|k: int| 0 <= k < bytes.len() implies packed(unpacked(bytes))[k] == bytes[k] by {
        let bits = unpacked(bytes);
        assert forall|j: int| 0 <= j < 8 implies bit_at(bytes[k], 7 - j) == #[trigger] padded_bit(
            bits,
            8 * k + j,
        ) by {
            assert((8 * k + j) / 8 == k && (8 * k + j) % 8 == j);
        }
        lemma_packed_byte(bits, k, bytes[k]);
    }
}

proof fn lemma_packed_bit(bits: Seq<bool>, k: int, j: int)
    requires
        0 <= k,
        0 <= j < 8,
    ensures
        bit_at(packed_byte(bits, k), 7 - j) == padded_bit(bits, 8 * k + j),
{
    let b0 = padded_bit(bits, 8 * k);
    let b1 = padded_bit(bits, 8 * k + 1);
    let b2 = padded_bit(bits, 8 * k + 2);
    let b3 = padded_bit(bits, 8 * k + 3);
    let b4 = padded_bit(bits, 8 * k + 4);
    let b5 = padded_bit(bits, 8 * k + 5);
    let b6 = padded_bit(bits, 8 * k + 6);
    let b7 = padded_bit(bits, 8 * k + 7);
    let w0: u8 = if b0 { 1 } else { 0 };
    let w1: u8 = if b1 { 1 } else { 0 };
    let w2: u8 = if b2 { 1 } else { 0 };
    let w3: u8 = if b3 { 1 } else { 0 };
    let w4: u8 = if b4 { 1 } else { 0 };
    let w5: u8 = if b5 { 1 } else { 0 };
    let w6: u8 = if b6 { 1 } else { 0 };
    let w7: u8 = if b7 { 1 } else { 0 };
    let byte = packed_byte(bits, k);
    assert(byte == w0 * 128 + w1 * 64 + w2 * 32 + w3 * 16 + w4 * 8 + w5 * 4 + w6 * 2 + w7);
    assert(byte >> 7u8 & 1u8 == w0 && byte >> 6u8 & 1u8 == w1 && byte >> 5u8 & 1u8 == w2 && byte >> 4u8 & 1u8
        == w3 && byte >> 3u8 & 1u8 == w4 && byte >> 2u8 & 1u8 == w5 && byte >> 1u8 & 1u8 == w6 && byte >> 0u8
        & 1u8 == w7) by (bit_vector)
        requires
            w0 <= 1 && w1 <= 1 && w2 <= 1 && w3 <= 1 && w4 <= 1 && w5 <= 1 && w6 <= 1 && w7 <= 1,
            byte == w0 * 128 + w1 * 64 + w2 * 32 + w3 * 16 + w4 * 8 + w5 * 4 + w6 * 2 + w7,
    ;
}

/// Whether bit `j` of a byte is set, where bit 0 is the heaviest.
pub open spec fn set_bit(byte: u8, j: int) -> bool {
    if j == 0 {
        byte / 128 % 2 == 1
    } else if j == 1 {
        byte / 64 % 2 == 1
    } else if j == 2 {
        byte / 32 % 2 == 1
    } else if j == 3 {
        byte / 16 % 2 == 1
    } else if j == 4 {
        byte / 8 % 2 == 1
    } else if j == 5 {
        byte / 4 % 2 == 1
    } else if j == 6 {
        byte / 2 % 2 == 1
    } else {
        byte % 2 == 1
    }
}

proof fn lemma_set_bits(byte: u8)
    ensures
        forall|j: int| 0 <= j < 8 ==> #[trigger] set_bit(byte, j) == bit_at(byte, 7 - j),
{
    assert((byte >> 7u8) & 1u8 == byte / 128 % 2 && (byte >> 6u8) & 1u8 == byte / 64 % 2 && (byte >> 5u8)
        & 1u8 == byte / 32 % 2 && (byte >> 4u8) & 1u8 == byte / 16 % 2 && (byte >> 3u8) & 1u8 == byte / 8
        % 2 && (byte >> 2u8) & 1u8 == byte / 4 % 2 && (byte >> 1u8) & 1u8 == byte / 2 % 2 && (byte >> 0u8)
        & 1u8 == byte % 2) by (bit_vector);
}

/// A bit string is packed into as few bytes as hold it; bit `i` of it is bit `i % 8` of byte
/// `i / 8`, where the heaviest bit of a byte is the first.
pub proof fn law_packed_bits(bits: Seq<bool>, i: int)
    requires
        0 <= i < bits.len(),
    ensures
        bits.len() <= 8 * packed(bits).len() < bits.len() + 8,
        set_bit(packed(bits)[i / 8], i % 8) == bits[i],
{
    lemma_packed_bit(bits, i / 8, i % 8);
    lemma_set_bits(packed(bits)[i / 8]);
    assert(set_bit(packed(bits)[i / 8], i % 8) == bit_at(packed(bits)[i / 8], 7 - i % 8));
}

/// A byte string unpacks to eight bits for each byte; bit `i` of them is bit `i % 8` of byte
/// `i / 8`, where the heaviest bit of a byte is the first.
pub proof fn law_unpacked_bits(bytes: Seq<u8>, i: int)
    requires
        0 <= i < 8 * bytes.len(),
    ensures
        unpacked(bytes).len() == 8 * bytes.len(),
        unpacked(bytes)[i] == set_bit(bytes[i / 8], i % 8),
{
    lemma_set_bits(bytes[i / 8]);
    assert(set_bit(bytes[i / 8], i % 8) == bit_at(bytes[i / 8], 7 - i % 8));
}

/// The pieces that both bit strings have are those that the one has and the other has; of the
/// longer one, what has no counterpart in the other is passed over.
pub proof fn law_pieces_of_both(a: Seq<bool>, b: Seq<bool>)
    ensures
        bits_and(a, b).len() <= a.len(),
        bits_and(a, b).len() <= b.len(),
        bits_and(a, b).len() == a.len() || bits_and(a, b).len() == b.len(),
        forall|i: int|
            0 <= i < a.len() && i < b.len() ==> #[trigger] bits_and(a, b)[i] == (a[i] && b[i]),
{
}

} // verus!
