//! The messages of the peer protocol: how they are framed, written and read.
use crate::util::{law_packed_bits, law_unpack_of_pack, pack_bits, packed, set_bit, unpacked};
use vstd::prelude::*;

verus! {

/// The two bytes of a number, the heaviest first.
pub open spec fn be16(x: u16) -> Seq<u8> {
    seq![(x / 256) as u8, (x % 256) as u8]
}

/// The four bytes of a number, the heaviest first.
pub open spec fn be32(x: u32) -> Seq<u8> {
    seq![
        (x / 0x100_0000) as u8,
        (x / 0x1_0000 % 256) as u8,
        (x / 256 % 256) as u8,
        (x % 256) as u8,
    ]
}

/// The eight bytes of a number, the heaviest first.
pub open spec fn be64(x: u64) -> Seq<u8> {
    be32((x / 0x1_0000_0000) as u32) + be32((x % 0x1_0000_0000) as u32)
}

/// The number whose two bytes start at `at`, the heaviest first.
pub open spec fn read16(s: Seq<u8>, at: int) -> u16 {
    (s[at] * 256 + s[at + 1]) as u16
}

/// The number whose four bytes start at `at`, the heaviest first.
pub open spec fn read32(s: Seq<u8>, at: int) -> u32 {
    (s[at] * 0x100_0000 + s[at + 1] * 0x1_0000 + s[at + 2] * 256 + s[at + 3]) as u32
}

/// Reading the four bytes of a number gives the number.
pub proof fn law_read32_of_be32(x: u32)
    ensures
        be32(x).len() == 4,
        read32(be32(x), 0) == x,
{
    assert(x == x / 0x100_0000 * 0x100_0000 + x / 0x1_0000 % 256 * 0x1_0000 + x / 256 % 256 * 256 + x
        % 256);
}

/// Reading the two bytes of a number gives the number.
pub proof fn law_read16_of_be16(x: u16)
    ensures
        be16(x).len() == 2,
        read16(be16(x), 0) == x,
{
}

pub(crate) proof fn lemma_read32_window(s: Seq<u8>, at: int, x: u32)
    requires
        0 <= at,
        at + 4 <= s.len(),
        s.subrange(at, at + 4) == be32(x),
    ensures
        read32(s, at) == x,
{
    law_read32_of_be32(x);
    let w = s.subrange(at, at + 4);
    assert(w[0] == s[at] && w[1] == s[at + 1] && w[2] == s[at + 2] && w[3] == s[at + 3]);
}

pub(crate) fn push_be16(out: &mut Vec<u8>, x: u16)
    ensures
        final(out)@ == old(out)@ + be16(x),
{
    out.push((x / 256) as u8);
    out.push((x % 256) as u8);
}

pub(crate) fn push_be32(out: &mut Vec<u8>, x: u32)
    ensures
        final(out)@ == old(out)@ + be32(x),
{
    out.push((x / 0x100_0000) as u8);
    out.push((x / 0x1_0000 % 256) as u8);
    out.push((x / 256 % 256) as u8);
    out.push((x % 256) as u8);
}

pub(crate) fn push_be64(out: &mut Vec<u8>, x: u64)
    ensures
        final(out)@ == old(out)@ + be64(x),
{
    push_be32(out, (x / 0x1_0000_0000) as u32);
    push_be32(out, (x % 0x1_0000_0000) as u32);
}

pub(crate) fn read_be16(s: &[u8], at: usize) -> (x: u16)
    requires
        at + 2 <= s@.len(),
    ensures
        x == read16(s@, at as int),
{
    s[at] as u16 * 256 + s[at + 1] as u16
}

pub(crate) fn read_be32(s: &[u8], at: usize) -> (x: u32)
    requires
        at + 4 <= s@.len(),
    ensures
        x == read32(s@, at as int),
{
    s[at] as u32 * 0x100_0000 + s[at + 1] as u32 * 0x1_0000 + s[at + 2] as u32 * 256 + s[at + 3] as u32
}

/// A message on the wire: its length, its id, and its payload.
pub open spec fn framed(id: u8, payload: Seq<u8>) -> Seq<u8> {
    be32((1 + payload.len()) as u32) + seq![id] + payload
}

/// How far the bytes of a message have been read.
pub enum ReadStep {
    /// So many more bytes are to be read first.
    Need(usize),
    /// The message is complete: its id and its payload.
    Message(u8, Vec<u8>),
}

/// `ReadStep` as a plain value.
pub enum ReadView {
    Need(int),
    Message(u8, Seq<u8>),
}

impl View for ReadStep {
    type V = ReadView;

    open spec fn view(&self) -> ReadView {
        match *self {
            ReadStep::Need(n) => ReadView::Need(n as int),
            ReadStep::Message(id, payload) => ReadView::Message(id, payload@),
        }
    }
}

/// What the bytes read so far make of a message. The length comes first, in four bytes. A length
/// of zero is a keep-alive, which is read as a message of id 0 with nothing in it. Any other
/// length counts the id, in one byte, and the payload.
pub open spec fn read_message(bytes: Seq<u8>) -> ReadView {
    if bytes.len() < 4 {
        ReadView::Need(4 - bytes.len())
    } else if read32(bytes, 0) == 0 {
        ReadView::Message(0, Seq::empty())
    } else if bytes.len() < 5 {
        ReadView::Need(1)
    } else if bytes.len() < 4 + read32(bytes, 0) {
        ReadView::Need(4 + read32(bytes, 0) - bytes.len())
    } else {
        ReadView::Message(bytes[4], bytes.subrange(5, 4 + read32(bytes, 0)))
    }
}

/// Reads a message from the bytes that a peer has sent so far, or says how many to read next.
pub fn read_peer_message(bytes: &[u8]) -> (r: ReadStep)
    ensures
        r@ == read_message(bytes@),
{
    if bytes.len() < 4 {
        return ReadStep::Need(4 - bytes.len());
    }
    let size: u32 = read_be32(bytes, 0);
    if size == 0 {
        let payload: Vec<u8> = Vec::new();
        assert(payload@ == Seq::<u8>::empty());
        return ReadStep::Message(0, payload);
    }
    if bytes.len() < 5 {
        return ReadStep::Need(1);
    }
    let rest: usize = size as usize - 1;
    if bytes.len() - 5 < rest {
        return ReadStep::Need(rest - (bytes.len() - 5));
    }
    let mut payload: Vec<u8> = Vec::with_capacity(rest);
    let mut i: usize = 0;
    while i < rest
        invariant
            i <= rest,
            5 + rest <= bytes.len(),
            payload@ == bytes@.subrange(5, 5 + i),
        decreases rest - i,
    {
        payload.push(bytes[5 + i]);
        i += 1;
    }
    ReadStep::Message(bytes[4], payload)
}

/// A message that was framed is read back as it was, and is not complete before its last byte.
pub proof fn law_read_of_framed(id: u8, payload: Seq<u8>, rest: Seq<u8>)
    requires
        payload.len() < 0xffff_ffff,
    ensures
        read_message(framed(id, payload) + rest) == ReadView::Message(id, payload),
        forall|k: int|
            0 <= k < framed(id, payload).len() ==> (#[trigger] read_message(
                framed(id, payload).take(k),
            ) matches ReadView::Need(n) && 0 < n <= framed(id, payload).len() - k),
{
    let size = (1 + payload.len()) as u32;
    law_read32_of_be32(size);
    let all = framed(id, payload) + rest;
    assert(all.subrange(0, 4) =~= be32(size));
    lemma_read32_window(all, 0, size);
    assert(all.subrange(5, 4 + size) =~= payload);
    assert forall|k: int| 0 <= k < framed(id, payload).len() implies (#[trigger] read_message(
        framed(id, payload).take(k),
    ) matches ReadView::Need(n) && 0 < n <= framed(id, payload).len() - k) by {
        let part = framed(id, payload).take(k);
        if k >= 4 {
            assert(part.subrange(0, 4) =~= be32(size));
            lemma_read32_window(part, 0, size);
        }
    }
}

/// The message that tells a peer which pieces are here.
pub open spec fn bitfield_message(bits: Seq<bool>) -> Seq<u8> {
    framed(5, packed(bits))
}

/// Builds the message that tells a peer which pieces are here.
pub fn create_bitfield_message(bits: &Box<[bool]>) -> (r: Vec<u8>)
    ensures
        r@ == bitfield_message(bits@),
{
    let bytes: Vec<u8> = pack_bits(bits);
    let mut message: Vec<u8> = Vec::new();
    assert(bytes@.len() <= bits.len() / 8 + 1);
    push_be32(&mut message, (1 + bytes.len()) as u32);
    message.push(5);
    message.extend_from_slice(bytes.as_slice());
    assert(message@ =~= bitfield_message(bits@));
    message
}

/// The message that asks for a block.
pub open spec fn request_message(index: u32, begin: u32, size: u32) -> Seq<u8> {
    framed(6, be32(index) + be32(begin) + be32(size))
}

/// Builds the message that asks for a block.
pub fn create_request(index: u32, begin: u32, size: u32) -> (r: Vec<u8>)
    ensures
        r@ == request_message(index, begin, size),
{
    let mut request: Vec<u8> = Vec::with_capacity(17);
    push_be32(&mut request, 13);
    request.push(6);
    push_be32(&mut request, index);
    push_be32(&mut request, begin);
    push_be32(&mut request, size);
    assert(request@ =~= request_message(index, begin, size));
    request
}

proof fn lemma_three_numbers(x: u32, y: u32, z: u32)
    ensures
        (be32(x) + be32(y) + be32(z)).len() == 12,
        read32(be32(x) + be32(y) + be32(z), 0) == x,
        read32(be32(x) + be32(y) + be32(z), 4) == y,
        read32(be32(x) + be32(y) + be32(z), 8) == z,
{
    let all = be32(x) + be32(y) + be32(z);
    assert(all.subrange(0, 4) =~= be32(x));
    assert(all.subrange(4, 8) =~= be32(y));
    assert(all.subrange(8, 12) =~= be32(z));
    lemma_read32_window(all, 0, x);
    lemma_read32_window(all, 4, y);
    lemma_read32_window(all, 8, z);
}

/// A peer reads from a request the block that is asked for.
pub proof fn law_request_is_read_back(index: u32, begin: u32, size: u32)
    ensures
        read_message(request_message(index, begin, size)) == ReadView::Message(
            6,
            be32(index) + be32(begin) + be32(size),
        ),
        read32(be32(index) + be32(begin) + be32(size), 0) == index,
        read32(be32(index) + be32(begin) + be32(size), 4) == begin,
        read32(be32(index) + be32(begin) + be32(size), 8) == size,
{
    lemma_three_numbers(index, begin, size);
    let payload = be32(index) + be32(begin) + be32(size);
    law_read_of_framed(6, payload, Seq::empty());
    assert(framed(6, payload) + Seq::<u8>::empty() =~= framed(6, payload));
}

/// A peer reads from a bitfield message which pieces are here, with clear bits behind them that
/// fill the last byte.
pub proof fn law_bitfield_is_read_back(bits: Seq<bool>)
    requires
        packed(bits).len() < 0xffff_ffff,
    ensures
        read_message(bitfield_message(bits)) == ReadView::Message(5, packed(bits)),
        forall|i: int|
            0 <= i < unpacked(packed(bits)).len() ==> #[trigger] unpacked(packed(bits))[i] == (i
                < bits.len() && bits[i]),
{
    law_read_of_framed(5, packed(bits), Seq::empty());
    assert(bitfield_message(bits) + Seq::<u8>::empty() =~= bitfield_message(bits));
    law_unpack_of_pack(bits);
    assert forall|i: int| 0 <= i < bits.len() implies #[trigger] unpacked(packed(bits))[i]
        == bits[i] by {
        assert(unpacked(packed(bits)).take(bits.len() as int)[i] == bits[i]);
    }
}

/// The number that a byte string stands for, the heaviest byte first.
pub open spec fn number(bytes: Seq<u8>) -> nat
    decreases bytes.len(),
{
    if bytes.len() == 0 {
        0
    } else {
        number(bytes.drop_last()) * 256 + bytes.last() as nat
    }
}

/// Two, four and eight bytes, weighed one by one.
pub(crate) proof fn lemma_number(bytes: Seq<u8>)
    ensures
        bytes.len() == 2 ==> number(bytes) == bytes[0] * 0x100 + bytes[1],
        bytes.len() == 4 ==> number(bytes) == bytes[0] * 0x100_0000 + bytes[1] * 0x1_0000 + bytes[2]
            * 0x100 + bytes[3],
        bytes.len() == 8 ==> number(bytes) == number(bytes.take(4)) * 0x1_0000_0000 + number(
            bytes.skip(4),
        ),
{
    reveal_with_fuel(number, 9);
    if bytes.len() == 2 {
        assert(bytes.drop_last().drop_last() =~= Seq::empty());
    }
    if bytes.len() == 4 {
        assert(bytes.drop_last().drop_last().drop_last().drop_last() =~= Seq::empty());
    }
    if bytes.len() == 8 {
        let low = bytes.skip(4);
        let high = bytes.take(4);
        assert(bytes.drop_last().drop_last().drop_last().drop_last() =~= high);
        assert(low.drop_last().drop_last().drop_last().drop_last() =~= Seq::empty());
    }
}

/// The bytes of a number stand for that number: two, four or eight of them, the heaviest first.
pub proof fn law_bytes_stand_for_the_number(x: u16, y: u32, z: u64)
    ensures
        be16(x).len() == 2,
        number(be16(x)) == x,
        be32(y).len() == 4,
        number(be32(y)) == y,
        be64(z).len() == 8,
        number(be64(z)) == z,
{
    lemma_number(be16(x));
    lemma_number(be32(y));
    law_read32_of_be32(y);
    let high = (z / 0x1_0000_0000) as u32;
    let low = (z % 0x1_0000_0000) as u32;
    lemma_number(be64(z));
    lemma_number(be32(high));
    lemma_number(be32(low));
    law_read32_of_be32(high);
    law_read32_of_be32(low);
    assert(be64(z).take(4) =~= be32(high));
    assert(be64(z).skip(4) =~= be32(low));
}

/// What is read from two or four bytes is the number that they stand for, the heaviest byte first.
pub proof fn law_read_number_is_that_of_the_bytes(s: Seq<u8>, at: int)
    requires
        0 <= at,
    ensures
        at + 2 <= s.len() ==> read16(s, at) == number(s.subrange(at, at + 2)),
        at + 4 <= s.len() ==> read32(s, at) == number(s.subrange(at, at + 4)),
{
    if at + 2 <= s.len() {
        lemma_number(s.subrange(at, at + 2));
    }
    if at + 4 <= s.len() {
        lemma_number(s.subrange(at, at + 4));
    }
}

/// A message starts with the number of the bytes that follow, in four bytes; then comes its id, in
/// one byte, and then its payload.
pub proof fn law_framed_fields(id: u8, payload: Seq<u8>)
    requires
        payload.len() < 0xffff_ffff,
    ensures
        framed(id, payload).len() == payload.len() + 5,
        number(framed(id, payload).take(4)) == payload.len() + 1,
        framed(id, payload)[4] == id,
        framed(id, payload).skip(5) == payload,
{
    law_bytes_stand_for_the_number(0, (1 + payload.len()) as u32, 0);
    assert(framed(id, payload).take(4) =~= be32((1 + payload.len()) as u32));
    assert(framed(id, payload).skip(5) =~= payload);
}

/// A request for a block has seventeen bytes, of which thirteen follow its length: its id, which is
/// six, and the index of the piece, the offset of the block and its size, in four bytes each.
pub proof fn law_request_fields(index: u32, begin: u32, size: u32)
    ensures
        request_message(index, begin, size).len() == 17,
        number(request_message(index, begin, size).subrange(0, 4)) == 13,
        request_message(index, begin, size)[4] == 6,
        number(request_message(index, begin, size).subrange(5, 9)) == index,
        number(request_message(index, begin, size).subrange(9, 13)) == begin,
        number(request_message(index, begin, size).subrange(13, 17)) == size,
{
    let message = request_message(index, begin, size);
    law_bytes_stand_for_the_number(0, index, 0);
    law_bytes_stand_for_the_number(0, begin, 0);
    law_bytes_stand_for_the_number(0, size, 0);
    law_bytes_stand_for_the_number(0, 13, 0);
    assert(message.subrange(0, 4) =~= be32(13));
    assert(message.subrange(5, 9) =~= be32(index));
    assert(message.subrange(9, 13) =~= be32(begin));
    assert(message.subrange(13, 17) =~= be32(size));
}

/// A message that tells which pieces are here carries the id five, and the bits of its payload are
/// set exactly for the pieces that are: eight to a byte, the heaviest first.
pub proof fn law_bitfield_fields(bits: Seq<bool>, i: int)
    requires
        bits.len() + 8 <= 0x7_ffff_fff8,
        0 <= i < bits.len(),
    ensures
        ({
            let message = bitfield_message(bits);
            &&& number(message.take(4)) + 4 == message.len()
            &&& 8 * (message.len() - 5) < bits.len() + 8
            &&& message[4] == 5
            &&& 5 + i / 8 < message.len()
            &&& set_bit(message[5 + i / 8], i % 8) == bits[i]
        }),
{
    law_packed_bits(bits, i);
    law_framed_fields(5, packed(bits));
    assert(bitfield_message(bits).skip(5)[i / 8] == bitfield_message(bits)[5 + i / 8]);
}

/// What is read from the bytes of a peer is what they say: nothing before there are four of them;
/// of a length of zero the message of id zero with nothing in it; and otherwise, once all are
/// there, the byte behind the length as the id and what follows it, as long as the length says, as
/// the payload. Until then the bytes that are missing are asked for, and no more.
pub proof fn law_message_is_what_the_bytes_say(bytes: Seq<u8>)
    ensures
        bytes.len() < 4 ==> read_message(bytes) == ReadView::Need(4 - bytes.len()),
        bytes.len() >= 4 ==> {
            let size = number(bytes.take(4)) as int;
            &&& size == 0 ==> read_message(bytes) == ReadView::Message(0, Seq::empty())
            &&& size > 0 && bytes.len() == 4 ==> read_message(bytes) == ReadView::Need(1)
            &&& size > 0 && 4 < bytes.len() < 4 + size ==> read_message(bytes) == ReadView::Need(
                4 + size - bytes.len(),
            )
            &&& size > 0 && bytes.len() >= 4 + size ==> (read_message(bytes) matches ReadView::Message(
                id,
                payload,
            ) && id == bytes[4] && payload.len() == size - 1 && forall|k: int|
                0 <= k < payload.len() ==> #[trigger] payload[k] == bytes[5 + k])
        },
{
    if bytes.len() >= 4 {
        law_read_number_is_that_of_the_bytes(bytes, 0);
        assert(bytes.take(4) =~= bytes.subrange(0, 4));
    }
}

/// The plain value of what was read tells the same number of bytes, or the same id and payload.
pub proof fn law_plain_read_step(step: ReadStep)
    ensures
        step matches ReadStep::Need(n) ==> step@ == ReadView::Need(n as int),
        step matches ReadStep::Message(id, payload) ==> step@ == ReadView::Message(id, payload@),
{
}

} // verus!
