//! The blocks of a piece: which are asked for, which have arrived, and whether a piece is whole.
use crate::hash::{sha1_digest, sha1_of};
use crate::wire::{create_request, law_request_fields, number, request_message};
use std::collections::HashMap;
use vstd::prelude::*;

verus! {

/// The size of a block, except for the last one of a piece, which may be shorter.
pub const BLOCK_SIZE: usize = 16384;

/// The most requests that a worker leaves unanswered.
pub const MAX_WORKER_REQUESTS: usize = 5;

/// The size of the block at `begin` of a piece of `piece_size` bytes: nothing past its end.
pub open spec fn block_len(begin: int, piece_size: int) -> int {
    if begin >= piece_size {
        0
    } else if piece_size - begin <= BLOCK_SIZE {
        piece_size - begin
    } else {
        BLOCK_SIZE as int
    }
}

/// The bytes that the blocks at the offsets of `begins` below `n` make up.
pub open spec fn block_total(begins: Set<u32>, piece_size: int, n: nat) -> int
    decreases n,
{
    if n == 0 {
        0
    } else {
        block_total(begins, piece_size, (n - 1) as nat) + if begins.contains((n - 1) as u32) {
            block_len(n - 1, piece_size)
        } else {
            0
        }
    }
}

/// The number of offsets.
pub open spec fn offsets() -> nat {
    0x1_0000_0000
}

/// Whether every block asked for has arrived, and together they make up the piece.
pub open spec fn all_received(pending: Map<u32, bool>, piece_size: int) -> bool {
    &&& forall|b: u32| #[trigger] pending.contains_key(b) ==> pending[b]
    &&& block_total(pending.dom(), piece_size, offsets()) >= piece_size
}

proof fn lemma_block_total_bound(begins: Set<u32>, piece_size: int, n: nat)
    ensures
        0 <= block_total(begins, piece_size, n) <= BLOCK_SIZE * n,
    decreases n,
{
    if n > 0 {
        lemma_block_total_bound(begins, piece_size, (n - 1) as nat);
    }
}

proof fn lemma_block_total_insert(begins: Set<u32>, b: u32, piece_size: int, n: nat)
    requires
        !begins.contains(b),
        n <= offsets(),
    ensures
        block_total(begins.insert(b), piece_size, n) == block_total(begins, piece_size, n) + if b < n {
            block_len(b as int, piece_size)
        } else {
            0
        },
    decreases n,
{
    if n > 0 {
        lemma_block_total_insert(begins, b, piece_size, (n - 1) as nat);
        assert((n - 1) as u32 as int == n - 1);
    }
}

proof fn lemma_block_total_empty(piece_size: int, n: nat)
    ensures
        block_total(Set::empty(), piece_size, n) == 0,
    decreases n,
{
    if n > 0 {
        lemma_block_total_empty(piece_size, (n - 1) as nat);
    }
}

/// Checks whether every block asked for has arrived, and together they make up the piece.
pub fn received_all_blocks(pending: &HashMap<u32, bool>, piece_size: usize) -> (r: bool)
    ensures
        r == all_received(pending@, piece_size as int),
{
    broadcast use vstd::std_specs::hash::group_hash_axioms;

    let mut total: u64 = 0;
    let ghost mut seen: Set<u32> = Set::empty();
    proof {
        lemma_block_total_empty(piece_size as int, offsets());
    }
    for (begin, fulfilled) in it: pending.iter()
        invariant
            total == block_total(seen, piece_size as int, offsets()),
            it.seq().no_duplicates(),
            forall|i: int|
                0 <= i < it.seq().len() ==> pending@.contains_key(*(#[trigger] it.seq()[i]).0)
                    && pending@[*it.seq()[i].0] == *it.seq()[i].1,
            forall|b: u32| #[trigger]
                pending@.contains_key(b) ==> it.seq().contains((&b, &pending@[b])),
            forall|i: int| 0 <= i < it.index() ==> seen.contains(*(#[trigger] it.seq()[i]).0),
            forall|b: u32| #[trigger]
                seen.contains(b) ==> exists|i: int|
                    0 <= i < it.index() && *(#[trigger] it.seq()[i]).0 == b && *it.seq()[i].1,
    {
        if !*fulfilled {
            assert(pending@.contains_key(*begin));
            return false;
        }
        let len: u64 = if *begin as u64 >= piece_size as u64 {
            0
        } else if piece_size as u64 - *begin as u64 <= BLOCK_SIZE as u64 {
            piece_size as u64 - *begin as u64
        } else {
            BLOCK_SIZE as u64
        };
        proof {
            if seen.contains(*begin) {
                let i = choose|i: int| 0 <= i < it.index() && *(#[trigger] it.seq()[i]).0 == *begin && *it.seq()[i].1;
                assert(it.seq()[i] == it.seq()[it.index() as int]);
            }
            lemma_block_total_insert(seen, *begin, piece_size as int, offsets());
            lemma_block_total_bound(seen.insert(*begin), piece_size as int, offsets());
            seen = seen.insert(*begin);
        }
        total = total + len;
    }
    proof {
        assert(forall|b: u32| #[trigger] pending@.contains_key(b) ==> seen.contains(b) && pending@[b]);
        assert(seen =~= pending@.dom());
    }
    total >= piece_size as u64
}

/// The requests that have not been answered.
pub open spec fn unanswered(pending: Map<u32, bool>) -> Set<u32> {
    pending.dom().filter(|b: u32| !pending[b])
}

/// Counts the requests that have not been answered.
pub fn count_unanswered(pending: &HashMap<u32, bool>) -> (r: usize)
    ensures
        r == unanswered(pending@).len(),
{
    broadcast use vstd::std_specs::hash::group_hash_axioms;

    let mut count: usize = 0;
    let ghost mut seen: Set<u32> = Set::empty();
    for (begin, fulfilled) in it: pending.iter()
        invariant
            seen.finite(),
            count == seen.len(),
            count <= it.index(),
            it.seq().len() == pending@.dom().len(),
            it.seq().len() == pending.len(),
            it.seq().no_duplicates(),
            forall|i: int|
                0 <= i < it.seq().len() ==> pending@.contains_key(*(#[trigger] it.seq()[i]).0)
                    && pending@[*it.seq()[i].0] == *it.seq()[i].1,
            forall|b: u32| #[trigger]
                pending@.contains_key(b) ==> it.seq().contains((&b, &pending@[b])),
            forall|i: int|
                0 <= i < it.index() && !*it.seq()[i].1 ==> seen.contains(*(#[trigger] it.seq()[i]).0),
            forall|b: u32| #[trigger]
                seen.contains(b) ==> exists|i: int|
                    0 <= i < it.index() && *(#[trigger] it.seq()[i]).0 == b && !*it.seq()[i].1,
    {
        if !*fulfilled {
            proof {
                if seen.contains(*begin) {
                    let i = choose|i: int|
                        0 <= i < it.index() && *(#[trigger] it.seq()[i]).0 == *begin
                            && !*it.seq()[i].1;
                    assert(it.seq()[i] == it.seq()[it.index() as int]);
                }
                seen = seen.insert(*begin);
            }
            count = count + 1;
        }
    }
    proof {
        assert(forall|b: u32| #[trigger]
            pending@.contains_key(b) && !pending@[b] ==> seen.contains(b));
        assert(seen =~= unanswered(pending@));
    }
    count
}

/// The first offset from `from` on, in steps of a block and below `piece_size`, whose block has
/// not been asked for. Offsets are told apart by their lower 32 bits.
pub open spec fn first_missing(pending: Map<u32, bool>, piece_size: int, from: int) -> Option<int>
    decreases
            if from < piece_size {
                piece_size - from
            } else {
                0
            },
{
    if from >= piece_size {
        None
    } else if !pending.contains_key(from as u32) {
        Some(from)
    } else {
        first_missing(pending, piece_size, from + BLOCK_SIZE)
    }
}

/// The offset of the next block to ask for, if any is left.
pub fn next_missing(pending: &HashMap<u32, bool>, piece_size: u64) -> (r: Option<u64>)
    ensures
        r matches Some(b) ==> first_missing(pending@, piece_size as int, 0) == Some(b as int),
        r is None ==> first_missing(pending@, piece_size as int, 0) is None,
{
    broadcast use vstd::std_specs::hash::group_hash_axioms;

    let mut i: u64 = 0;
    if piece_size == 0 {
        return None;
    }
    loop
        invariant
            i < piece_size,
            first_missing(pending@, piece_size as int, 0) == first_missing(
                pending@,
                piece_size as int,
                i as int,
            ),
        decreases piece_size - i,
    {
        if !pending.contains_key(&(i as u32)) {
            return Some(i);
        }
        if piece_size - i <= BLOCK_SIZE as u64 {
            proof {
                reveal_with_fuel(first_missing, 2);
            }
            return None;
        }
        i = i + BLOCK_SIZE as u64;
    }
}

/// Whether the torrent holds the digest of a piece of this index.
pub open spec fn has_digest(pieces: Seq<u8>, index: int) -> bool {
    0 <= index && 20 * index + 20 <= pieces.len()
}

/// The digest of a piece, as the torrent holds it.
pub open spec fn piece_digest(pieces: Seq<u8>, index: int) -> Seq<u8> {
    pieces.subrange(20 * index, 20 * index + 20)
}

/// Whether the bytes are the piece that the torrent means: whether their digest is the one that
/// it holds.
pub fn verify_piece(pieces: &Vec<u8>, index: u32, piece_buffer: &Vec<u8>) -> (r: bool)
    requires
        has_digest(pieces@, index as int),
    ensures
        r == (sha1_of(piece_buffer@) == piece_digest(pieces@, index as int)),
{
    let digest: [u8; 20] = sha1_digest(piece_buffer.as_slice());
    assert(20 * index + 20 <= pieces.len());
    let start: usize = index as usize * 20;
    let mut i: usize = 0;
    while i < 20
        invariant
            i <= 20,
            digest@ == sha1_of(piece_buffer@),
            start == 20 * index,
            start + 20 <= pieces.len(),
            forall|k: int| 0 <= k < i ==> #[trigger] digest@[k] == pieces@[start + k],
        decreases 20 - i,
    {
        if digest[i] != pieces[start + i] {
            assert(digest@[i as int] != piece_digest(pieces@, index as int)[i as int]);
            return false;
        }
        i += 1;
    }
    assert(digest@ =~= piece_digest(pieces@, index as int));
    true
}

/// The size that a request for the block at `begin` states.
pub open spec fn request_size(begin: u32, piece_size: u32) -> u32 {
    if piece_size - begin <= BLOCK_SIZE {
        (piece_size - begin) as u32
    } else {
        BLOCK_SIZE as u32
    }
}

/// The message that asks for the block at `begin` of a piece. Index, offset and size go out by
/// their lower 32 bits.
pub open spec fn block_request(index: usize, begin: usize, piece_size: usize) -> Seq<u8> {
    request_message(index as u32, begin as u32, request_size(begin as u32, piece_size as u32))
}

/// Builds the message that asks for the block at `begin` of a piece.
pub fn create_block_request(index: usize, begin: usize, piece_size: usize) -> (r: Vec<u8>)
    requires
        (begin as u32) <= (piece_size as u32),
    ensures
        r@ == block_request(index, begin, piece_size),
{
    let left: u32 = piece_size as u32 - begin as u32;
    let size: u32 = if left <= BLOCK_SIZE as u32 {
        left
    } else {
        BLOCK_SIZE as u32
    };
    create_request(index as u32, begin as u32, size)
}

/// A buffer after `data` was written over it at `at`.
pub open spec fn overwritten(buffer: Seq<u8>, at: int, data: Seq<u8>) -> Seq<u8> {
    buffer.take(at) + data + buffer.skip(at + data.len())
}

/// Writes the part of `payload` from `from` on over the buffer at `at`.
pub(crate) fn write_block(buffer: &mut Vec<u8>, at: usize, payload: &Vec<u8>, from: usize)
    requires
        from <= payload@.len(),
        at + (payload@.len() - from) <= old(buffer)@.len(),
    ensures
        final(buffer)@ == overwritten(old(buffer)@, at as int, payload@.skip(from as int)),
{
    let n: usize = payload.len() - from;
    let mut i: usize = 0;
    while i < n
        invariant
            n == payload.len() - from,
            at + n <= buffer.len(),
            buffer@.len() == old(buffer)@.len(),
            i <= n,
            forall|k: int| 0 <= k < i ==> #[trigger] buffer@[at + k] == payload@[from + k],
            forall|k: int| 0 <= k < at ==> #[trigger] buffer@[k] == old(buffer)@[k],
            forall|k: int|
                at + i <= k < buffer@.len() ==> #[trigger] buffer@[k] == old(buffer)@[k],
        decreases n - i,
    {
        buffer[at + i] = payload[from + i];
        i += 1;
    }
    proof {
        let want = overwritten(old(buffer)@, at as int, payload@.skip(from as int));
        assert forall|k: int| 0 <= k < buffer@.len() implies buffer@[k] == want[k] by {
            if at <= k < at + n {
                assert(buffer@[at + (k - at)] == payload@[from + (k - at)]);
            }
        }
        assert(buffer@ =~= want);
    }
}

/// Whether `b` is where a block of a piece begins.
pub open spec fn block_start(b: int, piece_size: int) -> bool {
    0 <= b < piece_size && b % (BLOCK_SIZE as int) == 0
}

/// Whether all the offsets are such.
pub open spec fn block_starts(begins: Set<u32>, piece_size: int) -> bool {
    forall|b: u32| #[trigger] begins.contains(b) ==> block_start(b as int, piece_size)
}

/// Whether every block of a piece is here.
pub open spec fn every_block_here(pending: Map<u32, bool>, piece_size: int) -> bool {
    forall|b: u32|
        block_start(b as int, piece_size) ==> #[trigger] pending.contains_key(b) && pending[b]
}

/// All the offsets at which a block of a piece begins.
spec fn every_start(piece_size: int) -> Set<u32> {
    Set::new(|b: u32| block_start(b as int, piece_size))
}

/// The blocks of a piece make up the piece.
proof fn lemma_every_start_total(piece_size: int, n: nat)
    requires
        0 <= piece_size,
        n <= offsets(),
    ensures
        block_total(every_start(piece_size), piece_size, n) == {
            let covered = (n + BLOCK_SIZE - 1) / (BLOCK_SIZE as int) * BLOCK_SIZE;
            if covered <= piece_size {
                covered
            } else {
                piece_size
            }
        },
    decreases n,
{
    if n > 0 {
        lemma_every_start_total(piece_size, (n - 1) as nat);
        assert((n - 1) as u32 as int == n - 1);
    }
}

proof fn lemma_block_total_subset(fewer: Set<u32>, more: Set<u32>, piece_size: int, n: nat)
    requires
        fewer.subset_of(more),
    ensures
        block_total(fewer, piece_size, n) <= block_total(more, piece_size, n),
    decreases n,
{
    if n > 0 {
        lemma_block_total_subset(fewer, more, piece_size, (n - 1) as nat);
    }
}

/// A piece whose blocks were asked for one by one is whole if and only if every block of it is
/// here.
pub proof fn law_whole_with_every_block(pending: Map<u32, bool>, piece_size: int)
    requires
        0 <= piece_size <= offsets(),
        block_starts(pending.dom(), piece_size),
    ensures
        all_received(pending, piece_size) <==> every_block_here(pending, piece_size),
{
    let all = every_start(piece_size);
    let n = offsets();
    lemma_every_start_total(piece_size, n);
    if all_received(pending, piece_size) {
        assert forall|b: u32| block_start(b as int, piece_size) implies #[trigger] pending.contains_key(
            b,
        ) && pending[b] by {
            if !pending.contains_key(b) {
                let others = all.remove(b);
                lemma_block_total_subset(pending.dom(), others, piece_size, n);
                lemma_block_total_insert(others, b, piece_size, n);
                assert(others.insert(b) =~= all);
            }
        }
    }
    if every_block_here(pending, piece_size) {
        assert(pending.dom() =~= all);
    }
}

/// The next block to ask for is the first block of the piece that has not been asked for; and
/// where there is none, every block has been.
pub proof fn law_next_block_is_the_first_missing(
    pending: Map<u32, bool>,
    piece_size: int,
    from: int,
)
    requires
        0 <= piece_size <= offsets(),
        0 <= from,
        from % (BLOCK_SIZE as int) == 0,
    ensures
        first_missing(pending, piece_size, from) matches Some(b) ==> {
            &&& from <= b
            &&& block_start(b, piece_size)
            &&& !pending.contains_key(b as u32)
            &&& forall|c: u32|
                from <= c < b && block_start(c as int, piece_size) ==> #[trigger] pending.contains_key(c)
        },
        first_missing(pending, piece_size, from) is None ==> forall|c: u32|
            from <= c && block_start(c as int, piece_size) ==> #[trigger] pending.contains_key(c),
    decreases
            if from < piece_size {
                piece_size - from
            } else {
                0
            },
{
    if from < piece_size && pending.contains_key(from as u32) {
        law_next_block_is_the_first_missing(pending, piece_size, from + BLOCK_SIZE);
        assert forall|c: u32| from <= c < from + BLOCK_SIZE && block_start(c as int, piece_size) implies c
            == from by {}
    }
}

/// The request for the next block asks for a block that is not empty, and for nothing past the end
/// of the piece.
pub proof fn law_request_stays_in_the_piece(pending: Map<u32, bool>, piece_size: usize)
    requires
        piece_size < offsets(),
    ensures
        first_missing(pending, piece_size as int, 0) matches Some(b) ==> {
            &&& b as u32 == b
            &&& piece_size as u32 == piece_size
            &&& request_size(b as u32, piece_size as u32) == block_len(b, piece_size as int)
            &&& 0 < block_len(b, piece_size as int) <= BLOCK_SIZE
            &&& b + block_len(b, piece_size as int) <= piece_size
        },
{
    law_next_block_is_the_first_missing(pending, piece_size as int, 0);
}

/// Whether the buffer holds the block of `data` that begins at `b`.
pub open spec fn holds_block(buffer: Seq<u8>, data: Seq<u8>, b: int) -> bool {
    buffer.subrange(b, b + block_len(b, data.len() as int)) == data.subrange(
        b,
        b + block_len(b, data.len() as int),
    )
}

/// Writing a block of `data` where it belongs puts it there, and leaves the blocks that are there
/// already.
pub proof fn law_written_block_is_there(buffer: Seq<u8>, data: Seq<u8>, b: int, c: int)
    requires
        buffer.len() == data.len(),
        block_start(b, data.len() as int),
        block_start(c, data.len() as int),
    ensures
        ({
            let block = data.subrange(b, b + block_len(b, data.len() as int));
            &&& overwritten(buffer, b, block).len() == data.len()
            &&& holds_block(overwritten(buffer, b, block), data, b)
            &&& holds_block(buffer, data, c) ==> holds_block(overwritten(buffer, b, block), data, c)
        }),
{
    let len = block_len(b, data.len() as int);
    let block = data.subrange(b, b + len);
    let after = overwritten(buffer, b, block);
    assert(after.subrange(b, b + len) =~= block);
    if holds_block(buffer, data, c) && b != c {
        let end = c + block_len(c, data.len() as int);
        assert(end <= b || b + len <= c);
        assert(after.subrange(c, end) =~= buffer.subrange(c, end));
    }
}

/// A buffer that holds every block of `data` is `data`.
pub proof fn law_blocks_make_the_piece(buffer: Seq<u8>, data: Seq<u8>)
    requires
        buffer.len() == data.len(),
        forall|b: int| block_start(b, data.len() as int) ==> #[trigger] holds_block(buffer, data, b),
    ensures
        buffer == data,
{
    assert forall|i: int| 0 <= i < data.len() implies buffer[i] == data[i] by {
        let b = i / (BLOCK_SIZE as int) * BLOCK_SIZE;
        assert(block_start(b, data.len() as int));
        assert(holds_block(buffer, data, b));
        let end = b + block_len(b, data.len() as int);
        assert(buffer.subrange(b, end)[i - b] == data.subrange(b, end)[i - b]);
    }
    assert(buffer =~= data);
}

/// The digest of a piece is in the twenty bytes that stand behind those of the pieces before it, and
/// the torrent holds it where it has so many.
pub proof fn law_digests_follow_each_other(pieces: Seq<u8>, index: int, k: int)
    requires
        0 <= index,
        0 <= k < 20,
    ensures
        has_digest(pieces, index) <==> 20 * (index + 1) <= pieces.len(),
        has_digest(pieces, index) ==> piece_digest(pieces, index).len() == 20 && piece_digest(
            pieces,
            index,
        )[k] == pieces[20 * index + k],
{
}

/// A request is unanswered exactly while it is under way and its block is not here.
pub proof fn law_unanswered_until_the_block_is_here(pending: Map<u32, bool>, b: u32)
    ensures
        unanswered(pending).contains(b) <==> pending.contains_key(b) && !pending[b],
        !unanswered(pending.insert(b, true)).contains(b),
        unanswered(pending.insert(b, false)).contains(b),
{
}

/// The request for a block names the piece, the offset of the block, and its size: 16384 bytes, or
/// what is left of the piece where that is less.
pub proof fn law_block_request_fields(index: usize, begin: usize, piece_size: usize)
    requires
        begin <= piece_size <= 0xffff_ffff,
        index <= 0xffff_ffff,
    ensures
        ({
            let message = block_request(index, begin, piece_size);
            let size = number(message.subrange(13, 17)) as int;
            &&& message.len() == 17
            &&& number(message.subrange(0, 4)) == 13
            &&& message[4] == 6
            &&& number(message.subrange(5, 9)) == index
            &&& number(message.subrange(9, 13)) == begin
            &&& size <= 16384
            &&& begin + size <= piece_size
            &&& size == 16384 || begin + size == piece_size
        }),
{
    law_request_fields(
        index as u32,
        begin as u32,
        request_size(begin as u32, piece_size as u32),
    );
}

/// Index and offset go out by their lower 32 bits, however large they are.
pub proof fn law_block_request_is_cut(index: usize, begin: usize, piece_size: usize)
    requires
        (begin as u32) <= (piece_size as u32),
    ensures
        ({
            let message = block_request(index, begin, piece_size);
            let size = number(message.subrange(13, 17)) as int;
            &&& message.len() == 17
            &&& number(message.subrange(5, 9)) == index as u32
            &&& number(message.subrange(9, 13)) == begin as u32
            &&& size <= 16384
            &&& size == 16384 || (begin as u32) + size == piece_size as u32
            &&& (begin as u32) + size <= piece_size as u32
        }),
{
    law_request_fields(
        index as u32,
        begin as u32,
        request_size(begin as u32, piece_size as u32),
    );
}

/// Writing data over a buffer puts each byte of it in its place and changes no other.
pub proof fn law_overwritten_bytes(buffer: Seq<u8>, at: int, data: Seq<u8>, i: int)
    requires
        0 <= at,
        at + data.len() <= buffer.len(),
        0 <= i < buffer.len(),
    ensures
        overwritten(buffer, at, data).len() == buffer.len(),
        overwritten(buffer, at, data)[i] == if at <= i < at + data.len() {
            data[i - at]
        } else {
            buffer[i]
        },
{
}

/// Of a piece of any size, the next block to ask for begins at a multiple of 16384 within the
/// piece, has not been asked for, and is the first such; where there is none, all have been.
/// Offsets are told apart by their lower 32 bits.
pub proof fn law_next_block_of_any_piece(
    pending: Map<u32, bool>,
    piece_size: int,
    from: int,
    c: int,
)
    requires
        0 <= from <= c < piece_size,
        from % 16384 == 0,
        c % 16384 == 0,
    ensures
        first_missing(pending, piece_size, from) matches Some(b) ==> {
            &&& from <= b < piece_size
            &&& b % 16384 == 0
            &&& !pending.contains_key(b as u32)
            &&& c < b ==> pending.contains_key(c as u32)
        },
        first_missing(pending, piece_size, from) is None ==> pending.contains_key(c as u32),
    decreases piece_size - from,
{
    if pending.contains_key(from as u32) {
        if from + BLOCK_SIZE <= c {
            law_next_block_of_any_piece(pending, piece_size, from + BLOCK_SIZE, c);
        } else {
            assert(c == from);
            if from + BLOCK_SIZE < piece_size {
                law_next_block_of_any_piece(
                    pending,
                    piece_size,
                    from + BLOCK_SIZE,
                    from + BLOCK_SIZE,
                );
            }
        }
    }
}

/// What blocks at these offsets make up of a piece: 16384 bytes each, or what is left of the piece
/// where that is less.
pub open spec fn bytes_of_blocks(begins: Seq<u32>, piece_size: int) -> int
    decreases begins.len(),
{
    if begins.len() == 0 {
        0
    } else {
        let left = piece_size - begins.last();
        bytes_of_blocks(begins.drop_last(), piece_size) + if left <= 0 {
            0
        } else if left <= 16384 {
            left
        } else {
            16384
        }
    }
}

proof fn lemma_bytes_of_blocks(begins: Seq<u32>, piece_size: int)
    requires
        begins.no_duplicates(),
    ensures
        block_total(begins.to_set(), piece_size, offsets()) == bytes_of_blocks(begins, piece_size),
    decreases begins.len(),
{
    if begins.len() == 0 {
        assert(begins.to_set() =~= Set::empty());
        lemma_block_total_empty(piece_size, offsets());
    } else {
        let rest = begins.drop_last();
        lemma_bytes_of_blocks(rest, piece_size);
        assert(begins.to_set() =~= rest.to_set().insert(begins.last())) by {
            assert forall|b: u32| begins.to_set().contains(b) implies rest.to_set().insert(
                begins.last(),
            ).contains(b) by {
                let i = choose|i: int| 0 <= i < begins.len() && begins[i] == b;
                if i < rest.len() {
                    assert(rest[i] == b);
                }
            }
            assert forall|b: u32| rest.to_set().insert(begins.last()).contains(b) implies begins.to_set().contains(
                b,
            ) by {
                if b == begins.last() {
                    assert(begins[begins.len() - 1] == b);
                } else {
                    let i = choose|i: int| 0 <= i < rest.len() && rest[i] == b;
                    assert(begins[i] == b);
                }
            }
        }
        assert(!rest.to_set().contains(begins.last())) by {
            if rest.to_set().contains(begins.last()) {
                let i = choose|i: int| 0 <= i < rest.len() && rest[i] == begins.last();
                assert(begins[i] == begins[begins.len() - 1]);
            }
        }
        lemma_block_total_insert(rest.to_set(), begins.last(), piece_size, offsets());
    }
}

/// A piece whose blocks begin at these offsets, whatever they are, is whole if and only if every one
/// of the blocks is here and together they are as long as the piece.
pub proof fn law_whole_by_the_bytes(pending: Map<u32, bool>, begins: Seq<u32>, piece_size: int)
    requires
        begins.no_duplicates(),
        begins.to_set() == pending.dom(),
    ensures
        all_received(pending, piece_size) <==> ((forall|i: int|
            0 <= i < begins.len() ==> pending[#[trigger] begins[i]]) && bytes_of_blocks(
            begins,
            piece_size,
        ) >= piece_size),
{
    lemma_bytes_of_blocks(begins, piece_size);
    if all_received(pending, piece_size) {
        assert forall|i: int| 0 <= i < begins.len() implies pending[#[trigger] begins[i]] by {
            assert(begins.to_set().contains(begins[i]));
            assert(pending.contains_key(begins[i]));
        }
    }
    if forall|i: int| 0 <= i < begins.len() ==> pending[#[trigger] begins[i]] {
        assert forall|b: u32| #[trigger] pending.contains_key(b) implies pending[b] by {
            assert(begins.to_set().contains(b));
            let i = choose|i: int| 0 <= i < begins.len() && begins[i] == b;
            assert(pending[begins[i]]);
        }
    }
}

} // verus!
