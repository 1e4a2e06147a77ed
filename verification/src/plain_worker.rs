//! A plainer worker that downloads pieces from one peer: it greets the peer with nothing, has
//! few requests for a piece, and asks once for a piece to go on with.
//!
//! As with the worker of `peer_worker`, each step takes what has happened and gives what is to be
//! done next.
use crate::bitfield_actor;
use crate::blocks::{
    all_received, block_len, block_request, block_start, block_starts, create_block_request,
    every_block_here, first_missing, has_digest, holds_block, law_block_request_is_cut,
    law_blocks_make_the_piece, law_next_block_is_the_first_missing, law_next_block_of_any_piece,
    law_overwritten_bytes, law_whole_with_every_block, law_written_block_is_there,
    next_missing, offsets, overwritten, piece_digest, unanswered, write_block, MAX_WORKER_REQUESTS,
};
use crate::hash::sha1_of;
use crate::peer_worker::{self, block_payload, EventView, Reason, WorkerEvent};
use crate::torrent::{InfoView, TorrentInfo};
use crate::util::{copy_bits, law_unpacked_bits, set_bit, unpacked, vec_u8_to_box_bool};
use crate::wire::{
    be32, framed, law_read_number_is_that_of_the_bytes, lemma_read32_window, number, read32,
    read_be32,
};
use std::collections::HashMap;
use vstd::prelude::*;

verus! {

/// How long a choked worker waits for a message, in seconds.
pub const READ_TIMEOUT: u64 = 60;

/// What the worker is waiting for.
#[derive(Clone, Copy, PartialEq, Eq, Structural, Debug)]
pub enum Phase {
    /// To be started.
    Idle,
    /// A message of the peer.
    Reading,
    /// Whether the bitfield actor gives leave to download this piece.
    RequestOut(usize),
    /// The piece to start with.
    FirstPiece,
    /// That the peer has been told of the interest in its pieces.
    InterestedOut,
    /// That the finished piece has been handed on.
    PieceOut,
    /// The piece to go on with.
    NextPiece,
    /// That the request for the block at this offset has gone out.
    BlockOut(usize),
    /// Nothing: the worker has ended.
    Done,
}

/// What is to be done next.
pub enum PlainAction {
    /// Read a message of the peer, for so many seconds at most where a limit is given.
    Read(Option<u64>),
    /// Ask the bitfield actor for leave to download this piece.
    RequestPiece(usize),
    /// Ask the bitfield actor for a piece that the peer has.
    AskPiece(Box<[bool]>),
    /// Send this message, that the client is interested, to the peer.
    SendInterested(Vec<u8>),
    /// Send this request for a block to the peer.
    SendRequest(Vec<u8>),
    /// Tell the bitfield actor that this piece is here, and the output actor what it holds.
    PieceDone(usize, Vec<u8>),
    /// Tell the bitfield actor that the piece has failed, where there is one, and end.
    Terminate(Reason, Option<u32>),
    /// End with the error of the last attempt to send.
    Abort,
}

/// `PlainAction` as a plain value.
#[verifier::ext_equal]
pub enum ActionView {
    Read(Option<u64>),
    RequestPiece(usize),
    AskPiece(Seq<bool>),
    SendInterested(Seq<u8>),
    SendRequest(Seq<u8>),
    PieceDone(usize, Seq<u8>),
    Terminate(Reason, Option<u32>),
    Abort,
}

impl View for PlainAction {
    type V = ActionView;

    open spec fn view(&self) -> ActionView {
        match *self {
            PlainAction::Read(limit) => ActionView::Read(limit),
            PlainAction::RequestPiece(index) => ActionView::RequestPiece(index),
            PlainAction::AskPiece(bits) => ActionView::AskPiece(bits@),
            PlainAction::SendInterested(message) => ActionView::SendInterested(message@),
            PlainAction::SendRequest(message) => ActionView::SendRequest(message@),
            PlainAction::PieceDone(index, data) => ActionView::PieceDone(index, data@),
            PlainAction::Terminate(reason, piece) => ActionView::Terminate(reason, piece),
            PlainAction::Abort => ActionView::Abort,
        }
    }
}

/// A worker that manages the download from a single peer. It asks for the blocks of one piece at
/// a time and checks the digest of a piece before it hands the piece on.
pub struct PeerWorker {
    // The blocks asked for or received, by their offsets, and whether they are here.
    pending_requests: HashMap<u32, bool>,
    torrent: TorrentInfo,
    peer_bitfield: Option<Box<[bool]>>,
    choked: bool,
    next_piece: Option<usize>,
    piece_buffer: Vec<u8>,
    piece_size: usize,
    phase: Phase,
}

/// `PeerWorker` as a plain value.
#[verifier::ext_equal]
pub struct WorkerView {
    /// The torrent to download.
    pub torrent: InfoView,
    /// The blocks asked for or received, by their offsets, and whether they are here.
    pub pending: Map<u32, bool>,
    /// The pieces that the peer has, once it has told.
    pub peer_bitfield: Option<Seq<bool>>,
    /// Whether the peer refuses requests.
    pub choked: bool,
    /// The piece to download.
    pub next_piece: Option<usize>,
    /// What is here of that piece.
    pub buffer: Seq<u8>,
    /// The size of that piece.
    pub piece_size: usize,
    /// What the worker is waiting for.
    pub phase: Phase,
}

impl View for PeerWorker {
    type V = WorkerView;

    closed spec fn view(&self) -> WorkerView {
        WorkerView {
            torrent: self.torrent@,
            pending: self.pending_requests@,
            peer_bitfield: match self.peer_bitfield {
                Some(bits) => Some(bits@),
                None => None,
            },
            choked: self.choked,
            next_piece: self.next_piece,
            buffer: self.piece_buffer@,
            piece_size: self.piece_size,
            phase: self.phase,
        }
    }
}

/// The worker with another phase.
pub open spec fn in_phase(v: WorkerView, phase: Phase) -> WorkerView {
    WorkerView { phase, ..v }
}

/// A worker for a peer, not started yet.
pub open spec fn new_worker(torrent: InfoView) -> WorkerView {
    WorkerView {
        torrent,
        pending: Map::empty(),
        peer_bitfield: None,
        choked: true,
        next_piece: None,
        buffer: Seq::empty(),
        piece_size: 0,
        phase: Phase::Idle,
    }
}

/// A buffer for a piece of which nothing is here yet.
pub open spec fn blank(size: usize) -> Seq<u8> {
    Seq::new(size as nat, |i: int| 0u8)
}

/// The worker when it has been started.
pub open spec fn started(v: WorkerView) -> WorkerView {
    WorkerView {
        choked: true,
        next_piece: None,
        buffer: blank(v.torrent.piece_length as usize),
        piece_size: v.torrent.piece_length as usize,
        phase: Phase::Reading,
        ..v
    }
}

/// Whether this is the last piece of the torrent.
pub open spec fn is_last(v: WorkerView, piece: Option<usize>) -> bool {
    piece matches Some(index) && v.torrent.pieces.len() >= 20 && index == v.torrent.pieces.len() / 20
        - 1
}

/// The size of the file, nothing where the torrent does not tell.
pub open spec fn total_length(v: WorkerView) -> usize {
    match v.torrent.length {
        Some(length) => length as usize,
        None => 0,
    }
}

/// The size of the last piece, which ends with the file: what the pieces before it leave. Where
/// these are larger than the file, it is what is left of the file after whole pieces.
pub open spec fn last_size(v: WorkerView) -> usize {
    let before = (v.torrent.piece_length as usize) * (v.torrent.pieces.len() / 20 - 1);
    if before <= total_length(v) {
        (total_length(v) - before) as usize
    } else {
        total_length(v) % (v.torrent.piece_length as usize)
    }
}

/// Whether this piece fits into memory.
pub open spec fn fits(v: WorkerView, piece: Option<usize>) -> bool {
    is_last(v, piece) ==> last_size(v) <= isize::MAX
}

/// The worker with a piece to download, if there is one. The size, which is that of a whole piece
/// while the worker has none, is adjusted for the last piece.
pub open spec fn assigned(v: WorkerView, piece: Option<usize>) -> WorkerView {
    if is_last(v, piece) {
        WorkerView {
            next_piece: piece,
            piece_size: last_size(v),
            buffer: blank(last_size(v)),
            ..v
        }
    } else {
        WorkerView { next_piece: piece, ..v }
    }
}

/// The block to ask for next: none while the peer refuses requests, without a piece, or when there
/// are as many requests as a worker may have; and none past the end of the piece.
pub open spec fn wanted_block(v: WorkerView) -> Option<int> {
    if !v.choked && v.next_piece is Some && v.pending.len() < MAX_WORKER_REQUESTS {
        match first_missing(v.pending, v.torrent.piece_length as int, 0) {
            Some(begin) => if (begin as usize) < v.piece_size {
                Some(begin)
            } else {
                None
            },
            None => None,
        }
    } else {
        None
    }
}

/// Whether the request for the block to ask for next can be written: the size that it states is
/// not negative. It always is where the piece is smaller than 4 GiB.
pub open spec fn request_safe(v: WorkerView) -> bool {
    wanted_block(v) matches Some(begin) ==> (begin as usize as u32) <= (v.piece_size as u32)
}

/// The worker reads on.
pub open spec fn reading(v: WorkerView) -> (WorkerView, ActionView) {
    (
        in_phase(v, Phase::Reading),
        ActionView::Read(if v.choked { Some(READ_TIMEOUT) } else { None }),
    )
}

/// The worker asks for a block where it can, and reads on where it cannot.
pub open spec fn resumed(v: WorkerView) -> (WorkerView, ActionView) {
    match wanted_block(v) {
        Some(begin) => (
            in_phase(v, Phase::BlockOut(begin as usize)),
            ActionView::SendRequest(
                block_request(v.next_piece->0, begin as usize, v.piece_size),
            ),
        ),
        None => reading(v),
    }
}

/// The worker ends. It reports its piece as failed, where it has one.
pub open spec fn terminated(v: WorkerView, reason: Reason) -> (WorkerView, ActionView) {
    (
        in_phase(v, Phase::Done),
        ActionView::Terminate(
            reason,
            match v.next_piece {
                Some(index) => Some(index as u32),
                None => None,
            },
        ),
    )
}

/// The worker tells the peer that the client is interested.
pub open spec fn interested(v: WorkerView) -> (WorkerView, ActionView) {
    (
        in_phase(v, Phase::InterestedOut),
        ActionView::SendInterested(framed(2, Seq::empty())),
    )
}

/// The worker when it knows that the peer has this piece too.
pub open spec fn with_have(v: WorkerView, index: usize) -> WorkerView {
    WorkerView {
        peer_bitfield: match v.peer_bitfield {
            Some(bits) => if index < bits.len() {
                Some(bits.update(index as int, true))
            } else {
                Some(bits)
            },
            None => None,
        },
        ..v
    }
}

/// The piece index that a block has to name.
pub open spec fn wanted_index(v: WorkerView) -> u32 {
    match v.next_piece {
        Some(index) => index as u32,
        None => u32::MAX,
    }
}

/// The worker with the block that this message carries.
pub open spec fn with_block(v: WorkerView, payload: Seq<u8>) -> WorkerView {
    WorkerView {
        pending: v.pending.insert(read32(payload, 4), true),
        buffer: overwritten(v.buffer, read32(payload, 4) as int, payload.skip(8)),
        ..v
    }
}

/// Whether the worker can take this message as a block. A message for another piece is passed
/// over. The block has to lie within the buffer; and when it is the last one, the torrent has to
/// hold the digest of the piece.
pub open spec fn accepts_block(v: WorkerView, payload: Seq<u8>) -> bool {
    &&& payload.len() >= 4
    &&& if read32(payload, 0) != wanted_index(v) {
        v.next_piece is Some
    } else {
        &&& payload.len() >= 8
        &&& read32(payload, 4) + payload.len() <= usize::MAX
        &&& read32(payload, 4) + payload.len() - 8 <= v.buffer.len()
        &&& if all_received(with_block(v, payload).pending, v.piece_size as int) {
            v.next_piece is Some && has_digest(v.torrent.pieces, (v.next_piece->0 as u32) as int)
        } else {
            request_safe(with_block(v, payload))
        }
    }
}

/// What a block makes of the worker. With the last block the piece is whole. If its digest is
/// right, it goes out, and nothing of it is left over for the next one: no piece, no requests, and
/// an empty buffer for a whole piece. If it is not, the worker reports it as failed and ends.
pub open spec fn on_block(v: WorkerView, payload: Seq<u8>) -> (WorkerView, ActionView) {
    let w = with_block(v, payload);
    if read32(payload, 0) != wanted_index(v) {
        reading(v)
    } else if !all_received(w.pending, w.piece_size as int) {
        resumed(w)
    } else if sha1_of(w.buffer) == piece_digest(w.torrent.pieces, (w.next_piece->0 as u32) as int) {
        (
            WorkerView {
                pending: Map::empty(),
                next_piece: None,
                buffer: blank(w.torrent.piece_length as usize),
                piece_size: w.torrent.piece_length as usize,
                phase: Phase::PieceOut,
                ..w
            },
            ActionView::PieceDone(w.next_piece->0, w.buffer),
        )
    } else {
        terminated(w, Reason::VerificationFailed)
    }
}

/// Whether the worker can take this message: it is long enough for what its id says, and the
/// request that may follow can be written.
pub open spec fn accepts_message(v: WorkerView, id: u8, payload: Seq<u8>) -> bool {
    if id == 0 {
        true
    } else if id == 1 {
        request_safe(WorkerView { choked: false, ..v })
    } else if id == 4 {
        payload.len() >= 4 && (v.next_piece is Some ==> request_safe(v))
    } else if id == 5 {
        8 * payload.len() <= isize::MAX
    } else if id == 7 {
        accepts_block(v, payload)
    } else {
        request_safe(v)
    }
}

/// What a message makes of the worker.
pub open spec fn on_message(v: WorkerView, id: u8, payload: Seq<u8>) -> (WorkerView, ActionView) {
    if id == 0 {
        // Choke.
        resumed(WorkerView { choked: true, ..v })
    } else if id == 1 {
        // Unchoke.
        resumed(WorkerView { choked: false, ..v })
    } else if id == 4 {
        // Have: the peer has a piece. A worker without one to download asks for leave.
        let index = read32(payload, 0) as usize;
        let w = with_have(v, index);
        if v.next_piece is None {
            (in_phase(w, Phase::RequestOut(index)), ActionView::RequestPiece(index))
        } else {
            resumed(w)
        }
    } else if id == 5 {
        // Bitfield. A worker without a piece to download asks for one.
        let w = WorkerView { peer_bitfield: Some(unpacked(payload)), ..v };
        if v.next_piece is None {
            (in_phase(w, Phase::FirstPiece), ActionView::AskPiece(unpacked(payload)))
        } else {
            interested(w)
        }
    } else if id == 7 {
        // Piece.
        on_block(v, payload)
    } else {
        // All that the worker does not act on.
        resumed(v)
    }
}

/// Whether the worker can take this event: it is one that the worker waits for, and what follows
/// from it can be done.
pub open spec fn accepts(v: WorkerView, e: EventView) -> bool {
    match (v.phase, e) {
        (Phase::Reading, EventView::TimedOut) => v.choked,
        (Phase::Reading, EventView::Lost) => true,
        (Phase::Reading, EventView::Message(id, payload)) => accepts_message(v, id, payload),
        (Phase::RequestOut(index), EventView::Granted(granted)) => if granted {
            fits(v, Some(index)) && request_safe(assigned(v, Some(index)))
        } else {
            request_safe(v)
        },
        (Phase::FirstPiece, EventView::Assigned(piece)) => {
            &&& v.torrent.pieces.len() >= 20
            &&& is_last(v, piece) ==> v.torrent.piece_length as usize > 0
            &&& fits(v, piece)
        },
        (Phase::InterestedOut, EventView::Sent(ok)) => ok ==> request_safe(v),
        (Phase::PieceOut, EventView::Sent(ok)) => ok && v.peer_bitfield is Some,
        (Phase::NextPiece, EventView::Assigned(piece)) => fits(v, piece) && request_safe(
            assigned(v, piece),
        ),
        (Phase::BlockOut(_), EventView::Sent(_)) => true,
        _ => false,
    }
}

/// What an event makes of the worker, and what the worker then does.
pub open spec fn step_of(v: WorkerView, e: EventView) -> (WorkerView, ActionView) {
    match (v.phase, e) {
        (Phase::Reading, EventView::TimedOut) => terminated(v, Reason::TimedOut),
        (Phase::Reading, EventView::Lost) => terminated(v, Reason::ConnectionLost),
        (Phase::Reading, EventView::Message(id, payload)) => on_message(v, id, payload),
        (Phase::RequestOut(index), EventView::Granted(granted)) => resumed(
            if granted {
                assigned(v, Some(index))
            } else {
                v
            },
        ),
        (Phase::FirstPiece, EventView::Assigned(piece)) => if piece is Some {
            interested(assigned(v, piece))
        } else {
            reading(v)
        },
        (Phase::InterestedOut, EventView::Sent(ok)) => if ok {
            resumed(v)
        } else {
            (in_phase(v, Phase::Done), ActionView::Abort)
        },
        (Phase::PieceOut, _) => (
            in_phase(v, Phase::NextPiece),
            ActionView::AskPiece(v.peer_bitfield->0),
        ),
        (Phase::NextPiece, EventView::Assigned(piece)) => resumed(assigned(v, piece)),
        (Phase::BlockOut(begin), EventView::Sent(ok)) => if ok {
            reading(WorkerView { pending: v.pending.insert(begin as u32, false), ..v })
        } else {
            terminated(v, Reason::RequestFailed)
        },
        _ => (v, ActionView::Abort),
    }
}

/// What holds of a worker at all times: a piece fits into memory, the requests that it leaves
/// unanswered are limited, it has no piece while it asks for one, none of the requests for a
/// finished piece is left over, and without a piece it is ready for a whole one.
pub open spec fn sound(v: WorkerView) -> bool {
    &&& v.phase !is Idle ==> v.torrent.piece_length as usize <= isize::MAX
    &&& v.pending.dom().finite()
    &&& unanswered(v.pending).len() <= MAX_WORKER_REQUESTS
    &&& v.phase is BlockOut ==> v.pending.len() < MAX_WORKER_REQUESTS && v.next_piece is Some
    &&& (v.phase is FirstPiece || v.phase is PieceOut || v.phase is NextPiece || v.phase is RequestOut)
        ==> v.next_piece is None
    &&& (v.phase is PieceOut || v.phase is NextPiece) ==> v.pending == Map::<u32, bool>::empty()
    &&& v.phase !is Idle && v.next_piece is None ==> {
        &&& v.piece_size == v.torrent.piece_length as usize
        &&& v.buffer.len() == v.piece_size
    }
}

proof fn lemma_unanswered(pending: Map<u32, bool>, begin: u32, here: bool)
    requires
        pending.dom().finite(),
    ensures
        unanswered(pending).finite(),
        unanswered(pending).len() <= pending.len(),
        here ==> unanswered(pending.insert(begin, here)).len() <= unanswered(pending).len(),
        unanswered(pending.insert(begin, here)).len() <= unanswered(pending).len() + 1,
{
    let before = unanswered(pending);
    let after = unanswered(pending.insert(begin, here));
    vstd::set_lib::lemma_len_subset(before, pending.dom());
    if here {
        assert(after =~= before.remove(begin));
    } else {
        assert(after =~= before.insert(begin));
    }
}

/// Every event leaves the worker sound.
pub proof fn law_step_keeps_sound(v: WorkerView, e: EventView)
    requires
        sound(v),
        accepts(v, e),
    ensures
        sound(step_of(v, e).0),
{
    match (v.phase, e) {
        (Phase::BlockOut(begin), EventView::Sent(ok)) => {
            lemma_unanswered(v.pending, begin as u32, false);
        },
        (Phase::Reading, EventView::Message(id, payload)) => {
            lemma_unanswered(v.pending, read32(payload, 4), true);
            assert(unanswered(Map::<u32, bool>::empty()) =~= Set::empty());
        },
        _ => {},
    }
}

impl PeerWorker {
    /// A worker for a peer, not started yet.
    pub fn new(torrent: TorrentInfo) -> (r: Self)
        ensures
            r@ == (WorkerView {
                torrent: torrent@,
                pending: Map::empty(),
                peer_bitfield: None,
                choked: true,
                next_piece: None,
                buffer: Seq::empty(),
                piece_size: 0,
                phase: Phase::Idle,
            }),
            r@ == new_worker(torrent@),
            sound(r@),
    {
        let worker = PeerWorker {
            pending_requests: HashMap::new(),
            torrent,
            peer_bitfield: None,
            choked: true,
            next_piece: None,
            piece_buffer: Vec::new(),
            piece_size: 0,
            phase: Phase::Idle,
        };
        assert(unanswered(Map::<u32, bool>::empty()) =~= Set::empty());
        worker
    }

    /// Starts the worker: it reads what the peer has to say.
    pub fn start_worker(&mut self) -> (action: PlainAction)
        requires
            sound(old(self)@),
            old(self)@.torrent.piece_length as usize <= isize::MAX,
        ensures
            final(self)@ == started(old(self)@),
            sound(final(self)@),
            action@ == ActionView::Read(Some(READ_TIMEOUT)),
    {
        let piece_len: usize = self.torrent.piece_length as usize;
        self.choked = true;
        self.next_piece = None;
        self.piece_buffer = vec![0u8; piece_len];
        self.piece_size = piece_len;
        self.phase = Phase::Reading;
        assert(self@ =~= started(old(self)@));
        PlainAction::Read(Some(READ_TIMEOUT))
    }

    /// Checks whether the entire piece is here: whether every block asked for is, and together
    /// they are as long as the piece.
    pub fn received_all_blocks(&self, piece_size: usize) -> (r: bool)
        ensures
            r == all_received(self@.pending, piece_size as int),
    {
        crate::blocks::received_all_blocks(&self.pending_requests, piece_size)
    }

    /// Checks the digest of a piece.
    pub fn verify_piece(&self, index: u32, piece_buffer: &Vec<u8>) -> (r: bool)
        requires
            has_digest(self@.torrent.pieces, index as int),
        ensures
            r == (sha1_of(piece_buffer@) == piece_digest(self@.torrent.pieces, index as int)),
    {
        crate::blocks::verify_piece(&self.torrent.pieces, index, piece_buffer)
    }

    /// The message that asks for a block.
    pub fn request_block(&self, index: usize, begin: usize, piece_size: usize) -> (r: Vec<u8>)
        requires
            (begin as u32) <= (piece_size as u32),
        ensures
            r@ == block_request(index, begin, piece_size),
    {
        create_block_request(index, begin, piece_size)
    }

    /// The offset of the next block to ask for.
    pub fn next_block(&self) -> (r: Option<usize>)
        ensures
            r == (match first_missing(self@.pending, self@.torrent.piece_length as int, 0) {
                Some(begin) => Some(begin as usize),
                None => None,
            }),
    {
        match next_missing(&self.pending_requests, self.torrent.piece_length) {
            Some(begin) => Some(begin as usize),
            None => None,
        }
    }

    /// Whether this is the last piece of the torrent.
    fn is_last(&self, piece: Option<usize>) -> (r: bool)
        ensures
            r == is_last(self@, piece),
    {
        match piece {
            Some(index) => self.torrent.pieces.len() >= 20 && index == self.torrent.pieces.len() / 20
                - 1,
            None => false,
        }
    }

    /// The size of the last piece.
    fn last_size(&self) -> (r: usize)
        requires
            self@.torrent.pieces.len() >= 20,
        ensures
            r == last_size(self@),
    {
        let total: usize = match self.torrent.length {
            Some(length) => length as usize,
            None => 0,
        };
        let piece_len: usize = self.torrent.piece_length as usize;
        let last: usize = self.torrent.pieces.len() / 20 - 1;
        if let Some(before) = piece_len.checked_mul(last) {
            if before <= total {
                return total - before;
            }
        }
        assert(piece_len > 0) by (nonlinear_arith)
            requires
                piece_len * last > total,
                total >= 0,
                piece_len >= 0,
        ;
        total % piece_len
    }

    /// The size with which the worker would take up this piece.
    fn size_with(&self, piece: Option<usize>) -> (r: usize)
        ensures
            r == assigned(self@, piece).piece_size,
    {
        if self.is_last(piece) {
            self.last_size()
        } else {
            self.piece_size
        }
    }

    /// Whether this piece fits into memory.
    fn fits(&self, piece: Option<usize>) -> (r: bool)
        ensures
            r == fits(self@, piece),
    {
        !self.is_last(piece) || self.last_size() <= isize::MAX as usize
    }

    /// Takes up a piece, if there is one.
    fn assign(&mut self, piece: Option<usize>)
        requires
            fits(old(self)@, piece),
        ensures
            final(self)@ == assigned(old(self)@, piece),
    {
        if self.is_last(piece) {
            let size: usize = self.last_size();
            self.piece_size = size;
            self.piece_buffer = vec![0u8; size];
        }
        self.next_piece = piece;
        assert(self@ =~= assigned(old(self)@, piece));
    }

    /// Reads on.
    fn read_on(&mut self) -> (action: PlainAction)
        ensures
            (final(self)@, action@) == reading(old(self)@),
    {
        self.phase = Phase::Reading;
        assert(self@ =~= in_phase(old(self)@, Phase::Reading));
        PlainAction::Read(
            if self.choked {
                Some(READ_TIMEOUT)
            } else {
                None
            },
        )
    }

    /// Asks for a block where the worker can, and reads on where it cannot.
    fn resume(&mut self) -> (action: PlainAction)
        requires
            request_safe(old(self)@),
        ensures
            (final(self)@, action@) == resumed(old(self)@),
    {
        broadcast use vstd::std_specs::hash::group_hash_axioms;

        if !self.choked && self.pending_requests.len() < MAX_WORKER_REQUESTS {
            if let Some(index) = self.next_piece {
                if let Some(begin) = self.next_block() {
                    if begin < self.piece_size {
                        let message: Vec<u8> = self.request_block(index, begin, self.piece_size);
                        self.phase = Phase::BlockOut(begin);
                        assert(self@ =~= in_phase(old(self)@, Phase::BlockOut(begin)));
                        return PlainAction::SendRequest(message);
                    }
                }
            }
        }
        self.read_on()
    }

    /// Ends the worker and reports its piece as failed, where it has one.
    fn terminate(&mut self, reason: Reason) -> (action: PlainAction)
        ensures
            (final(self)@, action@) == terminated(old(self)@, reason),
    {
        self.phase = Phase::Done;
        assert(self@ =~= in_phase(old(self)@, Phase::Done));
        PlainAction::Terminate(
            reason,
            match self.next_piece {
                Some(index) => Some(index as u32),
                None => None,
            },
        )
    }

    /// Tells the peer that the client is interested.
    fn send_interested(&mut self) -> (action: PlainAction)
        ensures
            (final(self)@, action@) == interested(old(self)@),
    {
        self.phase = Phase::InterestedOut;
        assert(self@ =~= in_phase(old(self)@, Phase::InterestedOut));
        let message: Vec<u8> = vec![0, 0, 0, 1, 2];
        assert(message@ =~= framed(2, Seq::empty()));
        PlainAction::SendInterested(message)
    }

    fn wanted_index(&self) -> (r: u32)
        ensures
            r == wanted_index(self@),
    {
        match self.next_piece {
            Some(index) => index as u32,
            None => u32::MAX,
        }
    }

    /// Whether the request that follows can be written, for a worker that has this piece of this
    /// size to download.
    fn can_request(&self, choked: bool, next_piece: Option<usize>, piece_size: usize) -> (r: bool)
        ensures
            r == request_safe(WorkerView { choked, next_piece, piece_size, ..self@ }),
    {
        broadcast use vstd::std_specs::hash::group_hash_axioms;

        if choked || next_piece.is_none() || self.pending_requests.len() >= MAX_WORKER_REQUESTS {
            return true;
        }
        match self.next_block() {
            Some(begin) => begin >= piece_size || (begin as u32) <= (piece_size as u32),
            None => true,
        }
    }

    /// Whether the worker can take this event.
    pub fn accepts(&self, event: &WorkerEvent) -> (r: bool)
        ensures
            r == accepts(self@, event@),
    {
        match (self.phase, event) {
            (Phase::Reading, WorkerEvent::TimedOut) => self.choked,
            (Phase::Reading, WorkerEvent::Lost) => true,
            (Phase::Reading, WorkerEvent::Message(id, payload)) => self.accepts_message(
                *id,
                payload,
            ),
            (Phase::RequestOut(index), WorkerEvent::Granted(granted)) => if *granted {
                self.fits(Some(index)) && self.can_request(
                    self.choked,
                    Some(index),
                    self.size_with(Some(index)),
                )
            } else {
                self.can_request(self.choked, self.next_piece, self.piece_size)
            },
            (Phase::FirstPiece, WorkerEvent::Assigned(piece)) => {
                if self.torrent.pieces.len() < 20 {
                    return false;
                }
                (!self.is_last(*piece) || self.torrent.piece_length as usize > 0) && self.fits(*piece)
            },
            (Phase::InterestedOut, WorkerEvent::Sent(ok)) => !*ok || self.can_request(
                self.choked,
                self.next_piece,
                self.piece_size,
            ),
            (Phase::PieceOut, WorkerEvent::Sent(ok)) => *ok && self.peer_bitfield.is_some(),
            (Phase::NextPiece, WorkerEvent::Assigned(piece)) => self.fits(*piece) && self.can_request(
                self.choked,
                *piece,
                self.size_with(*piece),
            ),
            (Phase::BlockOut(_), WorkerEvent::Sent(_)) => true,
            _ => false,
        }
    }

    fn accepts_message(&self, id: u8, payload: &Vec<u8>) -> (r: bool)
        ensures
            r == accepts_message(self@, id, payload@),
    {
        if id == 0 {
            true
        } else if id == 1 {
            self.can_request(false, self.next_piece, self.piece_size)
        } else if id == 4 {
            payload.len() >= 4 && (self.next_piece.is_none() || self.can_request(
                self.choked,
                self.next_piece,
                self.piece_size,
            ))
        } else if id == 5 {
            payload.len() <= isize::MAX as usize / 8
        } else if id == 7 {
            self.accepts_block(payload)
        } else {
            self.can_request(self.choked, self.next_piece, self.piece_size)
        }
    }

    fn accepts_block(&self, payload: &Vec<u8>) -> (r: bool)
        ensures
            r == accepts_block(self@, payload@),
    {
        broadcast use vstd::std_specs::hash::group_hash_axioms;

        if payload.len() < 4 {
            return false;
        }
        if read_be32(payload.as_slice(), 0) != self.wanted_index() {
            return self.next_piece.is_some();
        }
        if payload.len() < 8 {
            return false;
        }
        let begin: u32 = read_be32(payload.as_slice(), 4);
        if begin as usize > usize::MAX - payload.len() || begin as usize + payload.len() - 8
            > self.piece_buffer.len() {
            return false;
        }
        let mut pending: HashMap<u32, bool> = self.pending_requests.clone();
        pending.insert(begin, true);
        if crate::blocks::received_all_blocks(&pending, self.piece_size) {
            return match self.next_piece {
                Some(index) => (index as u32) as u64 * 20 + 20 <= self.torrent.pieces.len() as u64,
                None => false,
            };
        }
        if self.choked || self.next_piece.is_none() || pending.len() >= MAX_WORKER_REQUESTS {
            return true;
        }
        match next_missing(&pending, self.torrent.piece_length) {
            Some(begin) => begin as usize >= self.piece_size || (begin as usize as u32)
                <= (self.piece_size as u32),
            None => true,
        }
    }

    /// Takes what has happened, and tells what to do next.
    pub fn step(&mut self, event: WorkerEvent) -> (action: PlainAction)
        requires
            sound(old(self)@),
            accepts(old(self)@, event@),
        ensures
            (final(self)@, action@) == step_of(old(self)@, event@),
            sound(final(self)@),
    {
        proof {
            law_step_keeps_sound(self@, event@);
        }
        match event {
            WorkerEvent::Sent(ok) => self.after_send(ok),
            WorkerEvent::TimedOut => self.terminate(Reason::TimedOut),
            WorkerEvent::Lost => self.terminate(Reason::ConnectionLost),
            WorkerEvent::Message(id, payload) => self.take_message(id, payload),
            WorkerEvent::Granted(granted) => self.take_leave(granted),
            WorkerEvent::Assigned(piece) => self.take_assignment(piece),
            _ => PlainAction::Abort,
        }
    }

    fn after_send(&mut self, ok: bool) -> (action: PlainAction)
        requires
            sound(old(self)@),
            accepts(old(self)@, EventView::Sent(ok)),
        ensures
            (final(self)@, action@) == step_of(old(self)@, EventView::Sent(ok)),
    {
        broadcast use vstd::std_specs::hash::group_hash_axioms;

        match self.phase {
            Phase::InterestedOut => if ok {
                self.resume()
            } else {
                self.phase = Phase::Done;
                assert(self@ =~= in_phase(old(self)@, Phase::Done));
                PlainAction::Abort
            },
            Phase::PieceOut => {
                self.phase = Phase::NextPiece;
                assert(self@ =~= in_phase(old(self)@, Phase::NextPiece));
                match &self.peer_bitfield {
                    Some(bits) => PlainAction::AskPiece(copy_bits(bits)),
                    None => PlainAction::Abort,
                }
            },
            Phase::BlockOut(begin) => if ok {
                self.pending_requests.insert(begin as u32, false);
                self.read_on()
            } else {
                self.terminate(Reason::RequestFailed)
            },
            _ => self.read_on(),
        }
    }

    /// Takes up the piece that was asked for, if there is leave to.
    fn take_leave(&mut self, granted: bool) -> (action: PlainAction)
        requires
            accepts(old(self)@, EventView::Granted(granted)),
        ensures
            (final(self)@, action@) == step_of(old(self)@, EventView::Granted(granted)),
    {
        if granted {
            if let Phase::RequestOut(index) = self.phase {
                self.assign(Some(index));
            }
        }
        self.resume()
    }

    /// Notes that the peer has this piece too.
    fn note_have(&mut self, index: usize)
        ensures
            final(self)@ == with_have(old(self)@, index),
    {
        if let Some(bits) = self.peer_bitfield.take() {
            let mut bits: Box<[bool]> = bits;
            if index < bits.len() {
                bits[index] = true;
            }
            self.peer_bitfield = Some(bits);
        }
        assert(self@.peer_bitfield =~= with_have(old(self)@, index).peer_bitfield);
        assert(self@ =~= with_have(old(self)@, index));
    }

    fn take_assignment(&mut self, piece: Option<usize>) -> (action: PlainAction)
        requires
            sound(old(self)@),
            accepts(old(self)@, EventView::Assigned(piece)),
        ensures
            (final(self)@, action@) == step_of(old(self)@, EventView::Assigned(piece)),
    {
        if let Phase::NextPiece = self.phase {
            self.assign(piece);
            return self.resume();
        }
        if piece.is_none() {
            return self.read_on();
        }
        self.assign(piece);
        self.send_interested()
    }

    fn take_message(&mut self, id: u8, payload: Vec<u8>) -> (action: PlainAction)
        requires
            sound(old(self)@),
            old(self)@.phase is Reading,
            accepts_message(old(self)@, id, payload@),
        ensures
            (final(self)@, action@) == on_message(old(self)@, id, payload@),
    {
        if id == 0 {
            self.choked = true;
            assert(self@ =~= WorkerView { choked: true, ..old(self)@ });
            self.resume()
        } else if id == 1 {
            self.choked = false;
            assert(self@ =~= WorkerView { choked: false, ..old(self)@ });
            self.resume()
        } else if id == 4 {
            let index: usize = read_be32(payload.as_slice(), 0) as usize;
            self.note_have(index);
            if self.next_piece.is_none() {
                self.phase = Phase::RequestOut(index);
                assert(self@ =~= in_phase(with_have(old(self)@, index), Phase::RequestOut(index)));
                PlainAction::RequestPiece(index)
            } else {
                self.resume()
            }
        } else if id == 5 {
            let bits: Box<[bool]> = vec_u8_to_box_bool(payload);
            let copy: Box<[bool]> = copy_bits(&bits);
            self.peer_bitfield = Some(bits);
            assert(self@ =~= WorkerView {
                peer_bitfield: Some(unpacked(payload@)),
                ..old(self)@
            });
            if self.next_piece.is_none() {
                self.phase = Phase::FirstPiece;
                PlainAction::AskPiece(copy)
            } else {
                self.send_interested()
            }
        } else if id == 7 {
            self.take_block(payload)
        } else {
            self.resume()
        }
    }

    fn take_block(&mut self, payload: Vec<u8>) -> (action: PlainAction)
        requires
            sound(old(self)@),
            old(self)@.phase is Reading,
            accepts_block(old(self)@, payload@),
        ensures
            (final(self)@, action@) == on_block(old(self)@, payload@),
    {
        broadcast use vstd::std_specs::hash::group_hash_axioms;

        if read_be32(payload.as_slice(), 0) != self.wanted_index() {
            return self.read_on();
        }
        let begin: u32 = read_be32(payload.as_slice(), 4);
        self.pending_requests.insert(begin, true);
        write_block(&mut self.piece_buffer, begin as usize, &payload, 8);
        assert(self@ =~= with_block(old(self)@, payload@));
        if !self.received_all_blocks(self.piece_size) {
            return self.resume();
        }
        let index: usize = match self.next_piece {
            Some(index) => index,
            None => {
                return PlainAction::Abort;
            },
        };
        if self.verify_piece(index as u32, &self.piece_buffer) {
            let mut piece: Vec<u8> = vec![0u8; self.torrent.piece_length as usize];
            std::mem::swap(&mut piece, &mut self.piece_buffer);
            self.pending_requests.clear();
            self.next_piece = None;
            self.piece_size = self.torrent.piece_length as usize;
            self.phase = Phase::PieceOut;
            assert(self@ =~= on_block(old(self)@, payload@).0);
            PlainAction::PieceDone(index, piece)
        } else {
            self.terminate(Reason::VerificationFailed)
        }
    }
}

/// A piece goes out only if it is the one that the worker downloads and its digest is the one that
/// the torrent holds; and then the worker has no piece until it is given the next.
pub proof fn law_only_verified_pieces_go_out(v: WorkerView, e: EventView)
    requires
        sound(v),
        accepts(v, e),
    ensures
        step_of(v, e).1 matches ActionView::PieceDone(index, data) ==> {
            &&& v.next_piece == Some(index)
            &&& has_digest(v.torrent.pieces, (index as u32) as int)
            &&& sha1_of(data) == piece_digest(v.torrent.pieces, (index as u32) as int)
            &&& step_of(v, e).0.next_piece is None
        },
{
}

/// A worker that gives up on its peer reports the piece that it has, whatever the reason.
pub proof fn law_piece_is_reported(v: WorkerView, e: EventView)
    requires
        sound(v),
        accepts(v, e),
    ensures
        step_of(v, e).1 matches ActionView::Terminate(_, failed) ==> {
            &&& failed is Some <==> v.next_piece is Some
            &&& failed matches Some(piece) ==> piece == v.next_piece->0 as u32
        },
{
}

/// When a piece is whole and its digest is not the one that the torrent holds, the worker reports
/// the piece as failed and ends.
pub proof fn law_spoilt_piece_is_reported(v: WorkerView, payload: Seq<u8>)
    requires
        sound(v),
        v.phase == Phase::Reading,
        accepts(v, EventView::Message(7, payload)),
        read32(payload, 0) == wanted_index(v),
        all_received(with_block(v, payload).pending, v.piece_size as int),
        sha1_of(with_block(v, payload).buffer) != piece_digest(
            v.torrent.pieces,
            (v.next_piece->0 as u32) as int,
        ),
    ensures
        step_of(v, EventView::Message(7, payload)).1 == ActionView::Terminate(
            Reason::VerificationFailed,
            Some(v.next_piece->0 as u32),
        ),
        step_of(v, EventView::Message(7, payload)).0.phase is Done,
{
}

/// A piece that a worker has reported as failed is retried later: once the bitfield actor has been
/// told, it can be asked for, and a peer that has it is given a piece.
pub proof fn law_reported_piece_is_retried(
    v: WorkerView,
    e: EventView,
    account: bitfield_actor::BitfieldView,
    peer: Seq<bool>,
)
    requires
        sound(v),
        accepts(v, e),
        step_of(v, e).1 is Terminate,
        bitfield_actor::sound(account),
    ensures
        step_of(v, e).1->Terminate_1 matches Some(index) ==> index < account.bitfield.len() ==> {
            let after = bitfield_actor::account_after(
                account,
                bitfield_actor::MsgView::PieceFailed(Some(index as usize)),
            );
            &&& after.requestable[index as int]
            &&& index < peer.len() && peer[index as int] ==> bitfield_actor::piece_for(
                after,
                peer,
            ) is Some
        },
{
    if let Some(index) = step_of(v, e).1->Terminate_1 {
        if index < account.bitfield.len() && index < peer.len() && peer[index as int] {
            bitfield_actor::law_failed_piece_can_be_asked_for(account, index as usize, peer);
        }
    }
}

/// The worker takes up a piece that the peer has told of only with leave: without it the worker
/// still has no piece and asks for no block.
pub proof fn law_no_piece_without_leave(v: WorkerView, index: usize)
    requires
        sound(v),
        v.phase == Phase::RequestOut(index),
    ensures
        accepts(v, EventView::Granted(false)),
        step_of(v, EventView::Granted(false)).0.next_piece is None,
        step_of(v, EventView::Granted(false)).1 is Read,
        accepts(v, EventView::Granted(true)) ==> step_of(v, EventView::Granted(true)).0.next_piece
            == Some(index),
{
}

/// What a peer tells piece by piece adds up: once it has told of a piece that its bitfield covers,
/// the worker knows that the peer has it, and of the other pieces what it knew before.
pub proof fn law_have_updates_the_peer(v: WorkerView, payload: Seq<u8>, i: int)
    requires
        sound(v),
        v.phase == Phase::Reading,
        accepts(v, EventView::Message(4, payload)),
        v.peer_bitfield matches Some(bits) && 0 <= i < bits.len(),
    ensures
        step_of(v, EventView::Message(4, payload)).0.peer_bitfield matches Some(bits) && bits.len()
            == v.peer_bitfield->0.len() && bits[i] == (i == read32(payload, 0)
            || v.peer_bitfield->0[i]),
{
}

/// The worker asks for a block only of the piece that it downloads, only while the peer does not
/// refuse, and only while it has fewer requests than a worker may have. The block is the first
/// that has not been asked for, and begins within the piece.
pub proof fn law_requests_are_allowed(v: WorkerView, e: EventView)
    requires
        sound(v),
        accepts(v, e),
    ensures
        step_of(v, e).1 matches ActionView::SendRequest(message) ==> {
            let w = step_of(v, e).0;
            &&& !w.choked
            &&& w.pending.len() < MAX_WORKER_REQUESTS
            &&& w.next_piece matches Some(index) && first_missing(
                w.pending,
                w.torrent.piece_length as int,
                0,
            ) matches Some(begin) && (begin as usize) < w.piece_size && message == block_request(
                index,
                begin as usize,
                w.piece_size,
            )
        },
{
}

/// The worker waits without a limit only for a peer that does not refuse requests.
pub proof fn law_choked_worker_does_not_wait_for_ever(v: WorkerView, e: EventView)
    requires
        sound(v),
        accepts(v, e),
    ensures
        step_of(v, e).1 matches ActionView::Read(limit) ==> {
            &&& step_of(v, e).0.phase == Phase::Reading
            &&& limit == if step_of(v, e).0.choked {
                Some(READ_TIMEOUT)
            } else {
                None
            }
        },
{
}

/// The worker takes no event after it has ended, and says so when it ends.
pub proof fn law_worker_says_when_it_ends(v: WorkerView, e: EventView)
    requires
        sound(v),
        accepts(v, e),
    ensures
        !(v.phase is Done),
        step_of(v, e).0.phase is Done <==> (step_of(v, e).1 is Terminate || step_of(v, e).1 is Abort),
{
}

/// A piece that has gone out is let go: nothing of it, neither its requests nor its size nor its
/// bytes, is left over for the next one.
pub proof fn law_finished_piece_is_let_go(v: WorkerView, e: EventView)
    requires
        sound(v),
        accepts(v, e),
        step_of(v, e).1 is PieceDone,
    ensures
        ({
            let w = step_of(v, e).0;
            &&& w.next_piece is None
            &&& w.pending == Map::<u32, bool>::empty()
            &&& w.piece_size == v.torrent.piece_length as usize
            &&& w.buffer == blank(v.torrent.piece_length as usize)
        }),
{
}

/// However the worker comes by a piece, the piece has the size that it has for the worker of
/// `peer_worker`: that of a whole piece, or for the last one what the pieces before it leave of the
/// file; and the buffer is as long.
pub proof fn law_piece_has_its_size(
    v: WorkerView,
    e: EventView,
    index: usize,
    other: peer_worker::WorkerView,
)
    requires
        sound(v),
        accepts(v, e),
        v.next_piece is None,
        step_of(v, e).0.next_piece == Some(index),
        other.torrent == v.torrent,
        peer_worker::assignable(other, index),
    ensures
        step_of(v, e).0.piece_size == peer_worker::size_of_piece(other, index),
        step_of(v, e).0.buffer.len() == peer_worker::size_of_piece(other, index),
{
}

/// After a finished piece the worker starts afresh: given another piece, and with leave to ask, it
/// asks for the first block of it at once.
pub proof fn law_next_piece_is_asked_for(v: WorkerView, index: usize)
    requires
        sound(v),
        v.phase == Phase::NextPiece,
        !v.choked,
        v.torrent.piece_length > 0,
        assigned(v, Some(index)).piece_size > 0,
        accepts(v, EventView::Assigned(Some(index))),
    ensures
        step_of(v, EventView::Assigned(Some(index))).1 == ActionView::SendRequest(
            block_request(index, 0, assigned(v, Some(index)).piece_size),
        ),
{
    assert(first_missing(v.pending, v.torrent.piece_length as int, 0) == Some(0int));
}

/// Whether the worker is on its way to a piece that holds `data`: the blocks asked for are blocks
/// of the piece, and those that have come are where they belong.
pub open spec fn on_the_way(v: WorkerView, data: Seq<u8>) -> bool {
    &&& v.next_piece is Some
    &&& v.piece_size == data.len()
    &&& v.buffer.len() == data.len()
    &&& block_starts(v.pending.dom(), data.len() as int)
    &&& forall|b: u32| #[trigger]
        v.pending.contains_key(b) && v.pending[b] ==> holds_block(v.buffer, data, b as int)
}

/// A worker that is given a piece after a finished one is on its way to it, whatever it holds.
pub proof fn law_next_piece_is_on_its_way(v: WorkerView, index: usize, data: Seq<u8>)
    requires
        sound(v),
        v.phase == Phase::NextPiece,
        accepts(v, EventView::Assigned(Some(index))),
        data.len() == assigned(v, Some(index)).piece_size,
    ensures
        on_the_way(step_of(v, EventView::Assigned(Some(index))).0, data),
{
}

/// Asking for a block keeps the worker on its way.
pub proof fn law_asking_keeps_on_the_way(v: WorkerView, begin: usize, data: Seq<u8>)
    requires
        on_the_way(v, data),
        v.torrent.piece_length <= offsets(),
        data.len() <= offsets(),
        v.phase == Phase::BlockOut(begin),
        wanted_block(v) == Some(begin as int),
    ensures
        on_the_way(step_of(v, EventView::Sent(true)).0, data),
{
    law_next_block_is_the_first_missing(v.pending, v.torrent.piece_length as int, 0);
    assert(begin as u32 == begin);
}

/// A block of the piece is taken. Before the last one the worker stays on its way; with the last
/// one the piece goes out as it is, if its digest is the one that the torrent holds.
pub proof fn law_blocks_lead_to_the_piece(v: WorkerView, begin: u32, data: Seq<u8>)
    requires
        sound(v),
        v.phase == Phase::Reading,
        on_the_way(v, data),
        v.torrent.piece_length <= offsets(),
        data.len() <= isize::MAX,
        data.len() < offsets(),
        block_start(begin as int, data.len() as int),
        has_digest(v.torrent.pieces, (v.next_piece->0 as u32) as int),
    ensures
        ({
            let payload = block_payload(v.next_piece->0 as u32, begin, data);
            let (w, action) = step_of(v, EventView::Message(7, payload));
            let whole = every_block_here(v.pending.insert(begin, true), data.len() as int);
            &&& accepts(v, EventView::Message(7, payload))
            &&& !whole ==> {
                &&& on_the_way(w, data)
                &&& w.pending == v.pending.insert(begin, true)
                &&& action is Read || action is SendRequest
            }
            &&& whole && sha1_of(data) == piece_digest(v.torrent.pieces, (v.next_piece->0 as u32) as int)
                ==> action == ActionView::PieceDone(v.next_piece->0, data)
        }),
{
    let index = v.next_piece->0 as u32;
    let payload = block_payload(index, begin, data);
    let len = block_len(begin as int, data.len() as int);
    let block = data.subrange(begin as int, begin + len);
    assert(payload.subrange(0, 4) =~= be32(index));
    assert(payload.subrange(4, 8) =~= be32(begin));
    lemma_read32_window(payload, 0, index);
    lemma_read32_window(payload, 4, begin);
    assert(payload.skip(8) =~= block);
    let w = with_block(v, payload);
    law_written_block_is_there(v.buffer, data, begin as int, begin as int);
    assert forall|b: u32| #[trigger] w.pending.contains_key(b) && w.pending[b] implies holds_block(
        w.buffer,
        data,
        b as int,
    ) by {
        if b != begin {
            assert(v.pending.contains_key(b));
            law_written_block_is_there(v.buffer, data, begin as int, b as int);
        }
    }
    law_whole_with_every_block(w.pending, data.len() as int);
    law_next_block_is_the_first_missing(w.pending, w.torrent.piece_length as int, 0);
    if all_received(w.pending, data.len() as int) {
        assert forall|b: int| block_start(b, data.len() as int) implies #[trigger] holds_block(
            w.buffer,
            data,
            b,
        ) by {
            assert(w.pending.contains_key(b as u32));
        }
        law_blocks_make_the_piece(w.buffer, data);
    }
}

/// A new worker has its torrent and no piece, and nothing is asked for. Once it has been started it
/// takes the peer to refuse requests and reads what the peer has to say, with an empty buffer for a
/// whole piece.
pub proof fn law_new_worker_is_started(torrent: InfoView, v: WorkerView, i: int)
    ensures
        new_worker(torrent).torrent == torrent,
        new_worker(torrent).pending == Map::<u32, bool>::empty(),
        new_worker(torrent).peer_bitfield is None,
        new_worker(torrent).next_piece is None,
        ({
            let w = started(v);
            &&& w.torrent == v.torrent
            &&& w.pending == v.pending
            &&& w.peer_bitfield == v.peer_bitfield
            &&& w.choked
            &&& w.next_piece is None
            &&& w.piece_size == v.torrent.piece_length as usize
            &&& w.buffer.len() == w.piece_size
            &&& 0 <= i < w.buffer.len() ==> w.buffer[i] == 0
            &&& w.phase is Reading
        }),
{
}

/// Whether the worker comes by this piece with this event: it is assigned, or leave is given to
/// download it.
pub open spec fn comes_by(v: WorkerView, e: EventView, index: usize) -> bool {
    ||| v.phase is FirstPiece && e == EventView::Assigned(Some(index))
    ||| v.phase is NextPiece && e == EventView::Assigned(Some(index))
    ||| v.phase == Phase::RequestOut(index) && e == EventView::Granted(true)
}

/// However a worker comes by a piece, it has exactly that piece to download afterwards. Its size is
/// that of a whole piece; for the last one it is what the pieces before it leave of the file, or,
/// where these exceed the file, what is left of the file after whole pieces. It keeps all else.
pub proof fn law_assigned_piece_is_taken_up(v: WorkerView, e: EventView, index: usize, i: int)
    requires
        sound(v),
        accepts(v, e),
        comes_by(v, e, index),
    ensures
        ({
            let w = step_of(v, e).0;
            let pieces = v.torrent.pieces.len() / 20;
            let whole = v.torrent.piece_length as usize;
            let file = match v.torrent.length {
                Some(length) => length as usize,
                None => 0,
            };
            let last = index + 1 == pieces;
            &&& w.next_piece == Some(index)
            &&& !last ==> w.piece_size == whole && w.buffer == v.buffer
            &&& last && whole * (pieces - 1) <= file ==> whole * (pieces - 1) + w.piece_size == file
            &&& last && whole * (pieces - 1) > file ==> w.piece_size == file % whole
            &&& w.buffer.len() == w.piece_size
            &&& last && 0 <= i < w.buffer.len() ==> w.buffer[i] == 0
            &&& w.pending == v.pending
            &&& w.choked == v.choked
            &&& w.peer_bitfield == v.peer_bitfield
        }),
{
}

/// The piece of a worker changes only when the worker comes by one or a finished one goes out; so
/// does its size; and what is here of it changes only then and when a block comes.
pub proof fn law_piece_changes_only_by_assignment(v: WorkerView, e: EventView)
    requires
        sound(v),
        accepts(v, e),
    ensures
        ({
            let (w, action) = step_of(v, e);
            let taken = exists|index: usize| comes_by(v, e, index);
            &&& !taken && !(action is PieceDone) ==> w.next_piece == v.next_piece && w.piece_size
                == v.piece_size
            &&& !taken && !(e matches EventView::Message(id, _) && id == 7) ==> w.buffer == v.buffer
        }),
{
    match (v.phase, e) {
        (Phase::FirstPiece, EventView::Assigned(Some(index))) => {
            assert(comes_by(v, e, index));
        },
        (Phase::NextPiece, EventView::Assigned(Some(index))) => {
            assert(comes_by(v, e, index));
        },
        (Phase::RequestOut(index), EventView::Granted(true)) => {
            assert(comes_by(v, e, index));
        },
        _ => {},
    }
}

/// Only the peer decides whether it refuses requests: it does from a choke on, no longer from an
/// unchoke on, and otherwise as before.
pub proof fn law_peer_decides_whether_it_refuses(v: WorkerView, e: EventView)
    requires
        accepts(v, e),
    ensures
        step_of(v, e).0.choked == match e {
            EventView::Message(id, _) => if id == 0 {
                true
            } else if id == 1 {
                false
            } else {
                v.choked
            },
            _ => v.choked,
        },
        step_of(v, e).0.torrent == v.torrent,
{
}

/// Only the peer tells which pieces it has, by a bitfield message, or piece by piece once it has sent
/// one.
pub proof fn law_peer_tells_its_pieces(v: WorkerView, e: EventView)
    requires
        accepts(v, e),
    ensures
        !(e matches EventView::Message(id, _) && (id == 4 || id == 5)) ==> step_of(
            v,
            e,
        ).0.peer_bitfield == v.peer_bitfield,
        v.peer_bitfield is None && !(e matches EventView::Message(id, _) && id == 5) ==> step_of(
            v,
            e,
        ).0.peer_bitfield is None,
{
}

/// The blocks under way change by three things: a request that has gone out, which is unanswered
/// then; a block of the piece that has come, which is here then; and a finished piece that goes out,
/// which leaves none.
pub proof fn law_blocks_under_way(v: WorkerView, e: EventView)
    requires
        accepts(v, e),
    ensures
        ({
            let (w, action) = step_of(v, e);
            &&& action is PieceDone ==> w.pending == Map::<u32, bool>::empty()
            &&& match (v.phase, e) {
                (Phase::BlockOut(begin), EventView::Sent(ok)) => w.pending == if ok {
                    v.pending.insert(begin as u32, false)
                } else {
                    v.pending
                },
                (Phase::Reading, EventView::Message(id, payload)) => id != 7 ==> w.pending
                    == v.pending,
                _ => w.pending == v.pending,
            }
        }),
{
}

/// Whether a block message names the piece that the worker downloads.
pub open spec fn names_the_piece(v: WorkerView, payload: Seq<u8>) -> bool {
    number(payload.subrange(0, 4)) == match v.next_piece {
        Some(index) => index as u32 as int,
        None => 0xffff_ffff,
    }
}

/// The blocks under way when the block of this message is here.
pub open spec fn with_block_here(v: WorkerView, payload: Seq<u8>) -> Map<u32, bool> {
    v.pending.insert(number(payload.subrange(4, 8)) as u32, true)
}

/// Whether the block at `c` of the piece has not been asked for.
pub open spec fn is_missing(v: WorkerView, c: int) -> bool {
    &&& 0 <= c < v.piece_size
    &&& c < v.torrent.piece_length
    &&& c % 16384 == 0
    &&& !v.pending.contains_key(c as u32)
}

/// Whether the worker goes on with its piece after this event: the peer has said something that is
/// no list of its pieces and, if it is a block, one of the piece but not the last; or the worker has
/// an answer about a piece and need not tell its interest, or has told it.
pub open spec fn goes_on(v: WorkerView, e: EventView) -> bool {
    match (v.phase, e) {
        (Phase::Reading, EventView::Message(id, payload)) => if id == 7 {
            names_the_piece(v, payload) && !all_received(
                with_block_here(v, payload),
                v.piece_size as int,
            )
        } else {
            id != 5 && (id != 4 || v.next_piece is Some)
        },
        (Phase::RequestOut(_), EventView::Granted(_)) => true,
        (Phase::InterestedOut, EventView::Sent(ok)) => ok,
        (Phase::NextPiece, EventView::Assigned(_)) => true,
        _ => false,
    }
}

proof fn lemma_block_message(v: WorkerView, payload: Seq<u8>)
    requires
        payload.len() >= 4,
    ensures
        names_the_piece(v, payload) <==> read32(payload, 0) == wanted_index(v),
        payload.len() >= 8 ==> with_block(v, payload).pending == with_block_here(v, payload),
{
    law_read_number_is_that_of_the_bytes(payload, 0);
    if payload.len() >= 8 {
        law_read_number_is_that_of_the_bytes(payload, 4);
    }
}

/// A worker that goes on asks for a block exactly where the peer does not refuse, the worker has a
/// piece of which a block was not asked for, and it has made fewer than five requests. Else it reads
/// on. After no other event does it ask for a block.
pub proof fn law_worker_asks_whenever_it_can(v: WorkerView, e: EventView)
    requires
        accepts(v, e),
        v.torrent.piece_length <= usize::MAX,
    ensures
        ({
            let (w, action) = step_of(v, e);
            let free = !w.choked && w.next_piece is Some && w.pending.len() < 5;
            let missing = exists|c: int| is_missing(w, c);
            &&& goes_on(v, e) && free && missing ==> action is SendRequest && w.phase is BlockOut
            &&& goes_on(v, e) && !(free && missing) ==> action is Read && w.phase is Reading
            &&& action is SendRequest ==> goes_on(v, e)
        }),
{
    let w = step_of(v, e).0;
    let length = w.torrent.piece_length as int;
    if let EventView::Message(id, payload) = e {
        if id == 7 {
            lemma_block_message(v, payload);
        }
    }
    if goes_on(v, e) {
        if let Some(b) = first_missing(w.pending, length, 0) {
            law_next_block_of_any_piece(w.pending, length, 0, 0);
            if b < w.piece_size {
                assert(is_missing(w, b));
            } else {
                assert forall|c: int| !is_missing(w, c) by {
                    if 0 <= c < w.piece_size && c < length && c % 16384 == 0 {
                        law_next_block_of_any_piece(w.pending, length, 0, c);
                    }
                }
            }
        } else {
            assert forall|c: int| !is_missing(w, c) by {
                if 0 <= c < length && c % 16384 == 0 {
                    law_next_block_of_any_piece(w.pending, length, 0, c);
                }
            }
        }
    }
}

proof fn lemma_asking(w: WorkerView, c: int)
    requires
        request_safe(w),
    ensures
        resumed(w).1 matches ActionView::SendRequest(message) ==> {
            &&& message.len() == 17
            &&& w.next_piece matches Some(index) && number(message.subrange(5, 9)) == index as u32
            &&& resumed(w).0.phase matches Phase::BlockOut(begin) && {
                &&& number(message.subrange(9, 13)) == begin as u32
                &&& begin < w.piece_size
                &&& w.torrent.piece_length <= usize::MAX ==> {
                    &&& is_missing(w, begin as int)
                    &&& 0 <= c < begin && c % 16384 == 0 ==> w.pending.contains_key(c as u32)
                }
                &&& w.piece_size <= 0xffff_ffff ==> {
                    let size = number(message.subrange(13, 17)) as int;
                    &&& number(message.subrange(9, 13)) == begin
                    &&& 0 < size <= 16384
                    &&& size == 16384 || begin + size == w.piece_size
                    &&& begin + size <= w.piece_size
                }
            }
        },
{
    if let Some(b) = wanted_block(w) {
        let length = w.torrent.piece_length as int;
        law_next_block_of_any_piece(w.pending, length, 0, 0);
        if 0 <= c < b && c < length && c % 16384 == 0 {
            law_next_block_of_any_piece(w.pending, length, 0, c);
        }
        law_block_request_is_cut(w.next_piece->0, b as usize, w.piece_size);
    }
}

/// Going on a second time asks for the same block.
proof fn lemma_going_on_again(v: WorkerView)
    requires
        request_safe(v),
    ensures
        resumed(v).1 is SendRequest ==> resumed(resumed(v).0) == resumed(v) && request_safe(
            resumed(v).0,
        ),
{
    let w = resumed(v).0;
    assert(wanted_block(w) == wanted_block(v));
    if resumed(v).1 is SendRequest {
        assert(in_phase(w, w.phase) =~= w);
    }
}

proof fn lemma_block_by_going_on(v: WorkerView, payload: Seq<u8>)
    requires
        accepts_block(v, payload),
        on_block(v, payload).1 is SendRequest,
    ensures
        on_block(v, payload) == resumed(with_block(v, payload)),
        request_safe(with_block(v, payload)),
{
}

/// A worker asks for a block only by going on with its piece.
proof fn lemma_request_by_going_on(v: WorkerView, e: EventView)
    requires
        accepts(v, e),
        step_of(v, e).1 is SendRequest,
    ensures
        step_of(v, e) == resumed(step_of(v, e).0),
        request_safe(step_of(v, e).0),
{
    match (v.phase, e) {
        (Phase::Reading, EventView::Message(id, payload)) => {
            if id == 0 {
                lemma_going_on_again(WorkerView { choked: true, ..v });
            } else if id == 1 {
                lemma_going_on_again(WorkerView { choked: false, ..v });
            } else if id == 4 {
                let w = with_have(v, read32(payload, 0) as usize);
                assert(wanted_block(w) == wanted_block(v));
                lemma_going_on_again(w);
            } else if id == 7 {
                lemma_block_by_going_on(v, payload);
                lemma_going_on_again(with_block(v, payload));
            } else {
                lemma_going_on_again(v);
            }
        },
        (Phase::RequestOut(index), EventView::Granted(granted)) => {
            if granted {
                lemma_going_on_again(assigned(v, Some(index)));
            } else {
                lemma_going_on_again(v);
            }
        },
        (Phase::InterestedOut, _) => {
            lemma_going_on_again(v);
        },
        (Phase::NextPiece, EventView::Assigned(piece)) => {
            lemma_going_on_again(assigned(v, piece));
        },
        _ => {},
    }
}

/// A request names the piece that the worker has, and the offset that the worker then waits for to
/// have gone out. That is where the first block begins that was not asked for; the request asks for
/// 16384 bytes of it, or for what is left of the piece.
pub proof fn law_request_names_the_piece(v: WorkerView, e: EventView, c: int)
    requires
        accepts(v, e),
    ensures
        step_of(v, e).1 matches ActionView::SendRequest(message) ==> {
            let w = step_of(v, e).0;
            &&& message.len() == 17
            &&& w.next_piece matches Some(index) && number(message.subrange(5, 9)) == index as u32
            &&& w.phase matches Phase::BlockOut(begin) && {
                &&& number(message.subrange(9, 13)) == begin as u32
                &&& begin < w.piece_size
                &&& w.torrent.piece_length <= usize::MAX ==> {
                    &&& is_missing(w, begin as int)
                    &&& 0 <= c < begin && c % 16384 == 0 ==> w.pending.contains_key(c as u32)
                }
                &&& w.piece_size <= 0xffff_ffff ==> {
                    let size = number(message.subrange(13, 17)) as int;
                    &&& number(message.subrange(9, 13)) == begin
                    &&& 0 < size <= 16384
                    &&& size == 16384 || begin + size == w.piece_size
                    &&& begin + size <= w.piece_size
                }
            }
        },
{
    if step_of(v, e).1 is SendRequest {
        lemma_request_by_going_on(v, e);
        lemma_asking(step_of(v, e).0, c);
    }
}

/// The worker after these events.
pub open spec fn after_events(v: WorkerView, events: Seq<EventView>) -> WorkerView
    decreases events.len(),
{
    if events.len() == 0 {
        v
    } else {
        step_of(after_events(v, events.drop_last()), events.last()).0
    }
}

/// Whether the worker takes each of these events in turn, and no piece goes out in between.
pub open spec fn under_way(v: WorkerView, events: Seq<EventView>) -> bool
    decreases events.len(),
{
    events.len() == 0 || {
        let before = after_events(v, events.drop_last());
        &&& under_way(v, events.drop_last())
        &&& accepts(before, events.last())
        &&& !(step_of(before, events.last()).1 is PieceDone)
    }
}

/// Until the piece that a worker has goes out, the worker has that piece, and every request that it
/// makes names it, whatever happens.
pub proof fn law_every_request_names_the_piece(
    v: WorkerView,
    index: usize,
    events: Seq<EventView>,
    e: EventView,
)
    requires
        sound(v),
        v.next_piece == Some(index),
        under_way(v, events),
        accepts(after_events(v, events), e),
    ensures
        after_events(v, events).next_piece == Some(index),
        step_of(after_events(v, events), e).1 matches ActionView::SendRequest(message) ==> number(
            message.subrange(5, 9),
        ) == index as u32,
        step_of(after_events(v, events), e).1 matches ActionView::PieceDone(done, _) ==> done == index,
{
    lemma_piece_is_kept(v, index, events);
    law_request_names_the_piece(after_events(v, events), e, 0);
}

proof fn lemma_piece_is_kept(v: WorkerView, index: usize, events: Seq<EventView>)
    requires
        sound(v),
        v.next_piece == Some(index),
        under_way(v, events),
    ensures
        sound(after_events(v, events)),
        after_events(v, events).next_piece == Some(index),
    decreases events.len(),
{
    if events.len() > 0 {
        lemma_piece_is_kept(v, index, events.drop_last());
        law_step_keeps_sound(after_events(v, events.drop_last()), events.last());
    }
}

/// A peer that has told of a piece by a have message: a worker without a piece asks for leave to
/// download just that one, and waits for the answer.
pub proof fn law_leave_is_asked_for_the_piece(v: WorkerView, payload: Seq<u8>)
    requires
        v.phase is Reading,
        v.next_piece is None,
        payload.len() >= 4,
    ensures
        accepts(v, EventView::Message(4, payload)),
        ({
            let (w, action) = step_of(v, EventView::Message(4, payload));
            action matches ActionView::RequestPiece(index) && {
                &&& index == number(payload.subrange(0, 4))
                &&& w.phase == Phase::RequestOut(index)
                &&& w.next_piece is None
            }
        }),
{
    law_read_number_is_that_of_the_bytes(payload, 0);
}

/// A bitfield message tells of each piece whether the peer has it, eight to a byte, the heaviest bit
/// first. A worker without a piece asks for one of these; one that has a piece keeps it and tells its
/// interest.
pub proof fn law_bitfield_tells_the_pieces(v: WorkerView, payload: Seq<u8>, i: int)
    requires
        v.phase is Reading,
        accepts(v, EventView::Message(5, payload)),
    ensures
        ({
            let (w, action) = step_of(v, EventView::Message(5, payload));
            &&& w.peer_bitfield matches Some(bits) && {
                &&& bits.len() == 8 * payload.len()
                &&& 0 <= i < bits.len() ==> bits[i] == set_bit(payload[i / 8], i % 8)
                &&& v.next_piece is None ==> action == ActionView::AskPiece(bits)
            }
            &&& v.next_piece is None ==> w.phase is FirstPiece
            &&& v.next_piece is Some ==> action is SendInterested
        }),
{
    if 0 <= i < 8 * payload.len() {
        law_unpacked_bits(payload, i);
    }
}

/// The message that the client is interested has five bytes: a length of one and the id two. It goes
/// out when the worker has come by its first piece, or has one and is told the pieces of the peer;
/// the worker then waits for it to have gone out.
pub proof fn law_interest_is_told(v: WorkerView, e: EventView)
    requires
        accepts(v, e),
    ensures
        step_of(v, e).1 matches ActionView::SendInterested(message) ==> message == seq![
            0u8,
            0,
            0,
            1,
            2,
        ] && step_of(v, e).0.phase is InterestedOut,
        step_of(v, e).1 is SendInterested <==> (v.phase is FirstPiece && e != EventView::Assigned(
            None,
        )) || (v.next_piece is Some && v.phase is Reading && (e matches EventView::Message(id, _)
            && id == 5)),
{
    assert(framed(2, Seq::empty()) =~= seq![0u8, 0, 0, 1, 2]);
}

/// A block of another piece is passed over: the worker reads on as before.
pub proof fn law_other_blocks_are_passed_over(v: WorkerView, payload: Seq<u8>)
    requires
        v.phase is Reading,
        v.next_piece is Some,
        payload.len() >= 4,
        !names_the_piece(v, payload),
    ensures
        accepts(v, EventView::Message(7, payload)),
        step_of(v, EventView::Message(7, payload)).0 == v,
        step_of(v, EventView::Message(7, payload)).1 is Read,
{
    lemma_block_message(v, payload);
    assert(in_phase(v, Phase::Reading) =~= v);
}

/// A block of the piece is written at the offset that it names, and counts as here. With the last one
/// the piece goes out whole, if its digest is the one that the torrent holds for it; and if not, the
/// worker reports it as failed and ends.
pub proof fn law_block_is_put_in_its_place(v: WorkerView, payload: Seq<u8>, i: int)
    requires
        v.phase is Reading,
        accepts(v, EventView::Message(7, payload)),
        names_the_piece(v, payload),
    ensures
        ({
            let (w, action) = step_of(v, EventView::Message(7, payload));
            let begin = number(payload.subrange(4, 8)) as int;
            let whole = all_received(with_block_here(v, payload), v.piece_size as int);
            let index = v.next_piece->0;
            let buffer = if action is PieceDone {
                action->PieceDone_1
            } else {
                w.buffer
            };
            let right = sha1_of(buffer) == v.torrent.pieces.subrange(
                20 * (index as u32),
                20 * (index as u32) + 20,
            );
            &&& buffer.len() == v.buffer.len()
            &&& 0 <= i < v.buffer.len() ==> buffer[i] == if begin <= i < begin + payload.len() - 8 {
                payload[8 + (i - begin)]
            } else {
                v.buffer[i]
            }
            &&& !whole ==> w.pending == with_block_here(v, payload) && (action is Read || action
                is SendRequest)
            &&& whole ==> (action is PieceDone <==> right)
            &&& action matches ActionView::PieceDone(done, _) ==> whole && done == index && w.phase
                is PieceOut
            &&& whole && !right ==> action == ActionView::Terminate(
                Reason::VerificationFailed,
                Some(index as u32),
            ) && w.phase is Done
        }),
{
    lemma_block_message(v, payload);
    law_read_number_is_that_of_the_bytes(payload, 4);
    if 0 <= i < v.buffer.len() {
        law_overwritten_bytes(v.buffer, read32(payload, 4) as int, payload.skip(8), i);
    } else {
        assert(with_block(v, payload).buffer.len() == v.buffer.len());
    }
}

/// Once a finished piece has been handed on, the worker asks once for another of the pieces of its
/// peer. A worker that is given none reads on.
pub proof fn law_worker_goes_for_the_next_piece(v: WorkerView, e: EventView)
    requires
        sound(v),
        accepts(v, e),
    ensures
        ({
            let (w, action) = step_of(v, e);
            &&& v.phase is PieceOut ==> action == ActionView::AskPiece(v.peer_bitfield->0) && w.phase
                is NextPiece
            &&& (v.phase is NextPiece || v.phase is FirstPiece) && e == EventView::Assigned(None)
                ==> action is Read && w.phase is Reading && w.next_piece is None
            &&& action is AskPiece ==> v.phase is PieceOut || (e matches EventView::Message(id, _)
                && id == 5)
        }),
{
}

/// A worker gives up on its peer exactly when it waits too long, loses the connection, cannot make a
/// request, or finds a piece spoilt; it says why and ends. Where it cannot tell its interest, it ends
/// with that error.
pub proof fn law_worker_says_why_it_gives_up(v: WorkerView, e: EventView)
    requires
        sound(v),
        accepts(v, e),
    ensures
        ({
            let (w, action) = step_of(v, e);
            &&& e is TimedOut ==> (action matches ActionView::Terminate(reason, _) && reason
                == Reason::TimedOut)
            &&& e is Lost ==> (action matches ActionView::Terminate(reason, _) && reason
                == Reason::ConnectionLost)
            &&& v.phase is BlockOut && e == EventView::Sent(false) ==> (action
                matches ActionView::Terminate(reason, _) && reason == Reason::RequestFailed)
            &&& v.phase is BlockOut && e == EventView::Sent(true) ==> action is Read && w.phase is Reading
            &&& action is Terminate ==> e is TimedOut || e is Lost || (v.phase is BlockOut && e
                == EventView::Sent(false)) || (e matches EventView::Message(id, _) && id == 7)
            &&& action is Abort <==> v.phase is InterestedOut && e == EventView::Sent(false)
        }),
{
}

/// A worker whose peer refuses requests waits a minute for a message, and one whose peer does not
/// waits without a limit.
pub proof fn law_worker_waits_a_minute(v: WorkerView, e: EventView)
    requires
        accepts(v, e),
    ensures
        step_of(v, e).1 matches ActionView::Read(limit) ==> limit == if step_of(v, e).0.choked {
            Some(60u64)
        } else {
            None
        },
{
}

/// Whether a piece has so few bytes that each of them has an offset of its own in a request.
pub open spec fn small(v: WorkerView) -> bool {
    v.piece_size <= 0xffff_ffff && v.torrent.piece_length <= 0xffff_ffff
}

proof fn lemma_small_requests(v: WorkerView)
    requires
        small(v),
    ensures
        request_safe(v),
{
    let length = v.torrent.piece_length as int;
    if first_missing(v.pending, length, 0) is Some {
        law_next_block_of_any_piece(v.pending, length, 0, 0);
    }
}

/// What a worker takes while it reads: every message that is long enough for what its id says. A
/// have message has four bytes at least. A block message that names the piece has eight at least,
/// its block lies within the buffer, and the torrent holds the digest when it is the last one. It
/// can lose the connection at any time, and wait too long only for a peer that refuses requests.
pub proof fn law_what_a_reading_worker_takes(v: WorkerView, id: u8, payload: Seq<u8>)
    requires
        v.phase is Reading,
        small(v),
    ensures
        accepts(v, EventView::Lost),
        accepts(v, EventView::TimedOut) <==> v.choked,
        id != 4 && id != 5 && id != 7 ==> accepts(v, EventView::Message(id, payload)),
        id == 4 ==> (accepts(v, EventView::Message(id, payload)) <==> payload.len() >= 4),
        id == 5 ==> (accepts(v, EventView::Message(id, payload)) <==> 8 * payload.len()
            <= isize::MAX),
        id == 7 && payload.len() < 4 ==> !accepts(v, EventView::Message(id, payload)),
        id == 7 && payload.len() >= 4 && names_the_piece(v, payload) ==> (accepts(
            v,
            EventView::Message(id, payload),
        ) <==> {
            let begin = number(payload.subrange(4, 8)) as int;
            &&& payload.len() >= 8
            &&& begin + payload.len() <= usize::MAX
            &&& begin + payload.len() - 8 <= v.buffer.len()
            &&& all_received(with_block_here(v, payload), v.piece_size as int) ==> {
                &&& v.next_piece matches Some(index)
                &&& 20 * (index as u32) + 20 <= v.torrent.pieces.len()
            }
        }),
{
    lemma_small_requests(v);
    lemma_small_requests(WorkerView { choked: false, ..v });
    if payload.len() >= 4 {
        lemma_block_message(v, payload);
    }
    if payload.len() >= 8 {
        law_read_number_is_that_of_the_bytes(payload, 4);
        lemma_small_requests(with_block(v, payload));
    }
}

/// What a worker takes otherwise: what it waits for. It takes up a piece wherever the torrent has
/// pieces, these are not empty, and the piece fits into memory.
pub proof fn law_what_a_worker_takes(v: WorkerView, index: usize, ok: bool)
    requires
        sound(v),
        small(v),
    ensures
        ({
            let pieces = v.torrent.pieces.len() / 20;
            let whole = v.torrent.piece_length as usize;
            let file = match v.torrent.length {
                Some(length) => length as usize,
                None => 0,
            };
            let fine = pieces > 0 && whole > 0 && file <= 0x7fff_ffff;
            &&& fine && v.phase is FirstPiece ==> accepts(v, EventView::Assigned(Some(index)))
            &&& fine && v.phase is NextPiece ==> accepts(v, EventView::Assigned(Some(index)))
            &&& fine && v.phase == Phase::RequestOut(index) ==> accepts(v, EventView::Granted(true))
            &&& pieces > 0 && v.phase is FirstPiece ==> accepts(v, EventView::Assigned(None))
        }),
        v.phase is NextPiece ==> accepts(v, EventView::Assigned(None)),
        v.phase is RequestOut ==> accepts(v, EventView::Granted(false)),
        v.phase is InterestedOut || v.phase is BlockOut ==> accepts(v, EventView::Sent(ok)),
        v.phase is PieceOut && v.peer_bitfield is Some ==> accepts(v, EventView::Sent(true)),
{
    lemma_small_requests(v);
    let pieces = v.torrent.pieces.len() / 20;
    let whole = v.torrent.piece_length as usize;
    let file = total_length(v);
    if pieces > 0 && whole > 0 && file <= 0x7fff_ffff {
        let before = whole * (pieces - 1);
        assert(before >= 0) by (nonlinear_arith)
            requires
                before == whole * (pieces - 1),
                whole >= 0,
                pieces >= 1,
        ;
        assert(file % whole <= file) by (nonlinear_arith)
            requires
                whole > 0,
                file >= 0,
        ;
        assert(last_size(v) <= file);
        lemma_small_requests(assigned(v, Some(index)));
    }
}

/// The plain values of actions tell what these hold: the same bits and bytes in their order, the same
/// piece, the same limit, the same reason.
pub proof fn law_plain_actions(action: PlainAction)
    ensures
        action matches PlainAction::Read(limit) ==> action@ == ActionView::Read(limit),
        action matches PlainAction::RequestPiece(index) ==> action@ == ActionView::RequestPiece(index),
        action matches PlainAction::AskPiece(bits) ==> action@ == ActionView::AskPiece(bits@),
        action matches PlainAction::SendInterested(message) ==> action@ == ActionView::SendInterested(
            message@,
        ),
        action matches PlainAction::SendRequest(message) ==> action@ == ActionView::SendRequest(
            message@,
        ),
        action matches PlainAction::PieceDone(index, data) ==> action@ == ActionView::PieceDone(
            index,
            data@,
        ),
        action matches PlainAction::Terminate(reason, piece) ==> action@ == ActionView::Terminate(
            reason,
            piece,
        ),
        action is Abort <==> action@ is Abort,
{
}

} // verus!
