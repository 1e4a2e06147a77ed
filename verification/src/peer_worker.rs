//! The worker that downloads pieces from one peer.
//!
//! The worker decides; it neither sends nor receives. Each step takes what has happened, a
//! `WorkerEvent`, and gives what is to be done next, a `WorkerAction`. What comes of that is the
//! next event.
use crate::blocks::{
    all_received, block_len, block_request, block_start, block_starts, count_unanswered,
    create_block_request, every_block_here, first_missing, has_digest, holds_block,
    law_block_request_is_cut, law_blocks_make_the_piece, law_next_block_is_the_first_missing,
    law_next_block_of_any_piece, law_overwritten_bytes, law_request_stays_in_the_piece,
    law_whole_with_every_block, law_written_block_is_there, next_missing, offsets, overwritten,
    piece_digest, unanswered, write_block, BLOCK_SIZE, MAX_WORKER_REQUESTS,
};
use crate::bitfield_actor::{self, lemma_first_set, position};
use crate::hash::sha1_of;
use crate::torrent::{InfoView, TorrentInfo};
use crate::util::{copy_bits, law_unpacked_bits, set_bit, unpacked, vec_u8_to_box_bool};
use crate::wire::{
    be32, bitfield_message, create_bitfield_message, framed, law_read_number_is_that_of_the_bytes,
    lemma_read32_window, number, read32, read_be32, read_message, request_message, ReadStep,
};
use std::collections::HashMap;
use vstd::prelude::*;

verus! {

/// How long a choked worker waits for a message, in seconds.
pub const MAX_PENDING_DURATION: u64 = 120;

/// How often a worker without a piece asks for one before it gives up.
pub const PIECE_ATTEMPTS: u32 = 5;

/// How long the worker rests between two of these attempts, in milliseconds.
pub const ATTEMPT_REST: u64 = 500;

/// How long the worker rests when it has given up, in milliseconds.
pub const RETRY_REST: u64 = 1000;

/// What the worker is waiting for.
#[derive(Clone, Copy, PartialEq, Eq, Structural, Debug)]
pub enum Phase {
    /// To learn which pieces are here.
    Greeting,
    /// That the bitfield message has gone out.
    BitfieldOut,
    /// A message of the peer.
    Reading,
    /// Whether the bitfield actor gives leave to download this piece.
    RequestOut(usize),
    /// The piece to start with.
    FirstPiece,
    /// That the peer has been told of the interest in its pieces.
    InterestedOut,
    /// That the finished piece has been handed on.
    PieceOut,
    /// The piece to go on with, after so many attempts in vain.
    NextPiece(u32),
    /// The end of the rest after so many attempts in vain and one more.
    Resting(u32),
    /// Whether the download is complete.
    Completion,
    /// The end of the rest before the worker reads on without a new piece.
    Pausing,
    /// That the request for the block at this offset has gone out.
    BlockOut(usize),
    /// Nothing: the worker has ended.
    Done,
}

/// Why a worker gives up on its peer.
#[derive(Clone, Copy, PartialEq, Eq, Structural, Debug)]
pub enum Reason {
    TimedOut,
    ConnectionLost,
    VerificationFailed,
    RequestFailed,
}

/// What has happened.
pub enum WorkerEvent {
    /// The bitfield actor has told which pieces are here.
    Bitfield(Box<[bool]>),
    /// Whether what was to be sent has been sent.
    Sent(bool),
    /// No message has come in time.
    TimedOut,
    /// The connection is lost.
    Lost,
    /// A message has come: its id and its payload.
    Message(u8, Vec<u8>),
    /// Whether the bitfield actor has given leave to download the piece. It has not where it cannot
    /// be asked.
    Granted(bool),
    /// The bitfield actor has assigned a piece, or has none.
    Assigned(Option<usize>),
    /// The rest is over.
    Rested,
    /// Whether the download is complete.
    Complete(bool),
}

/// What is to be done next.
pub enum WorkerAction {
    /// Ask the bitfield actor which pieces are here.
    AskBitfield,
    /// Send this bitfield message to the peer.
    SendBitfield(Vec<u8>),
    /// Read a message of the peer, for so many seconds at most where a limit is given.
    Read(Option<u64>),
    /// Ask the bitfield actor for leave to download this piece.
    RequestPiece(usize),
    /// Ask the bitfield actor for a piece that the peer has.
    AskPiece(Box<[bool]>),
    /// Send this message, that the client is interested, to the peer.
    SendInterested(Vec<u8>),
    /// Send this request for a block to the peer.
    SendRequest(Vec<u8>),
    /// Tell the bitfield actor that this piece is here, and the output actor what it holds.
    PieceDone(usize, Vec<u8>),
    /// Rest for so many milliseconds.
    Rest(u64),
    /// Ask the bitfield actor whether the download is complete.
    AskComplete,
    /// Tell the bitfield actor that the piece has failed, and end.
    Terminate(Reason, Option<usize>),
    /// End: the download is complete.
    Finish,
    /// End with the error of the last attempt to send.
    Abort,
}

/// `WorkerEvent` as a plain value.
pub enum EventView {
    Bitfield(Seq<bool>),
    Sent(bool),
    TimedOut,
    Lost,
    Message(u8, Seq<u8>),
    Granted(bool),
    Assigned(Option<usize>),
    Rested,
    Complete(bool),
}

/// `WorkerAction` as a plain value.
#[verifier::ext_equal]
pub enum ActionView {
    AskBitfield,
    SendBitfield(Seq<u8>),
    Read(Option<u64>),
    RequestPiece(usize),
    AskPiece(Seq<bool>),
    SendInterested(Seq<u8>),
    SendRequest(Seq<u8>),
    PieceDone(usize, Seq<u8>),
    Rest(u64),
    AskComplete,
    Terminate(Reason, Option<usize>),
    Finish,
    Abort,
}

impl View for WorkerEvent {
    type V = EventView;

    open spec fn view(&self) -> EventView {
        match *self {
            WorkerEvent::Bitfield(bits) => EventView::Bitfield(bits@),
            WorkerEvent::Sent(ok) => EventView::Sent(ok),
            WorkerEvent::TimedOut => EventView::TimedOut,
            WorkerEvent::Lost => EventView::Lost,
            WorkerEvent::Message(id, payload) => EventView::Message(id, payload@),
            WorkerEvent::Granted(granted) => EventView::Granted(granted),
            WorkerEvent::Assigned(piece) => EventView::Assigned(piece),
            WorkerEvent::Rested => EventView::Rested,
            WorkerEvent::Complete(complete) => EventView::Complete(complete),
        }
    }
}

impl View for WorkerAction {
    type V = ActionView;

    open spec fn view(&self) -> ActionView {
        match *self {
            WorkerAction::AskBitfield => ActionView::AskBitfield,
            WorkerAction::SendBitfield(message) => ActionView::SendBitfield(message@),
            WorkerAction::Read(limit) => ActionView::Read(limit),
            WorkerAction::RequestPiece(index) => ActionView::RequestPiece(index),
            WorkerAction::AskPiece(bits) => ActionView::AskPiece(bits@),
            WorkerAction::SendInterested(message) => ActionView::SendInterested(message@),
            WorkerAction::SendRequest(message) => ActionView::SendRequest(message@),
            WorkerAction::PieceDone(index, data) => ActionView::PieceDone(index, data@),
            WorkerAction::Rest(millis) => ActionView::Rest(millis),
            WorkerAction::AskComplete => ActionView::AskComplete,
            WorkerAction::Terminate(reason, piece) => ActionView::Terminate(reason, piece),
            WorkerAction::Finish => ActionView::Finish,
            WorkerAction::Abort => ActionView::Abort,
        }
    }
}

/// A worker that manages the download from a single peer. It asks for the blocks of one piece at
/// a time and checks the digest of a piece before it hands the piece on.
pub struct PeerWorker {
    // The blocks asked for or received, by their offsets, and whether they are here.
    pending_requests: HashMap<u32, bool>,
    torrent: TorrentInfo,
    peer_bitfield: Option<Box<[bool]>>,
    choked: bool,
    next_piece: Option<usize>,
    piece_buffer: Vec<u8>,
    piece_size: usize,
    phase: Phase,
}

/// `PeerWorker` as a plain value.
#[verifier::ext_equal]
pub struct WorkerView {
    /// The torrent to download.
    pub torrent: InfoView,
    /// The blocks asked for or received, by their offsets, and whether they are here.
    pub pending: Map<u32, bool>,
    /// The pieces that the peer has, once it has told.
    pub peer_bitfield: Option<Seq<bool>>,
    /// Whether the peer refuses requests.
    pub choked: bool,
    /// The piece to download.
    pub next_piece: Option<usize>,
    /// What is here of that piece.
    pub buffer: Seq<u8>,
    /// The size of that piece.
    pub piece_size: usize,
    /// What the worker is waiting for.
    pub phase: Phase,
}

impl View for PeerWorker {
    type V = WorkerView;

    closed spec fn view(&self) -> WorkerView {
        WorkerView {
            torrent: self.torrent@,
            pending: self.pending_requests@,
            peer_bitfield: match self.peer_bitfield {
                Some(bits) => Some(bits@),
                None => None,
            },
            choked: self.choked,
            next_piece: self.next_piece,
            buffer: self.piece_buffer@,
            piece_size: self.piece_size,
            phase: self.phase,
        }
    }
}

/// A worker for a peer that has not told its pieces yet and refuses requests.
pub open spec fn new_worker(torrent: InfoView) -> WorkerView {
    WorkerView {
        torrent,
        pending: Map::empty(),
        peer_bitfield: None,
        choked: true,
        next_piece: None,
        buffer: Seq::new(torrent.piece_length as usize as nat, |i: int| 0u8),
        piece_size: torrent.piece_length as usize,
        phase: Phase::Greeting,
    }
}

/// The worker with another phase.
pub open spec fn in_phase(v: WorkerView, phase: Phase) -> WorkerView {
    WorkerView { phase, ..v }
}

/// The index of the last piece of a torrent that has pieces.
pub open spec fn last_piece(pieces: Seq<u8>) -> int {
    pieces.len() / 20 - 1
}

/// The size of a piece. The last one ends with the file.
pub open spec fn size_of_piece(v: WorkerView, index: usize) -> int {
    if index == last_piece(v.torrent.pieces) {
        total_length(v) - (v.torrent.piece_length as usize) * last_piece(v.torrent.pieces)
    } else {
        v.torrent.piece_length as usize as int
    }
}

/// The size of the file, nothing where the torrent does not tell.
pub open spec fn total_length(v: WorkerView) -> int {
    match v.torrent.length {
        Some(length) => length as usize as int,
        None => 0,
    }
}

/// Whether the worker can take up this piece: the torrent has pieces, they do not exceed the file,
/// and the piece fits into memory.
pub open spec fn assignable(v: WorkerView, index: usize) -> bool {
    &&& v.torrent.pieces.len() >= 20
    &&& index == last_piece(v.torrent.pieces) ==> (v.torrent.piece_length as usize) * last_piece(v.torrent.pieces)
        <= usize::MAX
    &&& 0 <= size_of_piece(v, index) <= isize::MAX
}

/// The worker with a piece to download, of which nothing is here yet.
pub open spec fn assigned(v: WorkerView, index: usize) -> WorkerView {
    WorkerView {
        next_piece: Some(index),
        piece_size: size_of_piece(v, index) as usize,
        buffer: Seq::new(size_of_piece(v, index) as nat, |i: int| 0u8),
        ..v
    }
}

/// The block to ask for next: none while the peer refuses requests, without a piece, or while too
/// many requests are unanswered.
pub open spec fn wanted_block(v: WorkerView) -> Option<int> {
    if !v.choked && v.next_piece is Some && unanswered(v.pending).len() < MAX_WORKER_REQUESTS {
        first_missing(v.pending, v.piece_size as int, 0)
    } else {
        None
    }
}

/// Whether the request for the block to ask for next can be written: the size that it states is
/// not negative. It always is where the piece is smaller than 4 GiB.
pub open spec fn request_safe(v: WorkerView) -> bool {
    wanted_block(v) matches Some(begin) ==> (begin as u32) <= (v.piece_size as u32)
}

/// The worker reads on.
pub open spec fn reading(v: WorkerView) -> (WorkerView, ActionView) {
    (
        in_phase(v, Phase::Reading),
        ActionView::Read(if v.choked { Some(MAX_PENDING_DURATION) } else { None }),
    )
}

/// The worker asks for a block where it can, and reads on where it cannot.
pub open spec fn resumed(v: WorkerView) -> (WorkerView, ActionView) {
    match wanted_block(v) {
        Some(begin) => (
            in_phase(v, Phase::BlockOut(begin as usize)),
            ActionView::SendRequest(
                block_request(v.next_piece->0, begin as usize, v.piece_size),
            ),
        ),
        None => reading(v),
    }
}

/// The worker tells the peer which pieces are here. Where there are none, it has nothing to tell
/// and reads on.
pub open spec fn greeted(v: WorkerView, bits: Seq<bool>) -> (WorkerView, ActionView) {
    if bits.contains(true) {
        (
            in_phase(v, Phase::BitfieldOut),
            ActionView::SendBitfield(bitfield_message(bits)),
        )
    } else {
        reading(v)
    }
}

/// The worker tells the peer that the client is interested.
pub open spec fn interested(v: WorkerView) -> (WorkerView, ActionView) {
    (
        in_phase(v, Phase::InterestedOut),
        ActionView::SendInterested(framed(2, Seq::empty())),
    )
}

/// The worker when it knows that the peer has this piece too.
pub open spec fn with_have(v: WorkerView, index: usize) -> WorkerView {
    WorkerView {
        peer_bitfield: match v.peer_bitfield {
            Some(bits) => if index < bits.len() {
                Some(bits.update(index as int, true))
            } else {
                Some(bits)
            },
            None => None,
        },
        ..v
    }
}

/// The worker ends and gives its piece back.
pub open spec fn terminated(v: WorkerView, reason: Reason) -> (WorkerView, ActionView) {
    (in_phase(v, Phase::Done), ActionView::Terminate(reason, v.next_piece))
}

/// The piece index that a block has to name.
pub open spec fn wanted_index(v: WorkerView) -> u32 {
    match v.next_piece {
        Some(index) => index as u32,
        None => u32::MAX,
    }
}

/// The worker with the block that this message carries.
pub open spec fn with_block(v: WorkerView, payload: Seq<u8>) -> WorkerView {
    WorkerView {
        pending: v.pending.insert(read32(payload, 4), true),
        buffer: overwritten(v.buffer, read32(payload, 4) as int, payload.skip(8)),
        ..v
    }
}

/// Whether the worker can take this message as a block. A message for another piece is passed
/// over. The block has to lie within the piece; and when it is the last one, the torrent has to
/// hold the digest of the piece.
pub open spec fn accepts_block(v: WorkerView, payload: Seq<u8>) -> bool {
    &&& payload.len() >= 4
    &&& read32(payload, 0) == wanted_index(v) ==> {
        &&& payload.len() >= 8
        &&& read32(payload, 4) + payload.len() <= usize::MAX
        &&& read32(payload, 4) + payload.len() - 8 <= v.buffer.len()
        &&& all_received(with_block(v, payload).pending, v.piece_size as int) ==> v.next_piece is Some
            && has_digest(v.torrent.pieces, (v.next_piece->0 as u32) as int)
    }
}

/// What a block makes of the worker. With the last block the piece is whole: it goes out if its
/// digest is right, and the worker ends if it is not.
pub open spec fn on_block(v: WorkerView, payload: Seq<u8>) -> (WorkerView, ActionView) {
    let w = with_block(v, payload);
    if read32(payload, 0) != wanted_index(v) {
        reading(v)
    } else if !all_received(w.pending, w.piece_size as int) {
        reading(w)
    } else if sha1_of(w.buffer) == piece_digest(w.torrent.pieces, (w.next_piece->0 as u32) as int) {
        (in_phase(w, Phase::PieceOut), ActionView::PieceDone(w.next_piece->0, w.buffer))
    } else {
        terminated(w, Reason::VerificationFailed)
    }
}

/// Whether the worker can take this message: it is long enough for what its id says, and the
/// request that may follow can be written.
pub open spec fn accepts_message(v: WorkerView, id: u8, payload: Seq<u8>) -> bool {
    if id == 0 {
        true
    } else if id == 1 {
        request_safe(WorkerView { choked: false, ..v })
    } else if id == 4 {
        payload.len() >= 4 && (v.next_piece is Some ==> request_safe(v))
    } else if id == 5 {
        8 * payload.len() <= isize::MAX
    } else if id == 7 {
        accepts_block(v, payload)
    } else {
        request_safe(v)
    }
}

/// What a message makes of the worker.
pub open spec fn on_message(v: WorkerView, id: u8, payload: Seq<u8>) -> (WorkerView, ActionView) {
    if id == 0 {
        // Choke.
        resumed(WorkerView { choked: true, ..v })
    } else if id == 1 {
        // Unchoke.
        resumed(WorkerView { choked: false, ..v })
    } else if id == 4 {
        // Have: the peer has a piece. A worker without one to download asks for leave.
        let index = read32(payload, 0) as usize;
        let w = with_have(v, index);
        if v.next_piece is None {
            (in_phase(w, Phase::RequestOut(index)), ActionView::RequestPiece(index))
        } else {
            resumed(w)
        }
    } else if id == 5 {
        // Bitfield. A worker without a piece to download asks for one.
        let w = WorkerView { peer_bitfield: Some(unpacked(payload)), ..v };
        if v.next_piece is None {
            (in_phase(w, Phase::FirstPiece), ActionView::AskPiece(unpacked(payload)))
        } else {
            interested(w)
        }
    } else if id == 7 {
        // Piece.
        on_block(v, payload)
    } else {
        // All that the worker does not act on.
        resumed(v)
    }
}

/// Whether the worker can take this event: it is one that the worker waits for, and what follows
/// from it can be done.
pub open spec fn accepts(v: WorkerView, e: EventView) -> bool {
    match (v.phase, e) {
        (Phase::Greeting, EventView::Bitfield(_)) => true,
        (Phase::BitfieldOut, EventView::Sent(ok)) => ok,
        (Phase::Reading, EventView::TimedOut) => v.choked,
        (Phase::Reading, EventView::Lost) => true,
        (Phase::Reading, EventView::Message(id, payload)) => accepts_message(v, id, payload),
        (Phase::RequestOut(index), EventView::Granted(granted)) => if granted {
            assignable(v, index) && request_safe(assigned(v, index))
        } else {
            request_safe(v)
        },
        (Phase::FirstPiece, EventView::Assigned(piece)) => piece matches Some(index) ==> assignable(
            v,
            index,
        ),
        (Phase::InterestedOut, EventView::Sent(ok)) => ok ==> request_safe(v),
        (Phase::PieceOut, EventView::Sent(ok)) => ok && v.peer_bitfield is Some,
        (Phase::NextPiece(_), EventView::Assigned(piece)) => piece matches Some(index) ==> assignable(
            v,
            index,
        ) && request_safe(assigned(v, index)),
        (Phase::Resting(_), EventView::Rested) => true,
        (Phase::Completion, EventView::Complete(_)) => true,
        (Phase::Pausing, EventView::Rested) => true,
        (Phase::BlockOut(_), EventView::Sent(_)) => true,
        _ => false,
    }
}

/// What an event makes of the worker, and what the worker then does.
pub open spec fn step_of(v: WorkerView, e: EventView) -> (WorkerView, ActionView) {
    match (v.phase, e) {
        (Phase::Greeting, EventView::Bitfield(bits)) => greeted(v, bits),
        (Phase::BitfieldOut, _) => reading(v),
        (Phase::Reading, EventView::TimedOut) => terminated(v, Reason::TimedOut),
        (Phase::Reading, EventView::Lost) => terminated(v, Reason::ConnectionLost),
        (Phase::Reading, EventView::Message(id, payload)) => on_message(v, id, payload),
        (Phase::RequestOut(index), EventView::Granted(granted)) => resumed(
            if granted {
                assigned(v, index)
            } else {
                v
            },
        ),
        (Phase::FirstPiece, EventView::Assigned(Some(index))) => interested(assigned(v, index)),
        (Phase::FirstPiece, _) => reading(v),
        (Phase::InterestedOut, EventView::Sent(ok)) => if ok {
            resumed(v)
        } else {
            (in_phase(v, Phase::Done), ActionView::Abort)
        },
        (Phase::PieceOut, _) => (
            WorkerView {
                pending: Map::empty(),
                next_piece: None,
                phase: Phase::NextPiece(0),
                ..v
            },
            ActionView::AskPiece(v.peer_bitfield->0),
        ),
        (Phase::NextPiece(_), EventView::Assigned(Some(index))) => resumed(assigned(v, index)),
        (Phase::NextPiece(attempts), _) => (
            in_phase(v, Phase::Resting(attempts)),
            ActionView::Rest(ATTEMPT_REST),
        ),
        (Phase::Resting(attempts), _) => if attempts + 1 < PIECE_ATTEMPTS {
            (
                in_phase(v, Phase::NextPiece((attempts + 1) as u32)),
                ActionView::AskPiece(v.peer_bitfield->0),
            )
        } else {
            (in_phase(v, Phase::Completion), ActionView::AskComplete)
        },
        (Phase::Completion, EventView::Complete(complete)) => if complete {
            (in_phase(v, Phase::Done), ActionView::Finish)
        } else {
            (in_phase(v, Phase::Pausing), ActionView::Rest(RETRY_REST))
        },
        (Phase::Pausing, _) => reading(v),
        (Phase::BlockOut(begin), EventView::Sent(ok)) => if ok {
            reading(WorkerView { pending: v.pending.insert(begin as u32, false), ..v })
        } else {
            terminated(v, Reason::RequestFailed)
        },
        _ => (v, ActionView::Abort),
    }
}

/// What holds of a worker at all times: the requests that it leaves unanswered are limited, it goes
/// on asking for pieces only of a peer whose pieces it knows, and it asks only while it has none.
pub open spec fn sound(v: WorkerView) -> bool {
    &&& v.pending.dom().finite()
    &&& unanswered(v.pending).len() <= MAX_WORKER_REQUESTS
    &&& v.phase is BlockOut ==> unanswered(v.pending).len() < MAX_WORKER_REQUESTS
    &&& (v.phase is NextPiece || v.phase is Resting) ==> v.peer_bitfield is Some
    &&& (v.phase is RequestOut || v.phase is FirstPiece || v.phase is NextPiece || v.phase is Resting
        || v.phase is Completion || v.phase is Pausing) ==> v.next_piece is None
}

/// Every event leaves the worker sound.
pub proof fn law_step_keeps_sound(v: WorkerView, e: EventView)
    requires
        sound(v),
        accepts(v, e),
    ensures
        sound(step_of(v, e).0),
{
    match (v.phase, e) {
        (Phase::BlockOut(begin), EventView::Sent(ok)) => {
            lemma_unanswered_insert(v.pending, begin as u32, false);
        },
        (Phase::Reading, EventView::Message(id, payload)) => {
            lemma_unanswered_insert(v.pending, read32(payload, 4), true);
        },
        (Phase::PieceOut, _) => {
            assert(unanswered(Map::<u32, bool>::empty()) =~= Set::empty());
        },
        _ => {},
    }
}

proof fn lemma_unanswered_insert(pending: Map<u32, bool>, begin: u32, here: bool)
    requires
        pending.dom().finite(),
    ensures
        unanswered(pending).finite(),
        unanswered(pending.insert(begin, here)).finite(),
        here ==> unanswered(pending.insert(begin, here)).len() <= unanswered(pending).len(),
        unanswered(pending.insert(begin, here)).len() <= unanswered(pending).len() + 1,
{
    let before = unanswered(pending);
    let after = unanswered(pending.insert(begin, here));
    if here {
        assert(after =~= before.remove(begin));
    } else {
        assert(after =~= before.insert(begin));
    }
}

impl PeerWorker {
    /// A worker for a peer that has not told its pieces yet and refuses requests.
    pub fn new(torrent: TorrentInfo) -> (r: Self)
        requires
            torrent.piece_length as usize <= isize::MAX,
        ensures
            r@ == (WorkerView {
                torrent: torrent@,
                pending: Map::empty(),
                peer_bitfield: None,
                choked: true,
                next_piece: None,
                buffer: Seq::new(torrent.piece_length as usize as nat, |i: int| 0u8),
                piece_size: torrent.piece_length as usize,
                phase: Phase::Greeting,
            }),
            r@ == new_worker(torrent@),
            sound(r@),
    {
        let piece_len: usize = torrent.piece_length as usize;
        let worker = PeerWorker {
            pending_requests: HashMap::new(),
            torrent,
            peer_bitfield: None,
            choked: true,
            next_piece: None,
            piece_buffer: vec![0u8; piece_len],
            piece_size: piece_len,
            phase: Phase::Greeting,
        };
        assert(unanswered(Map::<u32, bool>::empty()) =~= Set::empty());
        worker
    }

    /// Starts the worker: the peer is to be told which pieces are here.
    pub fn start_worker(&mut self) -> (action: WorkerAction)
        requires
            sound(old(self)@),
        ensures
            final(self)@ == in_phase(old(self)@, Phase::Greeting),
            sound(final(self)@),
            action@ == ActionView::AskBitfield,
    {
        self.phase = Phase::Greeting;
        assert(self@ =~= in_phase(old(self)@, Phase::Greeting));
        WorkerAction::AskBitfield
    }

    /// Takes up a piece of which nothing is here yet.
    fn assign(&mut self, index: usize)
        requires
            assignable(old(self)@, index),
        ensures
            final(self)@ == assigned(old(self)@, index),
    {
        let last: usize = self.torrent.pieces.len() / 20 - 1;
        let piece_len: usize = self.torrent.piece_length as usize;
        let size: usize = if index == last {
            let total: usize = match self.torrent.length {
                Some(length) => length as usize,
                None => 0,
            };
            assert(piece_len * last == (self@.torrent.piece_length as usize) * last_piece(self@.torrent.pieces));
            total - piece_len * last
        } else {
            piece_len
        };
        self.next_piece = Some(index);
        self.piece_size = size;
        self.piece_buffer = vec![0u8; size];
        assert(self@ =~= assigned(old(self)@, index));
    }

    /// Reads on.
    fn read_on(&mut self) -> (action: WorkerAction)
        ensures
            (final(self)@, action@) == reading(old(self)@),
    {
        self.phase = Phase::Reading;
        assert(self@ =~= in_phase(old(self)@, Phase::Reading));
        WorkerAction::Read(
            if self.choked {
                Some(MAX_PENDING_DURATION)
            } else {
                None
            },
        )
    }

    /// Asks for a block where the worker can, and reads on where it cannot.
    fn resume(&mut self) -> (action: WorkerAction)
        requires
            request_safe(old(self)@),
        ensures
            (final(self)@, action@) == resumed(old(self)@),
    {
        if !self.choked && count_unanswered(&self.pending_requests) < MAX_WORKER_REQUESTS {
            if let Some(index) = self.next_piece {
                if let Some(begin) = self.next_block(self.piece_size) {
                    let message: Vec<u8> = self.request_block(index, begin, self.piece_size);
                    self.phase = Phase::BlockOut(begin);
                    assert(self@ =~= in_phase(old(self)@, Phase::BlockOut(begin)));
                    return WorkerAction::SendRequest(message);
                }
            }
        }
        self.read_on()
    }

    /// Checks whether the entire piece is here: whether every block asked for is, and together
    /// they are as long as the piece.
    pub fn received_all_blocks(&self, piece_size: usize) -> (r: bool)
        ensures
            r == all_received(self@.pending, piece_size as int),
    {
        crate::blocks::received_all_blocks(&self.pending_requests, piece_size)
    }

    /// Checks the digest of a piece.
    pub fn verify_piece(&self, index: u32, piece_buffer: &Vec<u8>) -> (r: bool)
        requires
            has_digest(self@.torrent.pieces, index as int),
        ensures
            r == (sha1_of(piece_buffer@) == piece_digest(self@.torrent.pieces, index as int)),
    {
        crate::blocks::verify_piece(&self.torrent.pieces, index, piece_buffer)
    }

    /// The message that asks for a block.
    pub fn request_block(&self, index: usize, begin: usize, piece_size: usize) -> (r: Vec<u8>)
        requires
            (begin as u32) <= (piece_size as u32),
        ensures
            r@ == block_request(index, begin, piece_size),
    {
        create_block_request(index, begin, piece_size)
    }

    /// The offset of the next block to ask for.
    pub fn next_block(&self, piece_size: usize) -> (r: Option<usize>)
        ensures
            r matches Some(begin) ==> first_missing(self@.pending, piece_size as int, 0) == Some(
                begin as int,
            ),
            r is None ==> first_missing(self@.pending, piece_size as int, 0) is None,
    {
        match next_missing(&self.pending_requests, piece_size as u64) {
            Some(begin) => {
                proof {
                    lemma_first_missing_below(self@.pending, piece_size as int, 0);
                }
                Some(begin as usize)
            },
            None => None,
        }
    }

    /// Ends the worker and gives its piece back.
    pub fn terminate(&mut self, reason: Reason) -> (action: WorkerAction)
        ensures
            (final(self)@, action@) == terminated(old(self)@, reason),
    {
        self.phase = Phase::Done;
        assert(self@ =~= in_phase(old(self)@, Phase::Done));
        WorkerAction::Terminate(reason, self.next_piece)
    }

    /// Tells the peer which pieces are here, if there are any.
    pub fn send_bitfield(&mut self, local_bitfield: Box<[bool]>) -> (action: WorkerAction)
        ensures
            (final(self)@, action@) == greeted(old(self)@, local_bitfield@),
    {
        let first: Option<usize> = position(&local_bitfield);
        proof {
            assert(local_bitfield@.len() == local_bitfield.len());
            lemma_first_set(local_bitfield@, 0);
            if let Some(index) = first {
                assert(local_bitfield@[index as int]);
            }
        }
        if first.is_none() {
            return self.read_on();
        }
        let message: Vec<u8> = create_bitfield_message(&local_bitfield);
        self.phase = Phase::BitfieldOut;
        assert(self@ =~= in_phase(old(self)@, Phase::BitfieldOut));
        WorkerAction::SendBitfield(message)
    }

    /// Reads a message from the bytes that the peer has sent so far, or says how many to read next.
    pub fn read_peer_message(bytes: &[u8]) -> (r: ReadStep)
        ensures
            r@ == read_message(bytes@),
    {
        crate::wire::read_peer_message(bytes)
    }
}

impl PeerWorker {
    /// Whether the worker can take this event.
    pub fn accepts(&self, event: &WorkerEvent) -> (r: bool)
        ensures
            r == accepts(self@, event@),
    {
        match (self.phase, event) {
            (Phase::Greeting, WorkerEvent::Bitfield(_)) => true,
            (Phase::BitfieldOut, WorkerEvent::Sent(ok)) => *ok,
            (Phase::Reading, WorkerEvent::TimedOut) => self.choked,
            (Phase::Reading, WorkerEvent::Lost) => true,
            (Phase::Reading, WorkerEvent::Message(id, payload)) => self.accepts_message(
                *id,
                payload,
            ),
            (Phase::RequestOut(index), WorkerEvent::Granted(granted)) => if *granted {
                match self.assignment(index) {
                    Some(size) => self.can_request(self.choked, Some(index), size),
                    None => false,
                }
            } else {
                self.can_request(self.choked, self.next_piece, self.piece_size)
            },
            (Phase::FirstPiece, WorkerEvent::Assigned(piece)) => match piece {
                Some(index) => self.assignment(*index).is_some(),
                None => true,
            },
            (Phase::InterestedOut, WorkerEvent::Sent(ok)) => !*ok || self.can_request(
                self.choked,
                self.next_piece,
                self.piece_size,
            ),
            (Phase::PieceOut, WorkerEvent::Sent(ok)) => *ok && self.peer_bitfield.is_some(),
            (Phase::NextPiece(_), WorkerEvent::Assigned(piece)) => match piece {
                Some(index) => match self.assignment(*index) {
                    Some(size) => self.can_request(self.choked, Some(*index), size),
                    None => false,
                },
                None => true,
            },
            (Phase::Resting(_), WorkerEvent::Rested) => true,
            (Phase::Completion, WorkerEvent::Complete(_)) => true,
            (Phase::Pausing, WorkerEvent::Rested) => true,
            (Phase::BlockOut(_), WorkerEvent::Sent(_)) => true,
            _ => false,
        }
    }

    /// The size of a piece that the worker can take up.
    fn assignment(&self, index: usize) -> (r: Option<usize>)
        ensures
            r is Some <==> assignable(self@, index),
            r matches Some(size) ==> size == size_of_piece(self@, index),
    {
        if self.torrent.pieces.len() < 20 {
            return None;
        }
        let last: usize = self.torrent.pieces.len() / 20 - 1;
        let piece_len: usize = self.torrent.piece_length as usize;
        let size: usize = if index == last {
            let total: usize = match self.torrent.length {
                Some(length) => length as usize,
                None => 0,
            };
            match piece_len.checked_mul(last) {
                Some(before) => if before <= total {
                    total - before
                } else {
                    return None;
                },
                None => {
                    return None;
                },
            }
        } else {
            piece_len
        };
        if size <= isize::MAX as usize {
            Some(size)
        } else {
            None
        }
    }

    /// Whether the request that follows can be written, for a worker that has this piece to
    /// download.
    fn can_request(&self, choked: bool, next_piece: Option<usize>, piece_size: usize) -> (r: bool)
        ensures
            r == request_safe(WorkerView { choked, next_piece, piece_size, ..self@ }),
    {
        if choked || next_piece.is_none() || count_unanswered(&self.pending_requests)
            >= MAX_WORKER_REQUESTS {
            return true;
        }
        match self.next_block(piece_size) {
            Some(begin) => (begin as u32) <= (piece_size as u32),
            None => true,
        }
    }

    fn accepts_message(&self, id: u8, payload: &Vec<u8>) -> (r: bool)
        ensures
            r == accepts_message(self@, id, payload@),
    {
        if id == 0 {
            true
        } else if id == 1 {
            self.can_request(false, self.next_piece, self.piece_size)
        } else if id == 4 {
            payload.len() >= 4 && (self.next_piece.is_none() || self.can_request(
                self.choked,
                self.next_piece,
                self.piece_size,
            ))
        } else if id == 5 {
            payload.len() <= isize::MAX as usize / 8
        } else if id == 7 {
            self.accepts_block(payload)
        } else {
            self.can_request(self.choked, self.next_piece, self.piece_size)
        }
    }

    fn wanted_index(&self) -> (r: u32)
        ensures
            r == wanted_index(self@),
    {
        match self.next_piece {
            Some(index) => index as u32,
            None => u32::MAX,
        }
    }

    fn accepts_block(&self, payload: &Vec<u8>) -> (r: bool)
        ensures
            r == accepts_block(self@, payload@),
    {
        broadcast use vstd::std_specs::hash::group_hash_axioms;

        if payload.len() < 4 {
            return false;
        }
        if read_be32(payload.as_slice(), 0) != self.wanted_index() {
            return true;
        }
        if payload.len() < 8 {
            return false;
        }
        let begin: u32 = read_be32(payload.as_slice(), 4);
        if begin as usize > usize::MAX - payload.len() || begin as usize + payload.len() - 8
            > self.piece_buffer.len() {
            return false;
        }
        let mut pending: HashMap<u32, bool> = self.pending_requests.clone();
        pending.insert(begin, true);
        if !crate::blocks::received_all_blocks(&pending, self.piece_size) {
            return true;
        }
        match self.next_piece {
            Some(index) => (index as u32) as u64 * 20 + 20 <= self.torrent.pieces.len() as u64,
            None => false,
        }
    }

    /// Takes what has happened, and tells what to do next.
    pub fn step(&mut self, event: WorkerEvent) -> (action: WorkerAction)
        requires
            sound(old(self)@),
            accepts(old(self)@, event@),
        ensures
            (final(self)@, action@) == step_of(old(self)@, event@),
            sound(final(self)@),
    {
        broadcast use vstd::std_specs::hash::group_hash_axioms;

        proof {
            law_step_keeps_sound(self@, event@);
        }
        match event {
            WorkerEvent::Bitfield(bits) => self.send_bitfield(bits),
            WorkerEvent::Sent(ok) => self.after_send(ok),
            WorkerEvent::TimedOut => self.terminate(Reason::TimedOut),
            WorkerEvent::Lost => self.terminate(Reason::ConnectionLost),
            WorkerEvent::Message(id, payload) => self.take_message(id, payload),
            WorkerEvent::Granted(granted) => self.take_leave(granted),
            WorkerEvent::Assigned(piece) => self.take_assignment(piece),
            WorkerEvent::Rested => self.after_rest(),
            WorkerEvent::Complete(complete) => if complete {
                self.phase = Phase::Done;
                assert(self@ =~= in_phase(old(self)@, Phase::Done));
                WorkerAction::Finish
            } else {
                self.phase = Phase::Pausing;
                assert(self@ =~= in_phase(old(self)@, Phase::Pausing));
                WorkerAction::Rest(RETRY_REST)
            },
        }
    }

    fn after_send(&mut self, ok: bool) -> (action: WorkerAction)
        requires
            sound(old(self)@),
            accepts(old(self)@, EventView::Sent(ok)),
        ensures
            (final(self)@, action@) == step_of(old(self)@, EventView::Sent(ok)),
    {
        broadcast use vstd::std_specs::hash::group_hash_axioms;

        match self.phase {
            Phase::InterestedOut => if ok {
                self.resume()
            } else {
                self.phase = Phase::Done;
                assert(self@ =~= in_phase(old(self)@, Phase::Done));
                WorkerAction::Abort
            },
            Phase::PieceOut => {
                self.pending_requests.clear();
                self.next_piece = None;
                self.ask_piece(0)
            },
            Phase::BlockOut(begin) => if ok {
                self.pending_requests.insert(begin as u32, false);
                self.read_on()
            } else {
                self.terminate(Reason::RequestFailed)
            },
            _ => self.read_on(),
        }
    }

    /// Takes up the piece that was asked for, if there is leave to.
    fn take_leave(&mut self, granted: bool) -> (action: WorkerAction)
        requires
            accepts(old(self)@, EventView::Granted(granted)),
        ensures
            (final(self)@, action@) == step_of(old(self)@, EventView::Granted(granted)),
    {
        if granted {
            if let Phase::RequestOut(index) = self.phase {
                self.assign(index);
            }
        }
        self.resume()
    }

    /// Tells the peer that the client is interested.
    fn send_interested(&mut self) -> (action: WorkerAction)
        ensures
            (final(self)@, action@) == interested(old(self)@),
    {
        self.phase = Phase::InterestedOut;
        assert(self@ =~= in_phase(old(self)@, Phase::InterestedOut));
        let message: Vec<u8> = vec![0, 0, 0, 1, 2];
        assert(message@ =~= framed(2, Seq::empty()));
        WorkerAction::SendInterested(message)
    }

    /// Notes that the peer has this piece too.
    fn note_have(&mut self, index: usize)
        ensures
            final(self)@ == with_have(old(self)@, index),
    {
        if let Some(bits) = self.peer_bitfield.take() {
            let mut bits: Box<[bool]> = bits;
            if index < bits.len() {
                bits[index] = true;
            }
            self.peer_bitfield = Some(bits);
        }
        assert(self@.peer_bitfield =~= with_have(old(self)@, index).peer_bitfield);
        assert(self@ =~= with_have(old(self)@, index));
    }

    /// Asks for a piece that the peer has, after so many attempts in vain.
    fn ask_piece(&mut self, attempts: u32) -> (action: WorkerAction)
        requires
            old(self)@.peer_bitfield is Some,
        ensures
            final(self)@ == in_phase(old(self)@, Phase::NextPiece(attempts)),
            action@ == ActionView::AskPiece(old(self)@.peer_bitfield->0),
    {
        self.phase = Phase::NextPiece(attempts);
        assert(self@ =~= in_phase(old(self)@, Phase::NextPiece(attempts)));
        match &self.peer_bitfield {
            Some(bits) => WorkerAction::AskPiece(copy_bits(bits)),
            None => WorkerAction::Abort,
        }
    }

    fn take_assignment(&mut self, piece: Option<usize>) -> (action: WorkerAction)
        requires
            accepts(old(self)@, EventView::Assigned(piece)),
        ensures
            (final(self)@, action@) == step_of(old(self)@, EventView::Assigned(piece)),
    {
        match (self.phase, piece) {
            (Phase::FirstPiece, Some(index)) => {
                self.assign(index);
                self.send_interested()
            },
            (Phase::NextPiece(_), Some(index)) => {
                self.assign(index);
                self.resume()
            },
            (Phase::NextPiece(attempts), None) => {
                self.phase = Phase::Resting(attempts);
                assert(self@ =~= in_phase(old(self)@, Phase::Resting(attempts)));
                WorkerAction::Rest(ATTEMPT_REST)
            },
            _ => self.read_on(),
        }
    }

    fn after_rest(&mut self) -> (action: WorkerAction)
        requires
            sound(old(self)@),
            accepts(old(self)@, EventView::Rested),
        ensures
            (final(self)@, action@) == step_of(old(self)@, EventView::Rested),
    {
        match self.phase {
            Phase::Resting(attempts) => if attempts < PIECE_ATTEMPTS - 1 {
                self.ask_piece(attempts + 1)
            } else {
                self.phase = Phase::Completion;
                assert(self@ =~= in_phase(old(self)@, Phase::Completion));
                WorkerAction::AskComplete
            },
            _ => self.read_on(),
        }
    }

    fn take_message(&mut self, id: u8, payload: Vec<u8>) -> (action: WorkerAction)
        requires
            old(self)@.phase is Reading,
            accepts_message(old(self)@, id, payload@),
        ensures
            (final(self)@, action@) == on_message(old(self)@, id, payload@),
    {
        if id == 0 {
            self.choked = true;
            assert(self@ =~= WorkerView { choked: true, ..old(self)@ });
            self.resume()
        } else if id == 1 {
            self.choked = false;
            assert(self@ =~= WorkerView { choked: false, ..old(self)@ });
            self.resume()
        } else if id == 4 {
            let index: usize = read_be32(payload.as_slice(), 0) as usize;
            self.note_have(index);
            if self.next_piece.is_none() {
                self.phase = Phase::RequestOut(index);
                assert(self@ =~= in_phase(with_have(old(self)@, index), Phase::RequestOut(index)));
                WorkerAction::RequestPiece(index)
            } else {
                self.resume()
            }
        } else if id == 5 {
            let bits: Box<[bool]> = vec_u8_to_box_bool(payload);
            let copy: Box<[bool]> = copy_bits(&bits);
            self.peer_bitfield = Some(bits);
            assert(self@.peer_bitfield =~= Some(unpacked(payload@)));
            assert(self@ =~= WorkerView {
                peer_bitfield: Some(unpacked(payload@)),
                ..old(self)@
            });
            if self.next_piece.is_none() {
                self.phase = Phase::FirstPiece;
                assert(self@ =~= on_message(old(self)@, id, payload@).0);
                WorkerAction::AskPiece(copy)
            } else {
                self.send_interested()
            }
        } else if id == 7 {
            self.take_block(payload)
        } else {
            self.resume()
        }
    }

    fn take_block(&mut self, payload: Vec<u8>) -> (action: WorkerAction)
        requires
            accepts_block(old(self)@, payload@),
        ensures
            (final(self)@, action@) == on_block(old(self)@, payload@),
    {
        broadcast use vstd::std_specs::hash::group_hash_axioms;

        if read_be32(payload.as_slice(), 0) != self.wanted_index() {
            return self.read_on();
        }
        let begin: u32 = read_be32(payload.as_slice(), 4);
        self.pending_requests.insert(begin, true);
        write_block(&mut self.piece_buffer, begin as usize, &payload, 8);
        assert(self@ =~= with_block(old(self)@, payload@));
        if !self.received_all_blocks(self.piece_size) {
            return self.read_on();
        }
        if let Some(index) = self.next_piece {
            if self.verify_piece(index as u32, &self.piece_buffer) {
                self.phase = Phase::PieceOut;
                assert(self@ =~= in_phase(with_block(old(self)@, payload@), Phase::PieceOut));
                return WorkerAction::PieceDone(index, self.piece_buffer.clone());
            }
        }
        self.terminate(Reason::VerificationFailed)
    }
}

proof fn lemma_first_missing_below(pending: Map<u32, bool>, piece_size: int, from: int)
    ensures
        first_missing(pending, piece_size, from) matches Some(b) ==> from <= b < piece_size,
    decreases
            if from < piece_size {
                piece_size - from
            } else {
                0
            },
{
    if from < piece_size && pending.contains_key(from as u32) {
        lemma_first_missing_below(pending, piece_size, from + BLOCK_SIZE);
    }
}

/// A piece goes out only if it is the one that the worker downloads and its digest is the one that
/// the torrent holds.
pub proof fn law_only_verified_pieces_go_out(v: WorkerView, e: EventView)
    requires
        sound(v),
        accepts(v, e),
    ensures
        step_of(v, e).1 matches ActionView::PieceDone(index, data) ==> {
            &&& v.next_piece == Some(index)
            &&& has_digest(v.torrent.pieces, (index as u32) as int)
            &&& sha1_of(data) == piece_digest(v.torrent.pieces, (index as u32) as int)
        },
{
}

/// A worker that gives up on its peer gives its piece back, whatever the reason.
pub proof fn law_piece_is_given_back(v: WorkerView, e: EventView)
    requires
        sound(v),
        accepts(v, e),
    ensures
        step_of(v, e).1 matches ActionView::Terminate(_, piece) ==> piece == v.next_piece,
{
}

/// When a piece is whole and its digest is not the one that the torrent holds, the worker gives the
/// piece back and ends.
pub proof fn law_spoilt_piece_is_given_back(v: WorkerView, payload: Seq<u8>)
    requires
        sound(v),
        v.phase == Phase::Reading,
        accepts(v, EventView::Message(7, payload)),
        read32(payload, 0) == wanted_index(v),
        all_received(with_block(v, payload).pending, v.piece_size as int),
        sha1_of(with_block(v, payload).buffer) != piece_digest(
            v.torrent.pieces,
            (v.next_piece->0 as u32) as int,
        ),
    ensures
        step_of(v, EventView::Message(7, payload)).1 == ActionView::Terminate(
            Reason::VerificationFailed,
            v.next_piece,
        ),
        step_of(v, EventView::Message(7, payload)).0.phase == Phase::Done,
{
}

/// A piece that a worker has given back is retried later: once the bitfield actor has been told,
/// it can be asked for, and a peer that has it is given a piece.
pub proof fn law_given_back_piece_is_retried(
    v: WorkerView,
    e: EventView,
    account: bitfield_actor::BitfieldView,
    peer: Seq<bool>,
)
    requires
        sound(v),
        accepts(v, e),
        step_of(v, e).1 is Terminate,
        bitfield_actor::sound(account),
    ensures
        step_of(v, e).1->Terminate_1 matches Some(index) ==> index < account.bitfield.len() ==> {
            let after = bitfield_actor::account_after(
                account,
                bitfield_actor::MsgView::PieceFailed(Some(index)),
            );
            &&& after.requestable[index as int]
            &&& index < peer.len() && peer[index as int] ==> bitfield_actor::piece_for(
                after,
                peer,
            ) is Some
        },
{
    if let Some(index) = step_of(v, e).1->Terminate_1 {
        if index < account.bitfield.len() && index < peer.len() && peer[index as int] {
            bitfield_actor::law_failed_piece_can_be_asked_for(account, index, peer);
        }
    }
}

/// The worker asks for a block only of the piece that it downloads, only while the peer does not
/// refuse, and only while not too many requests are unanswered; the block is the first that has
/// not been asked for, is not empty and lies within the piece.
pub proof fn law_requests_are_allowed(v: WorkerView, e: EventView)
    requires
        sound(v),
        accepts(v, e),
        step_of(v, e).0.piece_size < offsets(),
    ensures
        step_of(v, e).1 matches ActionView::SendRequest(message) ==> {
            let w = step_of(v, e).0;
            &&& !w.choked
            &&& unanswered(w.pending).len() < MAX_WORKER_REQUESTS
            &&& w.next_piece matches Some(index) && first_missing(
                w.pending,
                w.piece_size as int,
                0,
            ) matches Some(begin) && {
                &&& message == request_message(
                    index as u32,
                    begin as u32,
                    block_len(begin, w.piece_size as int) as u32,
                )
                &&& block_start(begin, w.piece_size as int)
                &&& 0 < block_len(begin, w.piece_size as int) <= BLOCK_SIZE
                &&& begin + block_len(begin, w.piece_size as int) <= w.piece_size
            }
        },
{
    let w = step_of(v, e).0;
    law_request_stays_in_the_piece(w.pending, w.piece_size);
    law_next_block_is_the_first_missing(w.pending, w.piece_size as int, 0);
    lemma_first_missing_below(w.pending, w.piece_size as int, 0);
    if let ActionView::SendRequest(message) = step_of(v, e).1 {
        assert(wanted_block(w) is Some);
        assert(wanted_block(w)->0 as usize == wanted_block(w)->0);
    }
}

/// The worker waits without a limit only for a peer that does not refuse requests.
pub proof fn law_choked_worker_does_not_wait_for_ever(v: WorkerView, e: EventView)
    requires
        sound(v),
        accepts(v, e),
    ensures
        step_of(v, e).1 matches ActionView::Read(limit) ==> {
            &&& step_of(v, e).0.phase == Phase::Reading
            &&& limit == if step_of(v, e).0.choked {
                Some(MAX_PENDING_DURATION)
            } else {
                None
            }
        },
{
}

/// The worker takes no event after it has ended, and says so when it ends.
pub proof fn law_worker_says_when_it_ends(v: WorkerView, e: EventView)
    requires
        sound(v),
        accepts(v, e),
    ensures
        !(v.phase is Done),
        step_of(v, e).0.phase is Done <==> (step_of(v, e).1 is Terminate || step_of(v, e).1 is Finish
            || step_of(v, e).1 is Abort),
{
}

/// Whether the worker is on its way to a piece that holds `data`: the blocks asked for are blocks
/// of the piece, and those that have come are where they belong.
pub open spec fn on_the_way(v: WorkerView, data: Seq<u8>) -> bool {
    &&& v.next_piece is Some
    &&& v.piece_size == data.len()
    &&& v.buffer.len() == data.len()
    &&& block_starts(v.pending.dom(), data.len() as int)
    &&& forall|b: u32| #[trigger]
        v.pending.contains_key(b) && v.pending[b] ==> holds_block(v.buffer, data, b as int)
}

/// The payload of a message with a block of a piece that holds `data`.
pub open spec fn block_payload(index: u32, begin: u32, data: Seq<u8>) -> Seq<u8> {
    be32(index) + be32(begin) + data.subrange(
        begin as int,
        begin + block_len(begin as int, data.len() as int),
    )
}

/// A worker with a new piece and no requests under way is on its way to it, whatever it holds.
pub proof fn law_new_piece_is_on_its_way(v: WorkerView, index: usize, data: Seq<u8>)
    requires
        assignable(v, index),
        v.pending == Map::<u32, bool>::empty(),
        data.len() == size_of_piece(v, index),
    ensures
        on_the_way(assigned(v, index), data),
{
}

/// Asking for a block keeps the worker on its way.
pub proof fn law_asking_keeps_on_the_way(v: WorkerView, begin: usize, data: Seq<u8>)
    requires
        on_the_way(v, data),
        data.len() <= offsets(),
        v.phase == Phase::BlockOut(begin),
        wanted_block(v) == Some(begin as int),
    ensures
        on_the_way(step_of(v, EventView::Sent(true)).0, data),
{
    law_next_block_is_the_first_missing(v.pending, data.len() as int, 0);
    assert(begin as u32 == begin);
}

/// A block of the piece is taken and keeps the worker on its way. With the last one the piece goes
/// out as it is, if its digest is the one that the torrent holds; before that the worker reads on.
pub proof fn law_blocks_lead_to_the_piece(v: WorkerView, begin: u32, data: Seq<u8>)
    requires
        sound(v),
        v.phase == Phase::Reading,
        on_the_way(v, data),
        data.len() <= isize::MAX,
        data.len() <= offsets(),
        block_start(begin as int, data.len() as int),
        has_digest(v.torrent.pieces, (v.next_piece->0 as u32) as int),
    ensures
        ({
            let payload = block_payload(v.next_piece->0 as u32, begin, data);
            let (w, action) = step_of(v, EventView::Message(7, payload));
            let whole = every_block_here(w.pending, data.len() as int);
            &&& accepts(v, EventView::Message(7, payload))
            &&& w.pending == v.pending.insert(begin, true)
            &&& on_the_way(w, data)
            &&& !whole ==> action is Read
            &&& whole && sha1_of(data) == piece_digest(v.torrent.pieces, (v.next_piece->0 as u32) as int)
                ==> action == ActionView::PieceDone(v.next_piece->0, data)
        }),
{
    let index = v.next_piece->0 as u32;
    let payload = block_payload(index, begin, data);
    let len = block_len(begin as int, data.len() as int);
    let block = data.subrange(begin as int, begin + len);
    assert(payload.subrange(0, 4) =~= be32(index));
    assert(payload.subrange(4, 8) =~= be32(begin));
    lemma_read32_window(payload, 0, index);
    lemma_read32_window(payload, 4, begin);
    assert(payload.skip(8) =~= block);
    let w = with_block(v, payload);
    law_written_block_is_there(v.buffer, data, begin as int, begin as int);
    assert forall|b: u32| #[trigger] w.pending.contains_key(b) && w.pending[b] implies holds_block(
        w.buffer,
        data,
        b as int,
    ) by {
        if b != begin {
            assert(v.pending.contains_key(b));
            law_written_block_is_there(v.buffer, data, begin as int, b as int);
        }
    }
    law_whole_with_every_block(w.pending, data.len() as int);
    if all_received(w.pending, data.len() as int) {
        assert forall|b: int| block_start(b, data.len() as int) implies #[trigger] holds_block(
            w.buffer,
            data,
            b,
        ) by {
            assert(w.pending.contains_key(b as u32));
        }
        law_blocks_make_the_piece(w.buffer, data);
    }
}

/// The worker takes up a piece that the peer has told of only with leave: without it the worker
/// still has no piece and asks for no block.
pub proof fn law_no_piece_without_leave(v: WorkerView, index: usize)
    requires
        sound(v),
        v.phase == Phase::RequestOut(index),
    ensures
        accepts(v, EventView::Granted(false)),
        step_of(v, EventView::Granted(false)).0.next_piece is None,
        step_of(v, EventView::Granted(false)).1 is Read,
        accepts(v, EventView::Granted(true)) ==> step_of(v, EventView::Granted(true)).0.next_piece
            == Some(index),
{
}

/// A piece that is under way stays under way until it is whole or the worker ends: whatever the
/// peer tells of its pieces, the worker keeps its piece and what is here of it.
pub proof fn law_piece_under_way_is_kept(v: WorkerView, id: u8, payload: Seq<u8>)
    requires
        sound(v),
        v.phase == Phase::Reading,
        accepts(v, EventView::Message(id, payload)),
        v.next_piece is Some,
        id != 7,
    ensures
        ({
            let (w, action) = step_of(v, EventView::Message(id, payload));
            &&& w.next_piece == v.next_piece
            &&& w.piece_size == v.piece_size
            &&& w.buffer == v.buffer
            &&& w.pending == v.pending
            &&& !(action is AskPiece) && !(action is RequestPiece)
        }),
{
}

/// A piece that has gone out is let go: the worker has no piece and no requests under way, and
/// gives nothing back if it ends before it is given the next.
pub proof fn law_finished_piece_is_let_go(v: WorkerView)
    requires
        sound(v),
        v.phase == Phase::PieceOut,
        accepts(v, EventView::Sent(true)),
    ensures
        step_of(v, EventView::Sent(true)).0.next_piece is None,
        step_of(v, EventView::Sent(true)).0.pending == Map::<u32, bool>::empty(),
{
}

/// What a peer tells piece by piece adds up: once it has told of a piece that its bitfield covers,
/// the worker knows that the peer has it, and of the other pieces what it knew before.
pub proof fn law_have_updates_the_peer(v: WorkerView, payload: Seq<u8>, i: int)
    requires
        sound(v),
        v.phase == Phase::Reading,
        accepts(v, EventView::Message(4, payload)),
        v.peer_bitfield matches Some(bits) && 0 <= i < bits.len(),
    ensures
        step_of(v, EventView::Message(4, payload)).0.peer_bitfield matches Some(bits) && bits.len()
            == v.peer_bitfield->0.len() && bits[i] == (i == read32(payload, 0)
            || v.peer_bitfield->0[i]),
{
}

/// The peer is told which pieces are here exactly where there are some.
pub proof fn law_bitfield_goes_out_with_a_piece(v: WorkerView, bits: Seq<bool>)
    requires
        v.phase == Phase::Greeting,
    ensures
        step_of(v, EventView::Bitfield(bits)).1 is SendBitfield <==> bits.contains(true),
        step_of(v, EventView::Bitfield(bits)).1 is SendBitfield || step_of(
            v,
            EventView::Bitfield(bits),
        ).1 is Read,
{
}

/// A new worker has its torrent and no piece; nothing is asked for, the peer has told nothing and
/// refuses requests. It waits to learn which pieces are here.
pub proof fn law_new_worker(torrent: InfoView, bits: Seq<bool>)
    ensures
        ({
            let v = new_worker(torrent);
            &&& v.torrent == torrent
            &&& v.next_piece is None
            &&& v.pending == Map::<u32, bool>::empty()
            &&& v.peer_bitfield is None
            &&& v.choked
            &&& v.piece_size == torrent.piece_length as usize
            &&& v.buffer.len() == v.piece_size
            &&& accepts(v, EventView::Bitfield(bits))
        }),
{
}

/// Whether the worker comes by this piece with this event: it is assigned, or leave is given to
/// download it.
pub open spec fn comes_by(v: WorkerView, e: EventView, index: usize) -> bool {
    ||| v.phase is FirstPiece && e == EventView::Assigned(Some(index))
    ||| v.phase is NextPiece && e == EventView::Assigned(Some(index))
    ||| v.phase == Phase::RequestOut(index) && e == EventView::Granted(true)
}

/// However a worker comes by a piece, it has exactly that piece to download afterwards. Its size is
/// that of a whole piece, or for the last one what the pieces before it leave of the file; and
/// nothing of it is here yet. It keeps all else.
pub proof fn law_assigned_piece_is_taken_up(v: WorkerView, e: EventView, index: usize, i: int)
    requires
        accepts(v, e),
        comes_by(v, e, index),
    ensures
        ({
            let w = step_of(v, e).0;
            let pieces = v.torrent.pieces.len() / 20;
            let whole = v.torrent.piece_length as usize;
            let file = match v.torrent.length {
                Some(length) => length as usize,
                None => 0,
            };
            &&& w.next_piece == Some(index)
            &&& index + 1 != pieces ==> w.piece_size == whole
            &&& index + 1 == pieces ==> whole * (pieces - 1) + w.piece_size == file
            &&& w.buffer.len() == w.piece_size
            &&& 0 <= i < w.buffer.len() ==> w.buffer[i] == 0
            &&& w.pending == v.pending
            &&& w.choked == v.choked
            &&& w.peer_bitfield == v.peer_bitfield
        }),
{
}

/// The piece of a worker changes only when the worker comes by one or the finished one has been
/// handed on; its size only when the worker comes by one; and what is here of it only then and when
/// a block comes.
pub proof fn law_piece_changes_only_by_assignment(v: WorkerView, e: EventView)
    requires
        accepts(v, e),
    ensures
        ({
            let w = step_of(v, e).0;
            let taken = exists|index: usize| comes_by(v, e, index);
            &&& !taken && !(v.phase is PieceOut) ==> w.next_piece == v.next_piece
            &&& !taken ==> w.piece_size == v.piece_size
            &&& !taken && !(e matches EventView::Message(id, _) && id == 7) ==> w.buffer == v.buffer
            &&& v.phase is PieceOut ==> w.next_piece is None
        }),
{
    match (v.phase, e) {
        (Phase::FirstPiece, EventView::Assigned(Some(index))) => {
            assert(comes_by(v, e, index));
        },
        (Phase::NextPiece(_), EventView::Assigned(Some(index))) => {
            assert(comes_by(v, e, index));
        },
        (Phase::RequestOut(index), EventView::Granted(true)) => {
            assert(comes_by(v, e, index));
        },
        _ => {},
    }
}

/// Only the peer decides whether it refuses requests: it does from a choke on, no longer from an
/// unchoke on, and otherwise as before.
pub proof fn law_peer_decides_whether_it_refuses(v: WorkerView, e: EventView)
    requires
        accepts(v, e),
    ensures
        step_of(v, e).0.choked == match e {
            EventView::Message(id, _) => if id == 0 {
                true
            } else if id == 1 {
                false
            } else {
                v.choked
            },
            _ => v.choked,
        },
        step_of(v, e).0.torrent == v.torrent,
{
}

/// Only the peer tells which pieces it has, by a bitfield message, or piece by piece once it has sent
/// one.
pub proof fn law_peer_tells_its_pieces(v: WorkerView, e: EventView)
    requires
        accepts(v, e),
    ensures
        !(e matches EventView::Message(id, _) && (id == 4 || id == 5)) ==> step_of(
            v,
            e,
        ).0.peer_bitfield == v.peer_bitfield,
        v.peer_bitfield is None && !(e matches EventView::Message(id, _) && id == 5) ==> step_of(
            v,
            e,
        ).0.peer_bitfield is None,
{
}

/// The blocks under way change by three things: a request that has gone out, which is unanswered
/// then; a block of the piece that has come, which is here then; and a finished piece that has been
/// handed on, which leaves none.
pub proof fn law_blocks_under_way(v: WorkerView, e: EventView)
    requires
        accepts(v, e),
    ensures
        ({
            let w = step_of(v, e).0;
            match (v.phase, e) {
                (Phase::BlockOut(begin), EventView::Sent(ok)) => w.pending == if ok {
                    v.pending.insert(begin as u32, false)
                } else {
                    v.pending
                },
                (Phase::PieceOut, _) => w.pending == Map::<u32, bool>::empty(),
                (Phase::Reading, EventView::Message(id, payload)) => id != 7 ==> w.pending
                    == v.pending,
                _ => w.pending == v.pending,
            }
        }),
{
}

/// Whether the block at `c` of a piece of this size has not been asked for.
pub open spec fn is_missing(pending: Map<u32, bool>, piece_size: int, c: int) -> bool {
    0 <= c < piece_size && c % 16384 == 0 && !pending.contains_key(c as u32)
}

/// Whether the worker goes on with its piece after this event: the peer has said something that is
/// no block and no list of its pieces, or the worker has come by a piece and need not tell its
/// interest, or has told it.
pub open spec fn goes_on(v: WorkerView, e: EventView) -> bool {
    match (v.phase, e) {
        (Phase::Reading, EventView::Message(id, _)) => id != 5 && id != 7 && (id != 4
            || v.next_piece is Some),
        (Phase::RequestOut(_), EventView::Granted(_)) => true,
        (Phase::InterestedOut, EventView::Sent(ok)) => ok,
        (Phase::NextPiece(_), EventView::Assigned(piece)) => piece is Some,
        _ => false,
    }
}

/// A worker that goes on asks for a block exactly where the peer does not refuse, the worker has a
/// piece of which a block was not asked for, and fewer than five requests are unanswered. Else it
/// reads on. After no other event does it ask for a block.
pub proof fn law_worker_asks_whenever_it_can(v: WorkerView, e: EventView)
    requires
        accepts(v, e),
    ensures
        ({
            let (w, action) = step_of(v, e);
            let free = !w.choked && w.next_piece is Some && unanswered(w.pending).len() < 5;
            let missing = exists|c: int| is_missing(w.pending, w.piece_size as int, c);
            &&& goes_on(v, e) && free && missing ==> action is SendRequest && w.phase is BlockOut
            &&& goes_on(v, e) && !(free && missing) ==> action is Read && w.phase is Reading
            &&& action is SendRequest ==> goes_on(v, e)
        }),
{
    let w = step_of(v, e).0;
    let size = w.piece_size as int;
    if goes_on(v, e) {
        lemma_first_missing_below(w.pending, size, 0);
        if let Some(b) = first_missing(w.pending, size, 0) {
            law_next_block_of_any_piece(w.pending, size, 0, 0);
            assert(is_missing(w.pending, size, b));
        } else {
            assert forall|c: int| !is_missing(w.pending, size, c) by {
                if 0 <= c < size && c % 16384 == 0 {
                    law_next_block_of_any_piece(w.pending, size, 0, c);
                }
            }
        }
    }
}

proof fn lemma_asking(w: WorkerView, c: int)
    requires
        request_safe(w),
    ensures
        resumed(w).1 matches ActionView::SendRequest(message) ==> {
            &&& message.len() == 17
            &&& w.next_piece matches Some(index) && number(message.subrange(5, 9)) == index as u32
            &&& resumed(w).0.phase matches Phase::BlockOut(begin) && {
                &&& number(message.subrange(9, 13)) == begin as u32
                &&& is_missing(w.pending, w.piece_size as int, begin as int)
                &&& 0 <= c < begin && c % 16384 == 0 ==> w.pending.contains_key(c as u32)
                &&& w.piece_size <= 0xffff_ffff ==> {
                    let size = number(message.subrange(13, 17)) as int;
                    &&& number(message.subrange(9, 13)) == begin
                    &&& 0 < size <= 16384
                    &&& size == 16384 || begin + size == w.piece_size
                    &&& begin + size <= w.piece_size
                }
            }
        },
{
    if let Some(b) = wanted_block(w) {
        let size = w.piece_size as int;
        lemma_first_missing_below(w.pending, size, 0);
        law_next_block_of_any_piece(w.pending, size, 0, 0);
        if 0 <= c < b && c % 16384 == 0 {
            law_next_block_of_any_piece(w.pending, size, 0, c);
        }
        law_block_request_is_cut(w.next_piece->0, b as usize, w.piece_size);
        assert(b as usize == b);
    }
}

/// A worker asks for a block only by going on with its piece.
proof fn lemma_request_by_going_on(v: WorkerView, e: EventView)
    requires
        accepts(v, e),
        step_of(v, e).1 is SendRequest,
    ensures
        step_of(v, e) == resumed(step_of(v, e).0),
        request_safe(step_of(v, e).0),
{
}

/// A request names the piece that the worker has, and the offset that the worker then waits for to
/// have gone out. That is where the first block begins that was not asked for; the request asks for
/// 16384 bytes of it, or for what is left of the piece.
pub proof fn law_request_names_the_piece(v: WorkerView, e: EventView, c: int)
    requires
        accepts(v, e),
    ensures
        step_of(v, e).1 matches ActionView::SendRequest(message) ==> {
            let w = step_of(v, e).0;
            &&& message.len() == 17
            &&& w.next_piece matches Some(index) && number(message.subrange(5, 9)) == index as u32
            &&& w.phase matches Phase::BlockOut(begin) && {
                &&& number(message.subrange(9, 13)) == begin as u32
                &&& is_missing(w.pending, w.piece_size as int, begin as int)
                &&& 0 <= c < begin && c % 16384 == 0 ==> w.pending.contains_key(c as u32)
                &&& w.piece_size <= 0xffff_ffff ==> {
                    let size = number(message.subrange(13, 17)) as int;
                    &&& number(message.subrange(9, 13)) == begin
                    &&& 0 < size <= 16384
                    &&& size == 16384 || begin + size == w.piece_size
                    &&& begin + size <= w.piece_size
                }
            }
        },
{
    if step_of(v, e).1 is SendRequest {
        lemma_request_by_going_on(v, e);
        lemma_asking(step_of(v, e).0, c);
    }
}

/// The worker after these events.
pub open spec fn after_events(v: WorkerView, events: Seq<EventView>) -> WorkerView
    decreases events.len(),
{
    if events.len() == 0 {
        v
    } else {
        step_of(after_events(v, events.drop_last()), events.last()).0
    }
}

/// Whether the worker takes each of these events in turn, and is not told in between that a finished
/// piece was handed on.
pub open spec fn under_way(v: WorkerView, events: Seq<EventView>) -> bool
    decreases events.len(),
{
    events.len() == 0 || {
        let before = after_events(v, events.drop_last());
        &&& under_way(v, events.drop_last())
        &&& accepts(before, events.last())
        &&& !(before.phase is PieceOut)
    }
}

/// Until the piece that a worker has is finished and handed on, the worker has that piece, and every
/// request that it makes names it, whatever happens.
pub proof fn law_every_request_names_the_piece(
    v: WorkerView,
    index: usize,
    events: Seq<EventView>,
    e: EventView,
)
    requires
        sound(v),
        v.next_piece == Some(index),
        under_way(v, events),
        accepts(after_events(v, events), e),
        !(after_events(v, events).phase is PieceOut),
    ensures
        after_events(v, events).next_piece == Some(index),
        step_of(after_events(v, events), e).0.next_piece == Some(index),
        step_of(after_events(v, events), e).1 matches ActionView::SendRequest(message) ==> number(
            message.subrange(5, 9),
        ) == index as u32,
{
    lemma_piece_is_kept(v, index, events);
    law_request_names_the_piece(after_events(v, events), e, 0);
}

proof fn lemma_piece_is_kept(v: WorkerView, index: usize, events: Seq<EventView>)
    requires
        sound(v),
        v.next_piece == Some(index),
        under_way(v, events),
    ensures
        sound(after_events(v, events)),
        after_events(v, events).next_piece == Some(index),
    decreases events.len(),
{
    if events.len() > 0 {
        lemma_piece_is_kept(v, index, events.drop_last());
        law_step_keeps_sound(after_events(v, events.drop_last()), events.last());
    }
}

/// A peer that has told of a piece by a have message: a worker without a piece asks for leave to
/// download just that one, and waits for the answer.
pub proof fn law_leave_is_asked_for_the_piece(v: WorkerView, payload: Seq<u8>)
    requires
        v.phase is Reading,
        v.next_piece is None,
        payload.len() >= 4,
    ensures
        accepts(v, EventView::Message(4, payload)),
        ({
            let (w, action) = step_of(v, EventView::Message(4, payload));
            action matches ActionView::RequestPiece(index) && {
                &&& index == number(payload.subrange(0, 4))
                &&& w.phase == Phase::RequestOut(index)
                &&& w.next_piece is None
            }
        }),
{
    law_read_number_is_that_of_the_bytes(payload, 0);
}

/// A bitfield message tells of each piece whether the peer has it, eight to a byte, the heaviest bit
/// first. A worker without a piece asks for one of these; one that has a piece keeps it and tells its
/// interest.
pub proof fn law_bitfield_tells_the_pieces(v: WorkerView, payload: Seq<u8>, i: int)
    requires
        v.phase is Reading,
        accepts(v, EventView::Message(5, payload)),
    ensures
        ({
            let (w, action) = step_of(v, EventView::Message(5, payload));
            &&& w.peer_bitfield matches Some(bits) && {
                &&& bits.len() == 8 * payload.len()
                &&& 0 <= i < bits.len() ==> bits[i] == set_bit(payload[i / 8], i % 8)
                &&& v.next_piece is None ==> action == ActionView::AskPiece(bits)
            }
            &&& v.next_piece is None ==> w.phase is FirstPiece
            &&& v.next_piece is Some ==> action is SendInterested
        }),
{
    if 0 <= i < 8 * payload.len() {
        law_unpacked_bits(payload, i);
    }
}

/// The message that the client is interested has five bytes: a length of one and the id two. It goes
/// out when the worker has come by its first piece, or has one and is told the pieces of the peer;
/// the worker then waits for it to have gone out.
pub proof fn law_interest_is_told(v: WorkerView, e: EventView)
    requires
        accepts(v, e),
    ensures
        step_of(v, e).1 matches ActionView::SendInterested(message) ==> message == seq![
            0u8,
            0,
            0,
            1,
            2,
        ] && step_of(v, e).0.phase is InterestedOut,
        step_of(v, e).1 is SendInterested <==> (v.phase is FirstPiece && e != EventView::Assigned(
            None,
        )) || (v.next_piece is Some && v.phase is Reading && (e matches EventView::Message(id, _)
            && id == 5)),
{
    assert(framed(2, Seq::empty()) =~= seq![0u8, 0, 0, 1, 2]);
}

/// Whether a block message names the piece that the worker downloads.
pub open spec fn names_the_piece(v: WorkerView, payload: Seq<u8>) -> bool {
    number(payload.subrange(0, 4)) == match v.next_piece {
        Some(index) => index as u32 as int,
        None => 0xffff_ffff,
    }
}

/// A block of another piece is passed over: the worker reads on as before.
pub proof fn law_other_blocks_are_passed_over(v: WorkerView, payload: Seq<u8>)
    requires
        v.phase is Reading,
        payload.len() >= 4,
        !names_the_piece(v, payload),
    ensures
        accepts(v, EventView::Message(7, payload)),
        step_of(v, EventView::Message(7, payload)).0 == v,
        step_of(v, EventView::Message(7, payload)).1 is Read,
{
    law_read_number_is_that_of_the_bytes(payload, 0);
    assert(in_phase(v, Phase::Reading) =~= v);
}

/// A block of the piece is written at the offset that it names, and counts as here. As long as
/// blocks are missing the worker reads on. With the last one the piece goes out whole, if its digest
/// is the one that the torrent holds for it; and if not, the worker gives it back and ends.
pub proof fn law_block_is_put_in_its_place(v: WorkerView, payload: Seq<u8>, i: int)
    requires
        v.phase is Reading,
        accepts(v, EventView::Message(7, payload)),
        names_the_piece(v, payload),
    ensures
        ({
            let (w, action) = step_of(v, EventView::Message(7, payload));
            let begin = number(payload.subrange(4, 8)) as int;
            let whole = all_received(w.pending, v.piece_size as int);
            let index = v.next_piece->0;
            let right = sha1_of(w.buffer) == v.torrent.pieces.subrange(
                20 * (index as u32),
                20 * (index as u32) + 20,
            );
            &&& w.pending == v.pending.insert(begin as u32, true)
            &&& w.buffer.len() == v.buffer.len()
            &&& 0 <= i < v.buffer.len() ==> w.buffer[i] == if begin <= i < begin + payload.len() - 8 {
                payload[8 + (i - begin)]
            } else {
                v.buffer[i]
            }
            &&& w.next_piece == v.next_piece
            &&& !whole ==> action is Read && w.phase is Reading
            &&& whole && right ==> action == ActionView::PieceDone(index, w.buffer) && w.phase
                is PieceOut
            &&& whole && !right ==> action == ActionView::Terminate(
                Reason::VerificationFailed,
                Some(index),
            ) && w.phase is Done
        }),
{
    law_read_number_is_that_of_the_bytes(payload, 0);
    law_read_number_is_that_of_the_bytes(payload, 4);
    if 0 <= i < v.buffer.len() {
        law_overwritten_bytes(v.buffer, read32(payload, 4) as int, payload.skip(8), i);
    } else {
        assert(with_block(v, payload).buffer.len() == v.buffer.len());
    }
}

/// Once a finished piece has been handed on, the worker asks for another of the pieces of its peer,
/// up to five times, with rests of half a second. Then it asks whether the download is complete. If
/// so, it ends; if not, it rests for a second and reads on.
pub proof fn law_worker_goes_for_the_next_piece(v: WorkerView, e: EventView)
    requires
        sound(v),
        accepts(v, e),
    ensures
        ({
            let (w, action) = step_of(v, e);
            match (v.phase, e) {
                (Phase::PieceOut, _) => action == ActionView::AskPiece(v.peer_bitfield->0) && w.phase
                    == Phase::NextPiece(0),
                (Phase::NextPiece(tries), EventView::Assigned(None)) => action == ActionView::Rest(500)
                    && w.phase == Phase::Resting(tries),
                (Phase::Resting(tries), _) => if tries < 4 {
                    action == ActionView::AskPiece(v.peer_bitfield->0) && w.phase
                        == Phase::NextPiece((tries + 1) as u32)
                } else {
                    action is AskComplete && w.phase is Completion
                },
                (Phase::Completion, EventView::Complete(complete)) => if complete {
                    action is Finish && w.phase is Done
                } else {
                    action == ActionView::Rest(1000) && w.phase is Pausing
                },
                (Phase::Pausing, _) => action is Read && w.phase is Reading,
                (Phase::FirstPiece, EventView::Assigned(None)) => action is Read && w.phase is Reading,
                _ => !(action is AskComplete) && !(action is Rest) && !(action is Finish),
            }
        }),
{
}

/// A worker gives up on its peer exactly when it waits too long, loses the connection, cannot make a
/// request, or finds a piece spoilt; it says why, gives its piece back, and ends. Where it cannot
/// tell its interest, it ends with that error.
pub proof fn law_worker_says_why_it_gives_up(v: WorkerView, e: EventView)
    requires
        sound(v),
        accepts(v, e),
    ensures
        ({
            let (w, action) = step_of(v, e);
            &&& e is TimedOut ==> action == ActionView::Terminate(Reason::TimedOut, v.next_piece)
            &&& e is Lost ==> action == ActionView::Terminate(Reason::ConnectionLost, v.next_piece)
            &&& v.phase is BlockOut && e == EventView::Sent(false) ==> action
                == ActionView::Terminate(Reason::RequestFailed, v.next_piece)
            &&& v.phase is BlockOut && e == EventView::Sent(true) ==> action is Read && w.phase is Reading
            &&& action is Terminate ==> e is TimedOut || e is Lost || (v.phase is BlockOut && e
                == EventView::Sent(false)) || (e matches EventView::Message(id, _) && id == 7)
            &&& action is Abort <==> v.phase is InterestedOut && e == EventView::Sent(false)
        }),
{
}

/// The worker starts by telling the peer which pieces are here, in a bitfield message of them, where
/// there are any. Then, or at once where there are none, it reads on.
pub proof fn law_worker_greets_with_its_pieces(v: WorkerView, bits: Seq<bool>)
    ensures
        bits.contains(true) ==> greeted(v, bits).1 == ActionView::SendBitfield(
            bitfield_message(bits),
        ) && greeted(v, bits).0.phase is BitfieldOut,
        !bits.contains(true) ==> greeted(v, bits).1 is Read && greeted(v, bits).0.phase is Reading,
        v.phase is Greeting ==> step_of(v, EventView::Bitfield(bits)) == greeted(v, bits),
        v.phase is BitfieldOut ==> step_of(v, EventView::Sent(true)).1 is Read && step_of(
            v,
            EventView::Sent(true),
        ).0.phase is Reading,
{
}

/// A worker whose peer refuses requests waits two minutes for a message, and one whose peer does not
/// waits without a limit.
pub proof fn law_worker_waits_two_minutes(v: WorkerView, e: EventView)
    requires
        accepts(v, e),
    ensures
        step_of(v, e).1 matches ActionView::Read(limit) ==> limit == if step_of(v, e).0.choked {
            Some(120u64)
        } else {
            None
        },
{
}

/// Whether a piece has so few bytes that each of them has an offset of its own in a request.
pub open spec fn small(v: WorkerView) -> bool {
    v.piece_size <= 0xffff_ffff
}

/// What a worker takes while it reads: every message that is long enough for what its id says. A
/// have message has four bytes at least. A block message that names the piece has eight at least,
/// its block lies within the piece, and the torrent holds the digest when it is the last one. It can
/// lose the connection at any time, and wait too long only for a peer that refuses requests.
pub proof fn law_what_a_reading_worker_takes(v: WorkerView, id: u8, payload: Seq<u8>)
    requires
        v.phase is Reading,
        small(v),
    ensures
        accepts(v, EventView::Lost),
        accepts(v, EventView::TimedOut) <==> v.choked,
        id != 4 && id != 5 && id != 7 ==> accepts(v, EventView::Message(id, payload)),
        id == 4 ==> (accepts(v, EventView::Message(id, payload)) <==> payload.len() >= 4),
        id == 5 ==> (accepts(v, EventView::Message(id, payload)) <==> 8 * payload.len()
            <= isize::MAX),
        id == 7 && payload.len() < 4 ==> !accepts(v, EventView::Message(id, payload)),
        id == 7 && payload.len() >= 4 && names_the_piece(v, payload) ==> (accepts(
            v,
            EventView::Message(id, payload),
        ) <==> {
            let begin = number(payload.subrange(4, 8)) as int;
            &&& payload.len() >= 8
            &&& begin + payload.len() <= usize::MAX
            &&& begin + payload.len() - 8 <= v.buffer.len()
            &&& all_received(v.pending.insert(begin as u32, true), v.piece_size as int) ==> {
                &&& v.next_piece matches Some(index)
                &&& 20 * (index as u32) + 20 <= v.torrent.pieces.len()
            }
        }),
{
    lemma_small_requests(v);
    lemma_small_requests(WorkerView { choked: false, ..v });
    if payload.len() >= 4 {
        law_read_number_is_that_of_the_bytes(payload, 0);
    }
    if payload.len() >= 8 {
        law_read_number_is_that_of_the_bytes(payload, 4);
    }
}

proof fn lemma_small_requests(v: WorkerView)
    requires
        small(v),
    ensures
        request_safe(v),
{
    lemma_first_missing_below(v.pending, v.piece_size as int, 0);
}

/// What a worker takes otherwise: what it waits for. It takes up a piece wherever the torrent has
/// pieces, the pieces before the last one do not exceed the file, and the piece fits into memory.
pub proof fn law_what_a_worker_takes(v: WorkerView, index: usize, ok: bool)
    requires
        small(v),
    ensures
        ({
            let pieces = v.torrent.pieces.len() / 20;
            let whole = v.torrent.piece_length as usize;
            let file = match v.torrent.length {
                Some(length) => length as usize,
                None => 0,
            };
            let size = if index + 1 == pieces {
                file - whole * (pieces - 1)
            } else {
                whole as int
            };
            let fine = pieces > 0 && 0 <= size <= isize::MAX && size <= 0xffff_ffff;
            &&& fine && v.phase is FirstPiece ==> accepts(v, EventView::Assigned(Some(index)))
            &&& fine && v.phase is NextPiece ==> accepts(v, EventView::Assigned(Some(index)))
            &&& fine && v.phase == Phase::RequestOut(index) ==> accepts(v, EventView::Granted(true))
        }),
        v.phase is FirstPiece || v.phase is NextPiece ==> accepts(v, EventView::Assigned(None)),
        v.phase is RequestOut ==> accepts(v, EventView::Granted(false)),
        v.phase is BitfieldOut ==> accepts(v, EventView::Sent(true)),
        v.phase is InterestedOut || v.phase is BlockOut ==> accepts(v, EventView::Sent(ok)),
        v.phase is PieceOut && v.peer_bitfield is Some ==> accepts(v, EventView::Sent(true)),
        v.phase is Resting || v.phase is Pausing ==> accepts(v, EventView::Rested),
        v.phase is Completion ==> accepts(v, EventView::Complete(ok)),
{
    lemma_small_requests(v);
    if assignable(v, index) && size_of_piece(v, index) <= 0xffff_ffff {
        lemma_small_requests(assigned(v, index));
    }
    let pieces = v.torrent.pieces.len() / 20;
    let whole = v.torrent.piece_length as usize;
    if pieces > 0 {
        assert(v.torrent.pieces.len() >= 20);
        assert(whole * (pieces - 1) == (v.torrent.piece_length as usize) * last_piece(
            v.torrent.pieces,
        ));
    }
}

/// The plain values of events tell what these hold: the same bits and bytes in their order, the same
/// piece, the same answer.
pub proof fn law_plain_events(event: WorkerEvent)
    ensures
        event matches WorkerEvent::Bitfield(bits) ==> event@ == EventView::Bitfield(bits@),
        event matches WorkerEvent::Sent(ok) ==> event@ == EventView::Sent(ok),
        event is TimedOut <==> event@ is TimedOut,
        event is Lost <==> event@ is Lost,
        event matches WorkerEvent::Message(id, payload) ==> event@ == EventView::Message(
            id,
            payload@,
        ),
        event matches WorkerEvent::Granted(granted) ==> event@ == EventView::Granted(granted),
        event matches WorkerEvent::Assigned(piece) ==> event@ == EventView::Assigned(piece),
        event is Rested <==> event@ is Rested,
        event matches WorkerEvent::Complete(complete) ==> event@ == EventView::Complete(complete),
{
}

/// The plain values of actions tell what these hold: the same bits and bytes in their order, the same
/// piece, the same limit, the same reason.
pub proof fn law_plain_actions(action: WorkerAction)
    ensures
        action is AskBitfield <==> action@ is AskBitfield,
        action matches WorkerAction::SendBitfield(message) ==> action@ == ActionView::SendBitfield(
            message@,
        ),
        action matches WorkerAction::Read(limit) ==> action@ == ActionView::Read(limit),
        action matches WorkerAction::RequestPiece(index) ==> action@ == ActionView::RequestPiece(index),
        action matches WorkerAction::AskPiece(bits) ==> action@ == ActionView::AskPiece(bits@),
        action matches WorkerAction::SendInterested(message) ==> action@ == ActionView::SendInterested(
            message@,
        ),
        action matches WorkerAction::SendRequest(message) ==> action@ == ActionView::SendRequest(
            message@,
        ),
        action matches WorkerAction::PieceDone(index, data) ==> action@ == ActionView::PieceDone(
            index,
            data@,
        ),
        action matches WorkerAction::Terminate(reason, piece) ==> action@ == ActionView::Terminate(
            reason,
            piece,
        ),
        action is Abort <==> action@ is Abort,
        action matches WorkerAction::Rest(millis) ==> action@ == ActionView::Rest(millis),
        action is AskComplete <==> action@ is AskComplete,
        action is Finish <==> action@ is Finish,
{
}

} // verus!
