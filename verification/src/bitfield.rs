//! A plainer account of the pieces of a download, for workers that do not share pieces: a piece
//! goes to one worker, until it fails.
use crate::bitfield_actor::{first_set, lemma_first_set, position};
use crate::util::{bits_and, bitwise_and, boxed_bits};
use vstd::prelude::*;

verus! {

/// What the actor is told or asked.
pub enum BitfieldMsg {
    /// Marks a piece as completed.
    Have(usize),
    /// Asks for all the bits.
    Get,
    /// Asks whether a piece is here.
    HasPiece(usize),
    /// Registers a piece as requested.
    Requested(usize),
    /// Asks for a piece to download from a peer that has these pieces.
    GetRequestablePiece(Box<[bool]>),
    /// Registers a piece as failed.
    PieceFailed(u32),
}

/// What the actor answers.
pub enum BitfieldReply {
    /// Nothing.
    Nothing,
    /// All the bits.
    Bits(Box<[bool]>),
    /// Yes or no.
    Flag(bool),
    /// A piece to download, if there is one.
    Piece(Option<usize>),
}

/// `BitfieldMsg` as a plain value.
pub enum MsgView {
    Have(usize),
    Get,
    HasPiece(usize),
    Requested(usize),
    GetRequestablePiece(Seq<bool>),
    PieceFailed(u32),
}

/// `BitfieldReply` as a plain value.
#[verifier::ext_equal]
pub enum ReplyView {
    Nothing,
    Bits(Seq<bool>),
    Flag(bool),
    Piece(Option<usize>),
}

impl View for BitfieldMsg {
    type V = MsgView;

    open spec fn view(&self) -> MsgView {
        match *self {
            BitfieldMsg::Have(index) => MsgView::Have(index),
            BitfieldMsg::Get => MsgView::Get,
            BitfieldMsg::HasPiece(index) => MsgView::HasPiece(index),
            BitfieldMsg::Requested(index) => MsgView::Requested(index),
            BitfieldMsg::GetRequestablePiece(peer) => MsgView::GetRequestablePiece(peer@),
            BitfieldMsg::PieceFailed(index) => MsgView::PieceFailed(index),
        }
    }
}

impl View for BitfieldReply {
    type V = ReplyView;

    open spec fn view(&self) -> ReplyView {
        match *self {
            BitfieldReply::Nothing => ReplyView::Nothing,
            BitfieldReply::Bits(bits) => ReplyView::Bits(bits@),
            BitfieldReply::Flag(flag) => ReplyView::Flag(flag),
            BitfieldReply::Piece(piece) => ReplyView::Piece(piece),
        }
    }
}

/// The account of the pieces.
pub struct BitfieldState {
    bitfield: Vec<bool>,
    requested: Vec<bool>,
    requestable: Box<[bool]>,
}

/// `BitfieldState` as a plain value.
#[verifier::ext_equal]
pub struct BitfieldView {
    /// The pieces that are here.
    pub bitfield: Seq<bool>,
    /// The pieces that are asked for.
    pub requested: Seq<bool>,
    /// The pieces that can be asked for.
    pub requestable: Seq<bool>,
}

impl View for BitfieldState {
    type V = BitfieldView;

    closed spec fn view(&self) -> BitfieldView {
        BitfieldView {
            bitfield: self.bitfield@,
            requested: self.requested@,
            requestable: self.requestable@,
        }
    }
}

/// What holds of the account at all times: it is kept of the same pieces throughout.
pub open spec fn sound(v: BitfieldView) -> bool {
    &&& v.requested.len() == v.bitfield.len()
    &&& v.requestable.len() == v.bitfield.len()
    &&& v.bitfield.len() <= usize::MAX
}

/// The piece to download from a peer that has these pieces: the first that can be asked for.
pub open spec fn piece_for(v: BitfieldView, peer: Seq<bool>) -> Option<usize> {
    first_set(bits_and(peer, v.requestable), 0)
}

/// The account of pieces of which these are here, and none is asked for.
pub open spec fn new_account(bits: Seq<bool>) -> BitfieldView {
    BitfieldView {
        bitfield: bits,
        requested: Seq::new(bits.len(), |i: int| false),
        requestable: Seq::new(bits.len(), |i: int| !bits[i]),
    }
}

/// What a message makes of the account.
pub open spec fn account_after(v: BitfieldView, msg: MsgView) -> BitfieldView {
    match msg {
        MsgView::Have(index) => if index < v.bitfield.len() {
            BitfieldView { bitfield: v.bitfield.update(index as int, true), ..v }
        } else {
            v
        },
        MsgView::Requested(index) => if index < v.bitfield.len() {
            BitfieldView { requested: v.requested.update(index as int, true), ..v }
        } else {
            v
        },
        MsgView::GetRequestablePiece(peer) => match piece_for(v, peer) {
            Some(index) => BitfieldView {
                requested: v.requested.update(index as int, true),
                requestable: v.requestable.update(index as int, false),
                ..v
            },
            None => v,
        },
        MsgView::PieceFailed(index) => if index < v.bitfield.len() {
            BitfieldView {
                requested: v.requested.update(index as int, false),
                requestable: v.requestable.update(index as int, true),
                ..v
            }
        } else {
            v
        },
        _ => v,
    }
}

/// What the actor answers to a message.
pub open spec fn reply_to(v: BitfieldView, msg: MsgView) -> ReplyView {
    match msg {
        MsgView::Get => ReplyView::Bits(v.bitfield),
        MsgView::HasPiece(index) => ReplyView::Flag(
            index < v.bitfield.len() && v.bitfield[index as int],
        ),
        MsgView::GetRequestablePiece(peer) => ReplyView::Piece(piece_for(v, peer)),
        _ => ReplyView::Nothing,
    }
}

impl BitfieldState {
    /// The account of pieces of which these are here, and none is asked for.
    pub fn new(bitfield: Box<[bool]>) -> (r: Self)
        ensures
            r@ == (BitfieldView {
                bitfield: bitfield@,
                requested: Seq::new(bitfield@.len(), |i: int| false),
                requestable: Seq::new(bitfield@.len(), |i: int| !bitfield@[i]),
            }),
            r@ == new_account(bitfield@),
            sound(r@),
    {
        let n: usize = bitfield.len();
        let mut requestable: Vec<bool> = Vec::with_capacity(n);
        let mut i: usize = 0;
        while i < n
            invariant
                n == bitfield@.len(),
                i <= n,
                requestable@ == Seq::new(i as nat, |k: int| !bitfield@[k]),
            decreases n - i,
        {
            requestable.push(!bitfield[i]);
            i += 1;
        }
        let r = BitfieldState {
            bitfield: bitfield.into_vec(),
            requested: vec![false; n],
            requestable: boxed_bits(requestable),
        };
        assert(r@ =~= BitfieldView {
            bitfield: bitfield@,
            requested: Seq::new(bitfield@.len(), |i: int| false),
            requestable: Seq::new(bitfield@.len(), |i: int| !bitfield@[i]),
        });
        r
    }
}

/// Takes a message to the actor, brings the account up to date, and answers.
pub fn bitfield_actor(state: &mut BitfieldState, msg: BitfieldMsg) -> (reply: BitfieldReply)
    requires
        sound(old(state)@),
    ensures
        final(state)@ == account_after(old(state)@, msg@),
        sound(final(state)@),
        reply@ == reply_to(old(state)@, msg@),
{
    match msg {
        BitfieldMsg::Have(index) => {
            if index < state.bitfield.len() {
                state.bitfield[index] = true;
            }
            assert(state@ =~= account_after(old(state)@, msg@));
            BitfieldReply::Nothing
        },
        BitfieldMsg::Get => BitfieldReply::Bits(boxed_bits(state.bitfield.clone())),
        BitfieldMsg::HasPiece(index) => BitfieldReply::Flag(
            index < state.bitfield.len() && state.bitfield[index],
        ),
        BitfieldMsg::Requested(index) => {
            if index < state.bitfield.len() {
                state.requested[index] = true;
            }
            assert(state@ =~= account_after(old(state)@, msg@));
            BitfieldReply::Nothing
        },
        BitfieldMsg::GetRequestablePiece(peer) => {
            let worker_can_request: Box<[bool]> = bitwise_and(&peer, &state.requestable);
            let piece: Option<usize> = position(&worker_can_request);
            if let Some(index) = piece {
                proof {
                    lemma_first_set(worker_can_request@, 0);
                }
                state.requested[index] = true;
                state.requestable[index] = false;
                assert(state@ =~= account_after(old(state)@, msg@));
            }
            BitfieldReply::Piece(piece)
        },
        BitfieldMsg::PieceFailed(index) => {
            if (index as usize) < state.bitfield.len() {
                state.requested[index as usize] = false;
                state.requestable[index as usize] = true;
            }
            assert(state@ =~= account_after(old(state)@, msg@));
            BitfieldReply::Nothing
        },
    }
}

/// Asks the actor for a piece to download from a peer that has these pieces.
pub fn get_requestable_piece(state: &mut BitfieldState, peer_bitfield: Box<[bool]>) -> (r: Option<
    usize,
>)
    requires
        sound(old(state)@),
    ensures
        final(state)@ == account_after(
            old(state)@,
            MsgView::GetRequestablePiece(peer_bitfield@),
        ),
        sound(final(state)@),
        r == piece_for(old(state)@, peer_bitfield@),
{
    match bitfield_actor(state, BitfieldMsg::GetRequestablePiece(peer_bitfield)) {
        BitfieldReply::Piece(piece) => piece,
        _ => None,
    }
}

/// A piece that a worker was given is given to nobody else, as long as it has not failed: no
/// message but the report of its failure lets it be asked for again, and until then no peer is
/// given it.
pub proof fn law_one_worker_per_piece(
    v: BitfieldView,
    index: usize,
    msg: MsgView,
    peer: Seq<bool>,
)
    requires
        sound(v),
        index < v.bitfield.len(),
        !v.requestable[index as int],
        !(msg matches MsgView::PieceFailed(failed) && failed == index),
    ensures
        !account_after(v, msg).requestable[index as int],
        piece_for(v, peer) != Some(index),
{
    lemma_first_set(bits_and(peer, v.requestable), 0);
    if let MsgView::GetRequestablePiece(other) = msg {
        lemma_first_set(bits_and(other, v.requestable), 0);
    }
}

/// The piece for a peer is one that the peer has and that can be asked for; it cannot be, once it
/// has been given out.
pub proof fn law_piece_is_taken(v: BitfieldView, peer: Seq<bool>)
    requires
        sound(v),
    ensures
        piece_for(v, peer) matches Some(index) ==> {
            &&& index < v.bitfield.len()
            &&& index < peer.len()
            &&& peer[index as int]
            &&& v.requestable[index as int]
            &&& !account_after(v, MsgView::GetRequestablePiece(peer)).requestable[index as int]
        },
{
    lemma_first_set(bits_and(peer, v.requestable), 0);
}

/// A piece that has failed can be asked for again: a peer that has it is given it, unless there is
/// one before it that can be asked for.
pub proof fn law_failed_piece_can_be_asked_for(v: BitfieldView, index: u32, peer: Seq<bool>)
    requires
        sound(v),
        index < v.bitfield.len(),
        index < peer.len(),
        peer[index as int],
    ensures
        ({
            let w = account_after(v, MsgView::PieceFailed(index));
            &&& w.requestable[index as int]
            &&& !w.requested[index as int]
            &&& piece_for(w, peer) matches Some(piece) && piece <= index
            &&& (forall|i: int|
                0 <= i < index ==> !(#[trigger] peer[i] && w.requestable[i])) ==> piece_for(w, peer)
                == Some(index as usize)
        }),
{
    let w = account_after(v, MsgView::PieceFailed(index));
    let both = bits_and(peer, w.requestable);
    lemma_first_set(both, 0);
    assert(both[index as int]);
}

/// A piece that is here stays here, whatever the actor is told.
pub proof fn law_completed_pieces_stay(v: BitfieldView, msg: MsgView, i: int)
    requires
        0 <= i < v.bitfield.len(),
        v.bitfield[i],
    ensures
        account_after(v, msg).bitfield.len() == v.bitfield.len(),
        account_after(v, msg).bitfield[i],
{
}

/// The failure of a piece undoes that it was given out: where the piece was not registered as
/// requested before, the account is then as it was.
pub proof fn law_failure_undoes_the_grant(v: BitfieldView, peer: Seq<bool>)
    requires
        sound(v),
    ensures
        piece_for(v, peer) matches Some(index) ==> index <= u32::MAX && !v.requested[index as int]
            ==> account_after(
            account_after(v, MsgView::GetRequestablePiece(peer)),
            MsgView::PieceFailed(index as u32),
        ) == v,
{
    law_piece_is_taken(v, peer);
    if let Some(index) = piece_for(v, peer) {
        if index <= u32::MAX && !v.requested[index as int] {
            assert(account_after(
                account_after(v, MsgView::GetRequestablePiece(peer)),
                MsgView::PieceFailed(index as u32),
            ) =~= v);
        }
    }
}

/// All the bits at once tell the same as the answers for each piece: there is one for each piece,
/// set exactly where the piece is here. Of a piece that there is not the answer is no.
pub proof fn law_snapshot_agrees_with_the_answers(v: BitfieldView, i: usize)
    ensures
        reply_to(v, MsgView::Get) matches ReplyView::Bits(bits) && {
            &&& bits.len() == v.bitfield.len()
            &&& reply_to(v, MsgView::HasPiece(i)) == ReplyView::Flag(i < bits.len() && bits[i as int])
            &&& i < bits.len() ==> bits[i as int] == v.bitfield[i as int]
        },
{
}

/// Questions change nothing, and what the actor is merely told it does not answer.
pub proof fn law_questions_change_nothing(v: BitfieldView, i: usize, failed: u32)
    ensures
        account_after(v, MsgView::Get) == v,
        account_after(v, MsgView::HasPiece(i)) == v,
        reply_to(v, MsgView::Have(i)) is Nothing,
        reply_to(v, MsgView::Requested(i)) is Nothing,
        reply_to(v, MsgView::PieceFailed(failed)) is Nothing,
{
}

/// An account starts with the pieces that are here. No piece is asked for; every piece that is not
/// here can be asked for, and none that is.
pub proof fn law_new_account(bits: Seq<bool>, i: int)
    requires
        0 <= i < bits.len(),
    ensures
        ({
            let v = new_account(bits);
            &&& reply_to(v, MsgView::Get) == ReplyView::Bits(bits)
            &&& v.requested.len() == bits.len()
            &&& v.requestable.len() == bits.len()
            &&& !v.requested[i]
            &&& v.requestable[i] == !bits[i]
        }),
{
}

/// A piece that was reported is here, and so are just the pieces that were.
pub proof fn law_have_is_remembered(v: BitfieldView, index: usize, other: usize)
    requires
        index < v.bitfield.len(),
    ensures
        reply_to(account_after(v, MsgView::Have(index)), MsgView::HasPiece(other))
            == ReplyView::Flag(
            other == index || reply_to(v, MsgView::HasPiece(other)) == ReplyView::Flag(true),
        ),
        account_after(v, MsgView::Have(index)).requested == v.requested,
        account_after(v, MsgView::Have(index)).requestable == v.requestable,
{
}

/// Registering a piece as requested marks that piece, and neither its place among those that can be
/// asked for nor anything of another piece.
pub proof fn law_requested_is_remembered(v: BitfieldView, index: usize, i: int)
    requires
        sound(v),
        index < v.bitfield.len(),
        0 <= i < v.bitfield.len(),
    ensures
        ({
            let w = account_after(v, MsgView::Requested(index));
            &&& w.requested.len() == v.requested.len()
            &&& w.requested[i] == (i == index || v.requested[i])
            &&& w.requestable == v.requestable
            &&& w.bitfield == v.bitfield
        }),
{
}

/// A piece that there is not changes nothing.
pub proof fn law_no_such_piece(v: BitfieldView, i: usize, failed: u32)
    ensures
        i >= v.bitfield.len() ==> account_after(v, MsgView::Have(i)) == v,
        i >= v.bitfield.len() ==> account_after(v, MsgView::Requested(i)) == v,
        failed >= v.bitfield.len() ==> account_after(v, MsgView::PieceFailed(failed)) == v,
{
}

/// The failure of a piece lets it be asked for again, and changes nothing of another piece nor of
/// what is here.
pub proof fn law_failure_is_of_one_piece(v: BitfieldView, failed: u32, i: int)
    requires
        sound(v),
        failed < v.bitfield.len(),
        0 <= i < v.bitfield.len(),
    ensures
        ({
            let w = account_after(v, MsgView::PieceFailed(failed));
            &&& w.requestable.len() == v.requestable.len()
            &&& w.requested.len() == v.requested.len()
            &&& w.requestable[i] == (i == failed || v.requestable[i])
            &&& w.requested[i] == (i != failed && v.requested[i])
            &&& w.bitfield == v.bitfield
        }),
{
}

/// A peer is given the first of its pieces that can be asked for, and nothing where it has none. The
/// piece is asked for from then on; nothing changes of another piece nor of what is here.
pub proof fn law_first_piece_of_use_is_given(v: BitfieldView, peer: Seq<bool>, i: int)
    requires
        sound(v),
        0 <= i < v.bitfield.len(),
    ensures
        ({
            let w = account_after(v, MsgView::GetRequestablePiece(peer));
            reply_to(v, MsgView::GetRequestablePiece(peer)) matches ReplyView::Piece(piece) && {
                &&& piece == piece_for(v, peer)
                &&& i < peer.len() && peer[i] && v.requestable[i] ==> (piece matches Some(index)
                    && index <= i)
                &&& piece matches Some(index) ==> {
                    &&& index < v.bitfield.len()
                    &&& index < peer.len()
                    &&& peer[index as int]
                    &&& v.requestable[index as int]
                }
                &&& w.bitfield == v.bitfield
                &&& w.requested.len() == v.requested.len()
                &&& w.requestable.len() == v.requestable.len()
                &&& w.requested[i] == (piece == Some(i as usize) || v.requested[i])
                &&& w.requestable[i] == (piece != Some(i as usize) && v.requestable[i])
            }
        }),
{
    let both = bits_and(peer, v.requestable);
    lemma_first_set(both, 0);
    if i < peer.len() {
        assert(both[i] == (peer[i] && v.requestable[i]));
    }
}

/// The plain values of messages and answers tell what these hold: the same piece, the same bits in
/// their order, the same answer.
pub proof fn law_plain_messages_and_answers(msg: BitfieldMsg, reply: BitfieldReply)
    ensures
        msg matches BitfieldMsg::Have(index) ==> msg@ == MsgView::Have(index),
        msg is Get <==> msg@ is Get,
        msg matches BitfieldMsg::HasPiece(index) ==> msg@ == MsgView::HasPiece(index),
        msg matches BitfieldMsg::Requested(index) ==> msg@ == MsgView::Requested(index),
        msg matches BitfieldMsg::GetRequestablePiece(peer) ==> msg@ == MsgView::GetRequestablePiece(
            peer@,
        ),
        msg matches BitfieldMsg::PieceFailed(index) ==> msg@ == MsgView::PieceFailed(index),
        reply is Nothing <==> reply@ is Nothing,
        reply matches BitfieldReply::Bits(bits) ==> reply@ == ReplyView::Bits(bits@),
        reply matches BitfieldReply::Flag(flag) ==> reply@ == ReplyView::Flag(flag),
        reply matches BitfieldReply::Piece(piece) ==> reply@ == ReplyView::Piece(piece),
{
}

} // verus!
