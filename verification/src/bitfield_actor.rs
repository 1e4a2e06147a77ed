//! The actor that keeps account of the pieces of a download: which are here, which are asked for,
//! and which can be.
use crate::util::{bits_and, bitwise_and, boxed_bits};
use vstd::prelude::*;

verus! {

/// How many workers may download the same piece at a time, where there is nothing else to do.
pub const MAX_REDUNDANT_REQUESTS: usize = 3;

/// What the actor is told or asked.
pub enum BitfieldMsg {
    /// Marks a piece as completed.
    Have(usize),
    /// Asks for all the bits.
    Get,
    /// Asks whether a piece is here.
    HasPiece(usize),
    /// Registers a piece as requested.
    Requested(usize),
    /// Asks for a piece to download from a peer that has these pieces.
    GetRequestablePiece(Box<[bool]>),
    /// Registers a piece as failed.
    PieceFailed(Option<usize>),
    /// Asks for leave to download a piece.
    RequestPiece(usize),
    /// Asks whether all pieces are here.
    IsComplete,
}

/// What the actor answers.
pub enum BitfieldReply {
    /// Nothing.
    Nothing,
    /// All the bits.
    Bits(Box<[bool]>),
    /// Yes or no.
    Flag(bool),
    /// A piece to download, if there is one.
    Piece(Option<usize>),
}

/// `BitfieldMsg` as a plain value.
pub enum MsgView {
    Have(usize),
    Get,
    HasPiece(usize),
    Requested(usize),
    GetRequestablePiece(Seq<bool>),
    PieceFailed(Option<usize>),
    RequestPiece(usize),
    IsComplete,
}

/// `BitfieldReply` as a plain value.
#[verifier::ext_equal]
pub enum ReplyView {
    Nothing,
    Bits(Seq<bool>),
    Flag(bool),
    Piece(Option<usize>),
}

impl View for BitfieldMsg {
    type V = MsgView;

    open spec fn view(&self) -> MsgView {
        match *self {
            BitfieldMsg::Have(index) => MsgView::Have(index),
            BitfieldMsg::Get => MsgView::Get,
            BitfieldMsg::HasPiece(index) => MsgView::HasPiece(index),
            BitfieldMsg::Requested(index) => MsgView::Requested(index),
            BitfieldMsg::GetRequestablePiece(peer) => MsgView::GetRequestablePiece(peer@),
            BitfieldMsg::PieceFailed(index) => MsgView::PieceFailed(index),
            BitfieldMsg::RequestPiece(index) => MsgView::RequestPiece(index),
            BitfieldMsg::IsComplete => MsgView::IsComplete,
        }
    }
}

impl View for BitfieldReply {
    type V = ReplyView;

    open spec fn view(&self) -> ReplyView {
        match *self {
            BitfieldReply::Nothing => ReplyView::Nothing,
            BitfieldReply::Bits(bits) => ReplyView::Bits(bits@),
            BitfieldReply::Flag(flag) => ReplyView::Flag(flag),
            BitfieldReply::Piece(piece) => ReplyView::Piece(piece),
        }
    }
}

/// The account of the pieces.
pub struct BitfieldState {
    bitfield: Vec<bool>,
    requested: Vec<bool>,
    requestable: Box<[bool]>,
    request_counts: Vec<usize>,
}

/// `BitfieldState` as a plain value.
#[verifier::ext_equal]
pub struct BitfieldView {
    /// The pieces that are here.
    pub bitfield: Seq<bool>,
    /// The pieces that are asked for.
    pub requested: Seq<bool>,
    /// The pieces that can be asked for.
    pub requestable: Seq<bool>,
    /// How many workers are on each piece.
    pub request_counts: Seq<usize>,
}

impl View for BitfieldState {
    type V = BitfieldView;

    closed spec fn view(&self) -> BitfieldView {
        BitfieldView {
            bitfield: self.bitfield@,
            requested: self.requested@,
            requestable: self.requestable@,
            request_counts: self.request_counts@,
        }
    }
}

/// What holds of the account at all times: it is kept of the same pieces throughout, no piece that
/// is asked for can be asked for once more as if it were not, and the number of workers on a piece
/// is limited, with room for one more on a piece that can be asked for.
pub open spec fn sound(v: BitfieldView) -> bool {
    &&& v.requested.len() == v.bitfield.len()
    &&& v.requestable.len() == v.bitfield.len()
    &&& v.request_counts.len() == v.bitfield.len()
    &&& v.bitfield.len() <= usize::MAX
    &&& forall|i: int|
        0 <= i < v.bitfield.len() ==> (#[trigger] v.requestable[i] ==> !v.requested[i]
            && v.request_counts[i] < MAX_REDUNDANT_REQUESTS)
    &&& forall|i: int|
        0 <= i < v.bitfield.len() ==> #[trigger] v.request_counts[i] <= MAX_REDUNDANT_REQUESTS
}

/// The first place where a bit string is set, from `from` on.
pub open spec fn first_set(bits: Seq<bool>, from: int) -> Option<usize>
    decreases bits.len() - from,
{
    if from < 0 || from >= bits.len() {
        None
    } else if bits[from] {
        Some(from as usize)
    } else {
        first_set(bits, from + 1)
    }
}

/// The pieces that one more worker may take on, although others are on them: the peer has them,
/// they are not here, and not too many workers are on them.
pub open spec fn redundant(v: BitfieldView, peer: Seq<bool>) -> Seq<bool> {
    Seq::new(
        if peer.len() <= v.bitfield.len() {
            peer.len()
        } else {
            v.bitfield.len()
        },
        |i: int| peer[i] && !v.bitfield[i] && v.request_counts[i] < MAX_REDUNDANT_REQUESTS,
    )
}

/// The piece to download from a peer that has these pieces: the first that can be asked for, or
/// else the first that one more worker may take on.
pub open spec fn piece_for(v: BitfieldView, peer: Seq<bool>) -> Option<usize> {
    match first_set(bits_and(peer, v.requestable), 0) {
        Some(index) => Some(index),
        None => first_set(redundant(v, peer), 0),
    }
}

/// Whether a piece can be granted: it is neither here nor asked for.
pub open spec fn grantable(v: BitfieldView, index: int) -> bool {
    0 <= index < v.bitfield.len() && !v.bitfield[index] && !v.requested[index]
}

/// The account with a piece asked for.
pub open spec fn with_requested(v: BitfieldView, index: int) -> BitfieldView {
    BitfieldView {
        requested: v.requested.update(index, true),
        requestable: v.requestable.update(index, false),
        ..v
    }
}

/// Whether all pieces are here.
pub open spec fn complete(v: BitfieldView) -> bool {
    forall|i: int| 0 <= i < v.bitfield.len() ==> #[trigger] v.bitfield[i]
}

/// The number of workers on a piece when one of them has given up. A worker that took the piece
/// with leave is not counted, so there may be none to take off.
pub open spec fn one_fewer(count: usize) -> usize {
    if count > 0 {
        (count - 1) as usize
    } else {
        0
    }
}

/// The account of pieces of which these are here, and none is asked for.
pub open spec fn new_account(bits: Seq<bool>) -> BitfieldView {
    BitfieldView {
        bitfield: bits,
        requested: Seq::new(bits.len(), |i: int| false),
        requestable: Seq::new(bits.len(), |i: int| !bits[i]),
        request_counts: Seq::new(bits.len(), |i: int| 0usize),
    }
}

/// What a message makes of the account.
pub open spec fn account_after(v: BitfieldView, msg: MsgView) -> BitfieldView {
    match msg {
        MsgView::Have(index) => if index < v.bitfield.len() {
            BitfieldView {
                bitfield: v.bitfield.update(index as int, true),
                request_counts: v.request_counts.update(index as int, 0),
                ..v
            }
        } else {
            v
        },
        MsgView::Requested(index) => if index < v.bitfield.len() {
            with_requested(v, index as int)
        } else {
            v
        },
        MsgView::GetRequestablePiece(peer) => match piece_for(v, peer) {
            Some(index) => BitfieldView {
                request_counts: v.request_counts.update(
                    index as int,
                    (v.request_counts[index as int] + 1) as usize,
                ),
                ..with_requested(v, index as int)
            },
            None => v,
        },
        MsgView::PieceFailed(Some(index)) => if index < v.bitfield.len() {
            BitfieldView {
                requested: v.requested.update(index as int, false),
                requestable: v.requestable.update(index as int, true),
                request_counts: v.request_counts.update(
                    index as int,
                    one_fewer(v.request_counts[index as int]),
                ),
                ..v
            }
        } else {
            v
        },
        MsgView::RequestPiece(index) => if grantable(v, index as int) {
            with_requested(v, index as int)
        } else {
            v
        },
        _ => v,
    }
}

/// What the actor answers to a message.
pub open spec fn reply_to(v: BitfieldView, msg: MsgView) -> ReplyView {
    match msg {
        MsgView::Get => ReplyView::Bits(v.bitfield),
        MsgView::HasPiece(index) => ReplyView::Flag(
            index < v.bitfield.len() && v.bitfield[index as int],
        ),
        MsgView::GetRequestablePiece(peer) => ReplyView::Piece(piece_for(v, peer)),
        MsgView::RequestPiece(index) => ReplyView::Flag(grantable(v, index as int)),
        MsgView::IsComplete => ReplyView::Flag(complete(v)),
        _ => ReplyView::Nothing,
    }
}

/// What `first_set` finds is the first place that is set.
pub(crate) proof fn lemma_first_set(bits: Seq<bool>, from: int)
    requires
        0 <= from,
        bits.len() <= usize::MAX,
    ensures
        first_set(bits, from) matches Some(index) ==> from <= index < bits.len() && bits[index as int]
            && forall|i: int| from <= i < index ==> !#[trigger] bits[i],
        first_set(bits, from) is None ==> forall|i: int| from <= i < bits.len() ==> !#[trigger] bits[i],
    decreases bits.len() - from,
{
    if from < bits.len() && !bits[from] {
        lemma_first_set(bits, from + 1);
    }
}

/// The first place where a bit string is set.
pub(crate) fn position(bits: &Box<[bool]>) -> (r: Option<usize>)
    ensures
        r == first_set(bits@, 0),
{
    let mut i: usize = 0;
    while i < bits.len()
        invariant
            i <= bits@.len(),
            first_set(bits@, 0) == first_set(bits@, i as int),
        decreases bits@.len() - i,
    {
        if bits[i] {
            return Some(i);
        }
        i += 1;
    }
    None
}

impl BitfieldState {
    /// The account of pieces of which these are here, and none is asked for.
    pub fn new(bitfield: Box<[bool]>) -> (r: Self)
        ensures
            r@ == (BitfieldView {
                bitfield: bitfield@,
                requested: Seq::new(bitfield@.len(), |i: int| false),
                requestable: Seq::new(bitfield@.len(), |i: int| !bitfield@[i]),
                request_counts: Seq::new(bitfield@.len(), |i: int| 0usize),
            }),
            r@ == new_account(bitfield@),
            sound(r@),
    {
        let n: usize = bitfield.len();
        let mut requestable: Vec<bool> = Vec::with_capacity(n);
        let mut i: usize = 0;
        while i < n
            invariant
                n == bitfield@.len(),
                i <= n,
                requestable@ == Seq::new(i as nat, |k: int| !bitfield@[k]),
            decreases n - i,
        {
            requestable.push(!bitfield[i]);
            i += 1;
        }
        let r = BitfieldState {
            bitfield: bitfield.into_vec(),
            requested: vec![false; n],
            requestable: boxed_bits(requestable),
            request_counts: vec![0usize; n],
        };
        assert(r@ =~= BitfieldView {
            bitfield: bitfield@,
            requested: Seq::new(bitfield@.len(), |i: int| false),
            requestable: Seq::new(bitfield@.len(), |i: int| !bitfield@[i]),
            request_counts: Seq::new(bitfield@.len(), |i: int| 0usize),
        });
        r
    }

    /// The number of pieces.
    pub fn len(&self) -> (r: usize)
        ensures
            r == self@.bitfield.len(),
    {
        self.bitfield.len()
    }

    /// The piece to download from a peer that has these pieces.
    pub fn next_piece(&self, peer_bitfield: &Box<[bool]>) -> (r: Option<usize>)
        requires
            sound(self@),
        ensures
            r == piece_for(self@, peer_bitfield@),
    {
        let worker_can_request: Box<[bool]> = bitwise_and(peer_bitfield, &self.requestable);
        match position(&worker_can_request) {
            Some(index) => Some(index),
            None => {
                let n: usize = if peer_bitfield.len() <= self.bitfield.len() {
                    peer_bitfield.len()
                } else {
                    self.bitfield.len()
                };
                let ghost spare = redundant(self@, peer_bitfield@);
                let mut i: usize = 0;
                while i < n
                    invariant
                        sound(self@),
                        first_set(bits_and(peer_bitfield@, self@.requestable), 0) is None,
                        n == spare.len(),
                        n <= peer_bitfield@.len(),
                        n <= self@.bitfield.len(),
                        spare == redundant(self@, peer_bitfield@),
                        i <= n,
                        first_set(spare, 0) == first_set(spare, i as int),
                    decreases n - i,
                {
                    if peer_bitfield[i] && !self.bitfield[i] && self.request_counts[i]
                        < MAX_REDUNDANT_REQUESTS {
                        return Some(i);
                    }
                    i += 1;
                }
                None
            },
        }
    }

    /// Whether all pieces are here.
    pub fn is_complete(&self) -> (r: bool)
        ensures
            r == complete(self@),
    {
        let mut i: usize = 0;
        while i < self.bitfield.len()
            invariant
                i <= self@.bitfield.len(),
                forall|k: int| 0 <= k < i ==> #[trigger] self@.bitfield[k],
            decreases self@.bitfield.len() - i,
        {
            if !self.bitfield[i] {
                assert(!self@.bitfield[i as int]);
                return false;
            }
            i += 1;
        }
        true
    }

    fn mark_requested(&mut self, index: usize)
        requires
            sound(old(self)@),
            index < old(self)@.bitfield.len(),
        ensures
            final(self)@ == with_requested(old(self)@, index as int),
    {
        self.requested[index] = true;
        self.requestable[index] = false;
        assert(self@ =~= with_requested(old(self)@, index as int));
    }
}

/// The piece for a peer is one that the peer has, with room for one more worker; and it is not
/// here, unless it can be asked for all the same. Where there is none, the peer has nothing that
/// is of use.
pub proof fn law_piece_suits_the_peer(v: BitfieldView, peer: Seq<bool>)
    requires
        sound(v),
    ensures
        piece_for(v, peer) matches Some(index) ==> {
            &&& index < v.bitfield.len()
            &&& index < peer.len()
            &&& peer[index as int]
            &&& v.request_counts[index as int] < MAX_REDUNDANT_REQUESTS
            &&& v.requestable[index as int] || !v.bitfield[index as int]
        },
        piece_for(v, peer) is None ==> forall|i: int|
            0 <= i < peer.len() && i < v.bitfield.len() && #[trigger] peer[i] ==> !v.requestable[i] && (
            v.bitfield[i] || v.request_counts[i] >= MAX_REDUNDANT_REQUESTS),
{
    let both = bits_and(peer, v.requestable);
    let spare = redundant(v, peer);
    lemma_first_set(both, 0);
    lemma_first_set(spare, 0);
    assert forall|i: int|
        piece_for(v, peer) is None && 0 <= i < peer.len() && i < v.bitfield.len()
            && #[trigger] peer[i] implies !v.requestable[i] && (v.bitfield[i] || v.request_counts[i]
        >= MAX_REDUNDANT_REQUESTS) by {
        assert(!both[i] && !spare[i]);
    }
}

/// Every message leaves the account sound, and of as many pieces as before.
pub proof fn law_account_stays_sound(v: BitfieldView, msg: MsgView)
    requires
        sound(v),
    ensures
        sound(account_after(v, msg)),
        account_after(v, msg).bitfield.len() == v.bitfield.len(),
{
    if let MsgView::GetRequestablePiece(peer) = msg {
        law_piece_suits_the_peer(v, peer);
    }
}

/// Takes a message to the actor, brings the account up to date, and answers.
pub fn bitfield_actor(state: &mut BitfieldState, msg: BitfieldMsg) -> (reply: BitfieldReply)
    requires
        sound(old(state)@),
    ensures
        final(state)@ == account_after(old(state)@, msg@),
        sound(final(state)@),
        reply@ == reply_to(old(state)@, msg@),
{
    assert(state.bitfield.len() == state@.bitfield.len());
    proof {
        law_account_stays_sound(state@, msg@);
    }
    match msg {
        BitfieldMsg::Have(index) => {
            if index < state.bitfield.len() {
                state.bitfield[index] = true;
                state.request_counts[index] = 0;
            }
            assert(state@ =~= account_after(old(state)@, msg@));
            BitfieldReply::Nothing
        },
        BitfieldMsg::Get => BitfieldReply::Bits(boxed_bits(state.bitfield.clone())),
        BitfieldMsg::HasPiece(index) => BitfieldReply::Flag(
            index < state.bitfield.len() && state.bitfield[index],
        ),
        BitfieldMsg::Requested(index) => {
            if index < state.bitfield.len() {
                state.mark_requested(index);
            }
            BitfieldReply::Nothing
        },
        BitfieldMsg::GetRequestablePiece(peer) => {
            let piece: Option<usize> = state.next_piece(&peer);
            if let Some(index) = piece {
                proof {
                    law_piece_suits_the_peer(state@, peer@);
                }
                state.request_counts[index] = state.request_counts[index] + 1;
                if !state.requested[index] {
                    state.requested[index] = true;
                    state.requestable[index] = false;
                }
                assert(state@ =~= account_after(old(state)@, msg@));
            }
            BitfieldReply::Piece(piece)
        },
        BitfieldMsg::PieceFailed(piece) => {
            if let Some(index) = piece {
                if index < state.bitfield.len() {
                    state.requested[index] = false;
                    state.requestable[index] = true;
                    let count: usize = state.request_counts[index];
                    state.request_counts[index] = if count > 0 {
                        count - 1
                    } else {
                        0
                    };
                }
            }
            assert(state@ =~= account_after(old(state)@, msg@));
            BitfieldReply::Nothing
        },
        BitfieldMsg::RequestPiece(index) => {
            let can_request: bool = index < state.bitfield.len() && !state.bitfield[index]
                && !state.requested[index];
            if can_request {
                state.mark_requested(index);
            }
            BitfieldReply::Flag(can_request)
        },
        BitfieldMsg::IsComplete => BitfieldReply::Flag(state.is_complete()),
    }
}

/// Asks the actor for a piece to download from a peer that has these pieces.
pub fn get_requestable_piece(state: &mut BitfieldState, peer_bitfield: Box<[bool]>) -> (r: Option<
    usize,
>)
    requires
        sound(old(state)@),
    ensures
        final(state)@ == account_after(
            old(state)@,
            MsgView::GetRequestablePiece(peer_bitfield@),
        ),
        sound(final(state)@),
        r == piece_for(old(state)@, peer_bitfield@),
{
    match bitfield_actor(state, BitfieldMsg::GetRequestablePiece(peer_bitfield)) {
        BitfieldReply::Piece(piece) => piece,
        _ => None,
    }
}

/// A piece that has failed can be asked for again, whoever was on it: a peer that has it is given
/// it, unless there is one before it that can be asked for.
pub proof fn law_failed_piece_can_be_asked_for(v: BitfieldView, index: usize, peer: Seq<bool>)
    requires
        sound(v),
        index < v.bitfield.len(),
        index < peer.len(),
        peer[index as int],
    ensures
        ({
            let w = account_after(v, MsgView::PieceFailed(Some(index)));
            &&& w.requestable[index as int]
            &&& !w.requested[index as int]
            &&& w.request_counts[index as int] == one_fewer(v.request_counts[index as int])
            &&& piece_for(w, peer) matches Some(piece) && piece <= index
            &&& (forall|i: int|
                0 <= i < index ==> !(#[trigger] peer[i] && w.requestable[i])) ==> piece_for(w, peer)
                == Some(index)
        }),
{
    let w = account_after(v, MsgView::PieceFailed(Some(index)));
    let both = bits_and(peer, w.requestable);
    lemma_first_set(both, 0);
    assert(both[index as int]);
}

/// A piece that has been granted is not granted again.
pub proof fn law_granted_once(v: BitfieldView, index: usize)
    requires
        sound(v),
        reply_to(v, MsgView::RequestPiece(index)) == ReplyView::Flag(true),
    ensures
        reply_to(
            account_after(v, MsgView::RequestPiece(index)),
            MsgView::RequestPiece(index),
        ) == ReplyView::Flag(false),
{
}

/// The failure of a piece undoes that leave was given to download it: the account is as it was,
/// where the piece could be asked for and no worker was on it.
pub proof fn law_failure_undoes_the_leave(v: BitfieldView, index: usize)
    requires
        sound(v),
        reply_to(v, MsgView::RequestPiece(index)) == ReplyView::Flag(true),
    ensures
        ({
            let after = account_after(
                account_after(v, MsgView::RequestPiece(index)),
                MsgView::PieceFailed(Some(index)),
            );
            &&& after.requestable[index as int]
            &&& v.requestable[index as int] && v.request_counts[index as int] == 0 ==> after == v
        }),
{
    let after = account_after(
        account_after(v, MsgView::RequestPiece(index)),
        MsgView::PieceFailed(Some(index)),
    );
    if v.requestable[index as int] && v.request_counts[index as int] == 0 {
        assert(after =~= v);
    }
}

/// A peer that has none of the pieces that could be downloaded is given none, however many pieces
/// it tells of.
pub proof fn law_useless_peer_is_given_nothing(v: BitfieldView, peer: Seq<bool>)
    requires
        sound(v),
        forall|i: int| 0 <= i < peer.len() && i < v.bitfield.len() ==> !#[trigger] peer[i],
    ensures
        reply_to(v, MsgView::GetRequestablePiece(peer)) == ReplyView::Piece(None),
        account_after(v, MsgView::GetRequestablePiece(peer)) == v,
{
    law_piece_suits_the_peer(v, peer);
}

/// The account after these messages.
pub open spec fn after_messages(v: BitfieldView, msgs: Seq<MsgView>) -> BitfieldView
    decreases msgs.len(),
{
    if msgs.len() == 0 {
        v
    } else {
        account_after(after_messages(v, msgs.drop_last()), msgs.last())
    }
}

/// Once every piece has been reported, in any order and whatever else the actor is told, the
/// download is complete.
pub proof fn law_complete_when_every_piece_was_reported(v: BitfieldView, msgs: Seq<MsgView>)
    requires
        v.bitfield.len() <= usize::MAX,
        forall|i: usize| i < v.bitfield.len() ==> #[trigger] msgs.contains(MsgView::Have(i)),
    ensures
        complete(after_messages(v, msgs)),
        reply_to(after_messages(v, msgs), MsgView::IsComplete) == ReplyView::Flag(true),
{
    lemma_reported_pieces(v, msgs);
    let w = after_messages(v, msgs);
    assert forall|i: int| 0 <= i < w.bitfield.len() implies #[trigger] w.bitfield[i] by {
        assert(msgs.contains(MsgView::Have(i as usize)));
    }
}

proof fn lemma_reported_pieces(v: BitfieldView, msgs: Seq<MsgView>)
    requires
        v.bitfield.len() <= usize::MAX,
    ensures
        after_messages(v, msgs).bitfield.len() == v.bitfield.len(),
        forall|i: usize|
            i < v.bitfield.len() && #[trigger] msgs.contains(MsgView::Have(i)) ==> after_messages(
                v,
                msgs,
            ).bitfield[i as int],
    decreases msgs.len(),
{
    if msgs.len() > 0 {
        let earlier = msgs.drop_last();
        lemma_reported_pieces(v, earlier);
        assert forall|i: usize|
            i < v.bitfield.len() && #[trigger] msgs.contains(
                MsgView::Have(i),
            ) implies after_messages(v, msgs).bitfield[i as int] by {
            if msgs.last() != MsgView::Have(i) {
                let k = choose|k: int| 0 <= k < msgs.len() && msgs[k] == MsgView::Have(i);
                assert(earlier[k] == MsgView::Have(i));
                assert(earlier.contains(MsgView::Have(i)));
                law_completed_pieces_stay(after_messages(v, earlier), msgs.last(), i as int);
            }
        }
    }
}

/// A piece that is here stays here, whatever the actor is told.
pub proof fn law_completed_pieces_stay(v: BitfieldView, msg: MsgView, i: int)
    requires
        0 <= i < v.bitfield.len(),
        v.bitfield[i],
    ensures
        account_after(v, msg).bitfield.len() == v.bitfield.len(),
        account_after(v, msg).bitfield[i],
{
}

/// A piece that was reported is here, and so are just the pieces that were.
pub proof fn law_have_is_remembered(v: BitfieldView, index: usize, other: usize)
    requires
        index < v.bitfield.len(),
    ensures
        reply_to(account_after(v, MsgView::Have(index)), MsgView::HasPiece(other))
            == ReplyView::Flag(
            other == index || reply_to(v, MsgView::HasPiece(other)) == ReplyView::Flag(true),
        ),
{
}

/// A piece that a worker was given goes to a second one only when the peer has no other that can
/// be asked for.
pub proof fn law_fresh_pieces_come_first(v: BitfieldView, peer: Seq<bool>, other: Seq<bool>, i: int)
    requires
        sound(v),
        piece_for(v, peer) is Some,
        0 <= i < other.len(),
        i < v.bitfield.len(),
        other[i],
        account_after(v, MsgView::GetRequestablePiece(peer)).requestable[i],
    ensures
        piece_for(account_after(v, MsgView::GetRequestablePiece(peer)), other) is Some,
        piece_for(account_after(v, MsgView::GetRequestablePiece(peer)), other) != piece_for(
            v,
            peer,
        ),
{
    let w = account_after(v, MsgView::GetRequestablePiece(peer));
    law_piece_suits_the_peer(v, peer);
    let both = bits_and(other, w.requestable);
    lemma_first_set(both, 0);
    assert(both[i]);
}

/// The failure of a piece undoes that it was given out: as many workers are on it as before, and
/// where the piece could be asked for before, the account is as it was.
pub proof fn law_failure_undoes_the_grant(v: BitfieldView, peer: Seq<bool>)
    requires
        sound(v),
    ensures
        piece_for(v, peer) matches Some(index) ==> {
            let given = account_after(v, MsgView::GetRequestablePiece(peer));
            let failed = MsgView::PieceFailed(Some(index));
            &&& account_after(given, failed).request_counts == v.request_counts
            &&& v.requestable[index as int] ==> account_after(given, failed) == v
        },
{
    law_piece_suits_the_peer(v, peer);
    if let Some(index) = piece_for(v, peer) {
        let given = account_after(v, MsgView::GetRequestablePiece(peer));
        let after = account_after(given, MsgView::PieceFailed(Some(index)));
        assert(after.request_counts =~= v.request_counts);
        if v.requestable[index as int] {
            assert(after =~= v);
        }
    }
}

/// All the bits at once tell the same as the answers for each piece: there is one for each piece,
/// set exactly where the piece is here. Of a piece that there is not the answer is no.
pub proof fn law_snapshot_agrees_with_the_answers(v: BitfieldView, i: usize)
    ensures
        reply_to(v, MsgView::Get) matches ReplyView::Bits(bits) && {
            &&& bits.len() == v.bitfield.len()
            &&& reply_to(v, MsgView::HasPiece(i)) == ReplyView::Flag(i < bits.len() && bits[i as int])
            &&& i < bits.len() ==> bits[i as int] == v.bitfield[i as int]
        },
{
}

/// The download is complete exactly when for each piece the answer is that it is here.
pub proof fn law_complete_agrees_with_the_answers(v: BitfieldView)
    requires
        v.bitfield.len() <= usize::MAX,
    ensures
        reply_to(v, MsgView::IsComplete) == ReplyView::Flag(
            forall|i: usize|
                i < v.bitfield.len() ==> #[trigger] reply_to(v, MsgView::HasPiece(i))
                    == ReplyView::Flag(true),
        ),
{
    if complete(v) {
        assert forall|i: usize| i < v.bitfield.len() implies #[trigger] reply_to(
            v,
            MsgView::HasPiece(i),
        ) == ReplyView::Flag(true) by {
            assert(v.bitfield[i as int]);
        }
    } else {
        let k = choose|k: int| 0 <= k < v.bitfield.len() && !#[trigger] v.bitfield[k];
        assert(reply_to(v, MsgView::HasPiece(k as usize)) == ReplyView::Flag(false));
    }
}

/// Questions change nothing, and what the actor is merely told it does not answer.
pub proof fn law_questions_change_nothing(v: BitfieldView, i: usize, piece: Option<usize>)
    ensures
        account_after(v, MsgView::Get) == v,
        account_after(v, MsgView::HasPiece(i)) == v,
        account_after(v, MsgView::IsComplete) == v,
        account_after(v, MsgView::PieceFailed(None)) == v,
        reply_to(v, MsgView::Have(i)) is Nothing,
        reply_to(v, MsgView::Requested(i)) is Nothing,
        reply_to(v, MsgView::PieceFailed(piece)) is Nothing,
{
}

/// An account starts with the pieces that are here. No piece is asked for and no worker is on one;
/// every piece that is not here can be asked for, and none that is.
pub proof fn law_new_account(bits: Seq<bool>, i: int)
    requires
        0 <= i < bits.len(),
    ensures
        ({
            let v = new_account(bits);
            &&& reply_to(v, MsgView::Get) == ReplyView::Bits(bits)
            &&& v.requested.len() == bits.len()
            &&& v.requestable.len() == bits.len()
            &&& v.request_counts.len() == bits.len()
            &&& !v.requested[i]
            &&& v.requestable[i] == !bits[i]
            &&& v.request_counts[i] == 0
        }),
{
}

/// The piece that a message is about.
pub open spec fn subject(v: BitfieldView, msg: MsgView) -> Option<usize> {
    match msg {
        MsgView::Have(i) => Some(i),
        MsgView::Requested(i) => Some(i),
        MsgView::RequestPiece(i) => Some(i),
        MsgView::PieceFailed(piece) => piece,
        MsgView::GetRequestablePiece(peer) => match reply_to(v, msg) {
            ReplyView::Piece(piece) => piece,
            _ => None,
        },
        _ => None,
    }
}

/// A message changes the account of the piece that it is about, and of no other.
pub proof fn law_other_pieces_stay_as_they_are(v: BitfieldView, msg: MsgView, i: int)
    requires
        sound(v),
        0 <= i < v.bitfield.len(),
        subject(v, msg) != Some(i as usize),
    ensures
        ({
            let w = account_after(v, msg);
            &&& w.bitfield[i] == v.bitfield[i]
            &&& w.requested[i] == v.requested[i]
            &&& w.requestable[i] == v.requestable[i]
            &&& w.request_counts[i] == v.request_counts[i]
        }),
{
    if let MsgView::GetRequestablePiece(peer) = msg {
        law_piece_suits_the_peer(v, peer);
    }
}

/// A piece that there is not changes nothing, and is granted to nobody.
pub proof fn law_no_such_piece(v: BitfieldView, i: usize)
    requires
        i >= v.bitfield.len(),
    ensures
        account_after(v, MsgView::Have(i)) == v,
        account_after(v, MsgView::Requested(i)) == v,
        account_after(v, MsgView::PieceFailed(Some(i))) == v,
        account_after(v, MsgView::RequestPiece(i)) == v,
        reply_to(v, MsgView::RequestPiece(i)) == ReplyView::Flag(false),
{
}

/// What each message makes of the piece that it is about. A piece that was reported is here, and no
/// worker is on it. One that is asked for cannot be asked for as if it were not, and is neither
/// more nor less here for that. One that has failed can be asked for again, and one worker fewer is
/// on it, where there was one.
pub proof fn law_what_messages_make_of_a_piece(v: BitfieldView, i: usize)
    requires
        sound(v),
        i < v.bitfield.len(),
    ensures
        ({
            let w = account_after(v, MsgView::Have(i));
            let k = i as int;
            &&& w.bitfield[k]
            &&& w.request_counts[k] == 0
            &&& w.requested[k] == v.requested[k]
            &&& w.requestable[k] == v.requestable[k]
        }),
        ({
            let w = account_after(v, MsgView::Requested(i));
            let k = i as int;
            &&& w.requested[k]
            &&& !w.requestable[k]
            &&& w.bitfield[k] == v.bitfield[k]
            &&& w.request_counts[k] == v.request_counts[k]
        }),
        ({
            let w = account_after(v, MsgView::PieceFailed(Some(i)));
            let k = i as int;
            &&& !w.requested[k]
            &&& w.requestable[k]
            &&& w.bitfield[k] == v.bitfield[k]
            &&& v.request_counts[k] > 0 ==> w.request_counts[k] == v.request_counts[k] - 1
            &&& v.request_counts[k] == 0 ==> w.request_counts[k] == 0
        }),
{
}

/// Leave to download a piece is given exactly where the piece is neither here nor asked for. With
/// leave it is asked for; without it nothing changes.
pub proof fn law_leave_for_what_nobody_is_on(v: BitfieldView, i: usize)
    requires
        sound(v),
        i < v.bitfield.len(),
    ensures
        ({
            let w = account_after(v, MsgView::RequestPiece(i));
            let k = i as int;
            let leave = !v.bitfield[k] && !v.requested[k];
            &&& reply_to(v, MsgView::RequestPiece(i)) == ReplyView::Flag(leave)
            &&& !leave ==> w == v
            &&& leave ==> {
                &&& w.requested[k]
                &&& !w.requestable[k]
                &&& !w.bitfield[k]
                &&& w.request_counts[k] == v.request_counts[k]
            }
        }),
{
}

/// A peer is given the first of its pieces that can be asked for. Where it has none, it is given
/// the first of its pieces that is not here and that fewer than three workers are on; and where it
/// has none of these either, nothing.
pub proof fn law_first_piece_of_use_is_given(v: BitfieldView, peer: Seq<bool>, i: int)
    requires
        sound(v),
        0 <= i < v.bitfield.len(),
        i < peer.len(),
        peer[i],
    ensures
        reply_to(v, MsgView::GetRequestablePiece(peer)) matches ReplyView::Piece(piece) && {
            &&& v.requestable[i] ==> (piece matches Some(index) && index <= i
                && v.requestable[index as int] && peer[index as int])
            &&& !v.bitfield[i] && v.request_counts[i] < 3 ==> (piece matches Some(index) && peer[index as int]
                && (v.requestable[index as int] || index <= i))
            &&& piece matches Some(index) ==> {
                &&& index < v.bitfield.len()
                &&& index < peer.len()
                &&& peer[index as int]
                &&& v.requestable[index as int] || (!v.bitfield[index as int]
                    && v.request_counts[index as int] < 3)
            }
        },
{
    let both = bits_and(peer, v.requestable);
    let spare = redundant(v, peer);
    lemma_first_set(both, 0);
    lemma_first_set(spare, 0);
    assert(both[i] == v.requestable[i]);
    assert(spare[i] == (!v.bitfield[i] && v.request_counts[i] < 3));
}

/// The piece that a peer is given is asked for from then on, with one worker more on it, and is
/// neither more nor less here for that. A peer that is given nothing changes nothing.
pub proof fn law_given_piece_is_asked_for(v: BitfieldView, peer: Seq<bool>)
    requires
        sound(v),
    ensures
        ({
            let w = account_after(v, MsgView::GetRequestablePiece(peer));
            reply_to(v, MsgView::GetRequestablePiece(peer)) matches ReplyView::Piece(piece) && {
                &&& piece == piece_for(v, peer)
                &&& piece is None ==> w == v
                &&& piece matches Some(index) ==> {
                    let k = index as int;
                    &&& w.requested[k]
                    &&& !w.requestable[k]
                    &&& w.request_counts[k] == v.request_counts[k] + 1
                    &&& w.bitfield[k] == v.bitfield[k]
                }
            }
        }),
{
    law_piece_suits_the_peer(v, peer);
}

/// No more than three workers are ever given the same piece at a time.
pub proof fn law_three_workers_at_most(v: BitfieldView, msgs: Seq<MsgView>, i: int)
    requires
        sound(v),
        0 <= i < v.bitfield.len(),
    ensures
        after_messages(v, msgs).bitfield.len() == v.bitfield.len(),
        sound(after_messages(v, msgs)),
        after_messages(v, msgs).request_counts[i] <= 3,
    decreases msgs.len(),
{
    if msgs.len() > 0 {
        law_three_workers_at_most(v, msgs.drop_last(), i);
        law_account_stays_sound(after_messages(v, msgs.drop_last()), msgs.last());
    }
}

/// The pieces that are here after any messages are those that were here before and those that were
/// reported, and no others.
pub proof fn law_only_reported_pieces_are_here(v: BitfieldView, msgs: Seq<MsgView>, i: usize)
    requires
        i < v.bitfield.len(),
    ensures
        reply_to(after_messages(v, msgs), MsgView::HasPiece(i)) == ReplyView::Flag(
            v.bitfield[i as int] || msgs.contains(MsgView::Have(i)),
        ),
    decreases msgs.len(),
{
    lemma_as_many_pieces(v, msgs);
    if msgs.len() > 0 {
        let earlier = msgs.drop_last();
        law_only_reported_pieces_are_here(v, earlier, i);
        lemma_as_many_pieces(v, earlier);
        if msgs.last() == MsgView::Have(i) {
            assert(msgs[msgs.len() - 1] == MsgView::Have(i));
        } else {
            if earlier.contains(MsgView::Have(i)) {
                let k = choose|k: int| 0 <= k < earlier.len() && earlier[k] == MsgView::Have(i);
                assert(msgs[k] == MsgView::Have(i));
            }
            if msgs.contains(MsgView::Have(i)) {
                let k = choose|k: int| 0 <= k < msgs.len() && msgs[k] == MsgView::Have(i);
                assert(earlier[k] == MsgView::Have(i));
            }
        }
    }
}

proof fn lemma_as_many_pieces(v: BitfieldView, msgs: Seq<MsgView>)
    ensures
        after_messages(v, msgs).bitfield.len() == v.bitfield.len(),
    decreases msgs.len(),
{
    if msgs.len() > 0 {
        lemma_as_many_pieces(v, msgs.drop_last());
    }
}

/// The plain values of messages and answers tell what these hold: the same piece, the same bits in
/// their order, the same answer.
pub proof fn law_plain_messages_and_answers(msg: BitfieldMsg, reply: BitfieldReply)
    ensures
        msg matches BitfieldMsg::Have(index) ==> msg@ == MsgView::Have(index),
        msg is Get <==> msg@ is Get,
        msg matches BitfieldMsg::HasPiece(index) ==> msg@ == MsgView::HasPiece(index),
        msg matches BitfieldMsg::Requested(index) ==> msg@ == MsgView::Requested(index),
        msg matches BitfieldMsg::GetRequestablePiece(peer) ==> msg@ == MsgView::GetRequestablePiece(
            peer@,
        ),
        msg matches BitfieldMsg::PieceFailed(index) ==> msg@ == MsgView::PieceFailed(index),
        msg matches BitfieldMsg::RequestPiece(index) ==> msg@ == MsgView::RequestPiece(index),
        msg is IsComplete <==> msg@ is IsComplete,
        reply is Nothing <==> reply@ is Nothing,
        reply matches BitfieldReply::Bits(bits) ==> reply@ == ReplyView::Bits(bits@),
        reply matches BitfieldReply::Flag(flag) ==> reply@ == ReplyView::Flag(flag),
        reply matches BitfieldReply::Piece(piece) ==> reply@ == ReplyView::Piece(piece),
{
}

} // verus!
