//! The download client: how it introduces itself, and how it goes about a download.
//!
//! The client decides; it neither sends nor receives. Each step of a download takes what has
//! happened, a `DownloadEvent`, and gives what is to be done next, a `DownloadAction`.
use crate::bitfield_actor;
pub use crate::plain_worker::PeerWorker;
use crate::random::{random_bytes, random_u32};
use crate::text::{ascii, ascii_bytes};
use crate::torrent::{InfoView, TorrentInfo};
use crate::tracker::{PeerAddr, DEFAULT_PORT, PROTOCOL_ID};
use crate::util::boxed_bits;
use crate::wire::{
    be16, be32, be64, law_bytes_stand_for_the_number, number, push_be16, push_be32, push_be64,
};
use vstd::prelude::*;
use vstd::string::*;

verus! {

/// How many peers the client talks to at a time.
pub const MAX_CONCURRENT_PEERS: usize = 30;

/// How long the client rests when it cannot ask for peers, in seconds.
pub const FETCH_REST: u64 = 5;

/// How long the client rests when there are no peers, in seconds.
pub const NO_PEERS_REST: u64 = 10;

/// How long the client rests when all peers have been tried, in seconds.
pub const ROUND_REST: u64 = 5;

/// The handshake that opens a connection to a peer: the name of the protocol behind its length,
/// eight reserved bytes, the digest of the torrent, and the id of this client.
pub open spec fn handshake_bytes(info_hash: Seq<u8>, peer_id: Seq<u8>) -> Seq<u8> {
    seq![19u8] + protocol_name() + Seq::new(8, |i: int| 0u8) + info_hash + peer_id
}

/// `BitTorrent protocol`, in ASCII.
pub open spec fn protocol_name() -> Seq<u8> {
    seq![66u8, 105, 116, 84, 111, 114, 114, 101, 110, 116, 32, 112, 114, 111, 116, 111, 99, 111, 108]
}

/// Creates the BitTorrent handshake message.
pub fn create_handshake(info_hash: [u8; 20], peer_id: [u8; 20]) -> (r: [u8; 68])
    ensures
        r@ == handshake_bytes(info_hash@, peer_id@),
{
    let name: [u8; 19] = [
        66, 105, 116, 84, 111, 114, 114, 101, 110, 116, 32, 112, 114, 111, 116, 111, 99, 111, 108,
    ];
    let mut handshake: [u8; 68] = [0; 68];
    handshake[0] = 19;
    let mut i: usize = 0;
    while i < 19
        invariant
            i <= 19,
            name@ == protocol_name(),
            handshake@[0] == 19,
            forall|k: int| 0 <= k < i ==> #[trigger] handshake@[1 + k] == protocol_name()[k],
            forall|k: int| 1 + i <= k < 68 ==> #[trigger] handshake@[k] == 0,
        decreases 19 - i,
    {
        handshake[1 + i] = name[i];
        i += 1;
    }
    let mut j: usize = 0;
    while j < 20
        invariant
            j <= 20,
            handshake@[0] == 19,
            forall|k: int| 0 <= k < 19 ==> #[trigger] handshake@[1 + k] == protocol_name()[k],
            forall|k: int| 20 <= k < 28 ==> #[trigger] handshake@[k] == 0,
            forall|k: int| 0 <= k < j ==> #[trigger] handshake@[28 + k] == info_hash@[k],
            forall|k: int| 0 <= k < j ==> #[trigger] handshake@[48 + k] == peer_id@[k],
        decreases 20 - j,
    {
        handshake[28 + j] = info_hash[j];
        handshake[48 + j] = peer_id[j];
        j += 1;
    }
    proof {
        assert forall|k: int| 0 <= k < 68 implies handshake@[k] == handshake_bytes(info_hash@, peer_id@)[k] by {
            if 1 <= k < 20 {
                assert(handshake@[1 + (k - 1)] == protocol_name()[k - 1]);
            } else if 28 <= k < 48 {
                assert(handshake@[28 + (k - 28)] == info_hash@[k - 28]);
            } else if 48 <= k {
                assert(handshake@[48 + (k - 48)] == peer_id@[k - 48]);
            }
        }
    }
    handshake
}

/// An id for this client: a name for its kind, and twelve bytes of its own.
pub open spec fn client_id(own: Seq<u8>) -> Seq<u8> {
    ascii("-BF0001-"@) + own
}

/// Creates an id for this client: a name for its kind, and twelve bytes of its own.
pub fn create_client_id(own: [u8; 12]) -> (r: [u8; 20])
    ensures
        r@ == ascii("-BF0001-"@) + own@,
        r@ == client_id(own@),
{
    proof {
        reveal_strlit("-BF0001-");
    }
    let kind: &[u8] = ascii_bytes("-BF0001-");
    let mut peer_id: [u8; 20] = [0; 20];
    let mut i: usize = 0;
    while i < 20
        invariant
            i <= 20,
            kind@ == ascii("-BF0001-"@),
            kind@.len() == 8,
            forall|k: int| 0 <= k < i ==> #[trigger] peer_id@[k] == (kind@ + own@)[k],
        decreases 20 - i,
    {
        peer_id[i] = if i < 8 {
            kind[i]
        } else {
            own[i - 8]
        };
        i += 1;
    }
    assert(peer_id@ =~= kind@ + own@);
    peer_id
}

/// Generates a random id for this client.
pub fn get_client_id() -> (r: [u8; 20])
    ensures
        r@.take(8) == ascii("-BF0001-"@),
{
    proof {
        reveal_strlit("-BF0001-");
    }
    let peer_id: [u8; 20] = create_client_id(random_bytes());
    assert(peer_id@.take(8) =~= ascii("-BF0001-"@));
    peer_id
}

/// A request to a UDP tracker that connects and announces at once.
pub open spec fn udp_request(
    transaction: u32,
    info_hash: Seq<u8>,
    peer_id: Seq<u8>,
    key: u32,
) -> Seq<u8> {
    be64(PROTOCOL_ID) + be32(0) + be32(transaction) + info_hash + peer_id + be64(0) + be64(0)
        + be64(0) + be32(0) + be32(0) + be32(key) + be32(0xffff_ffff) + be16(DEFAULT_PORT)
}

/// Builds a request to a UDP tracker that connects and announces at once, with these numbers for
/// its transaction and its key.
pub fn create_udp_request_with(
    transaction: u32,
    info_hash: &[u8; 20],
    peer_id: &[u8; 20],
    key: u32,
) -> (r: Vec<u8>)
    ensures
        r@ == udp_request(transaction, info_hash@, peer_id@, key),
{
    let mut buf: Vec<u8> = Vec::with_capacity(98);
    push_be64(&mut buf, PROTOCOL_ID);
    push_be32(&mut buf, 0);
    push_be32(&mut buf, transaction);
    buf.extend_from_slice(info_hash);
    buf.extend_from_slice(peer_id);
    push_be64(&mut buf, 0);
    push_be64(&mut buf, 0);
    push_be64(&mut buf, 0);
    push_be32(&mut buf, 0);
    push_be32(&mut buf, 0);
    push_be32(&mut buf, key);
    push_be32(&mut buf, 0xffff_ffff);
    push_be16(&mut buf, DEFAULT_PORT);
    assert(buf@ =~= udp_request(transaction, info_hash@, peer_id@, key));
    buf
}

/// Builds a request to a UDP tracker that connects and announces at once.
pub fn create_udp_request(info_hash: &[u8; 20], peer_id: &[u8; 20]) -> (r: Vec<u8>)
    ensures
        exists|transaction: u32, key: u32|
            r@ == #[trigger] udp_request(transaction, info_hash@, peer_id@, key),
{
    let transaction: u32 = random_u32();
    let key: u32 = random_u32();
    create_udp_request_with(transaction, info_hash, peer_id, key)
}

/// Why a download cannot go on.
#[derive(Debug)]
pub enum Error {
    /// The client cannot be started.
    StartError(String),
}

impl Error {
    /// The error in words.
    pub fn message(&self) -> (r: String)
        ensures
            r@ == "Error with starting the client: "@ + self->StartError_0@,
    {
        match self {
            Error::StartError(text) => "Error with starting the client: ".to_owned().concat(
                text.as_str(),
            ),
        }
    }
}

/// What a download is waiting for.
#[derive(Clone, Copy, PartialEq, Eq, Structural, Debug)]
pub enum DownloadPhase {
    /// Whether all pieces are here.
    Checking,
    /// Peers.
    Fetching,
    /// The end of a worker.
    Running,
    /// The end of a rest.
    Resting,
    /// Nothing: the download has ended.
    Done,
}

/// What has happened.
pub enum DownloadEvent {
    /// The bitfield actor cannot be reached.
    ActorGone,
    /// Whether all pieces are here.
    Complete(bool),
    /// The client could not ask for peers.
    PeersFailed,
    /// There are these peers.
    Peers(Vec<PeerAddr>),
    /// A worker has ended.
    WorkerDone,
    /// The rest is over.
    Rested,
}

/// What is to be done next.
pub enum DownloadAction {
    /// Ask the bitfield actor whether all pieces are here.
    CheckComplete,
    /// Ask for peers.
    FetchPeers,
    /// Start a worker for each of these peers, and wait for the end of a worker.
    Start(Vec<PeerAddr>),
    /// Wait for the end of a worker.
    Wait,
    /// Rest for so many seconds.
    Rest(u64),
    /// End: all pieces are here.
    Finish,
    /// End with this error.
    Fail(Error),
}

/// `DownloadEvent` as a plain value.
pub enum EventView {
    ActorGone,
    Complete(bool),
    PeersFailed,
    Peers(Seq<PeerAddr>),
    WorkerDone,
    Rested,
}

/// `DownloadAction` as a plain value.
#[verifier::ext_equal]
pub enum ActionView {
    CheckComplete,
    FetchPeers,
    Start(Seq<PeerAddr>),
    Wait,
    Rest(u64),
    Finish,
    /// With the text of a start error.
    Fail(Seq<char>),
}

impl View for DownloadEvent {
    type V = EventView;

    open spec fn view(&self) -> EventView {
        match *self {
            DownloadEvent::ActorGone => EventView::ActorGone,
            DownloadEvent::Complete(complete) => EventView::Complete(complete),
            DownloadEvent::PeersFailed => EventView::PeersFailed,
            DownloadEvent::Peers(peers) => EventView::Peers(peers@),
            DownloadEvent::WorkerDone => EventView::WorkerDone,
            DownloadEvent::Rested => EventView::Rested,
        }
    }
}

impl View for DownloadAction {
    type V = ActionView;

    open spec fn view(&self) -> ActionView {
        match *self {
            DownloadAction::CheckComplete => ActionView::CheckComplete,
            DownloadAction::FetchPeers => ActionView::FetchPeers,
            DownloadAction::Start(peers) => ActionView::Start(peers@),
            DownloadAction::Wait => ActionView::Wait,
            DownloadAction::Rest(seconds) => ActionView::Rest(seconds),
            DownloadAction::Finish => ActionView::Finish,
            DownloadAction::Fail(Error::StartError(text)) => ActionView::Fail(text@),
        }
    }
}

/// The state of the download client.
pub struct TorrentClient {
    torrent: TorrentInfo,
    output_path: String,
    peers: Vec<PeerAddr>,
    // How many of the peers a worker was started for, and how many workers have not ended.
    tried: usize,
    active: usize,
    phase: DownloadPhase,
}

/// `TorrentClient` as a plain value.
#[verifier::ext_equal]
pub struct ClientView {
    /// The torrent to download.
    pub torrent: InfoView,
    /// Where the file goes.
    pub output_path: Seq<char>,
    /// The peers of this round.
    pub peers: Seq<PeerAddr>,
    /// For how many of them a worker was started.
    pub tried: int,
    /// How many workers have not ended.
    pub active: int,
    /// What the download is waiting for.
    pub phase: DownloadPhase,
}

impl View for TorrentClient {
    type V = ClientView;

    closed spec fn view(&self) -> ClientView {
        ClientView {
            torrent: self.torrent@,
            output_path: self.output_path@,
            peers: self.peers@,
            tried: self.tried as int,
            active: self.active as int,
            phase: self.phase,
        }
    }
}

/// The client with another phase.
pub open spec fn in_phase(v: ClientView, phase: DownloadPhase) -> ClientView {
    ClientView { phase, ..v }
}

/// What holds of a client at all times: while workers run, there are not too many of them, and
/// none without a peer.
pub open spec fn sound(v: ClientView) -> bool {
    v.phase is Running ==> {
        &&& 0 < v.active <= MAX_CONCURRENT_PEERS
        &&& v.active <= v.tried <= v.peers.len()
    }
}

/// A client for a torrent, not started yet. The path of the file is derived from the name of the
/// torrent.
pub open spec fn new_client(torrent: InfoView) -> ClientView {
    ClientView {
        torrent,
        output_path: "./"@ + torrent.name,
        peers: Seq::empty(),
        tried: 0,
        active: 0,
        phase: DownloadPhase::Done,
    }
}

/// The bits that the bitfield actor is to start with.
pub open spec fn initial_bits(torrent: InfoView) -> Seq<bool> {
    Seq::new(torrent.pieces.len() / 20, |i: int| false)
}

/// The number of peers to start with.
pub open spec fn first_peers(peers: Seq<PeerAddr>) -> int {
    if peers.len() <= MAX_CONCURRENT_PEERS {
        peers.len() as int
    } else {
        MAX_CONCURRENT_PEERS as int
    }
}

/// Whether the client waits for this event.
pub open spec fn accepts(v: ClientView, e: EventView) -> bool {
    match v.phase {
        DownloadPhase::Checking => e is ActorGone || e is Complete,
        DownloadPhase::Fetching => e is PeersFailed || e is Peers,
        DownloadPhase::Running => e is WorkerDone,
        DownloadPhase::Resting => e is Rested,
        DownloadPhase::Done => false,
    }
}

/// What an event makes of the client, and what the client then does. Until all pieces are here it
/// asks for peers and tries them one after the other, so many at a time.
pub open spec fn step_of(v: ClientView, e: EventView) -> (ClientView, ActionView) {
    match e {
        EventView::ActorGone => (
            in_phase(v, DownloadPhase::Done),
            ActionView::Fail("Bitfield actor dropped"@),
        ),
        EventView::Complete(complete) => if complete {
            (in_phase(v, DownloadPhase::Done), ActionView::Finish)
        } else {
            (in_phase(v, DownloadPhase::Fetching), ActionView::FetchPeers)
        },
        EventView::PeersFailed => (
            in_phase(v, DownloadPhase::Resting),
            ActionView::Rest(FETCH_REST),
        ),
        EventView::Peers(peers) => if peers.len() == 0 {
            (in_phase(v, DownloadPhase::Resting), ActionView::Rest(NO_PEERS_REST))
        } else {
            (
                ClientView {
                    peers,
                    tried: first_peers(peers),
                    active: first_peers(peers),
                    phase: DownloadPhase::Running,
                    ..v
                },
                ActionView::Start(peers.take(first_peers(peers))),
            )
        },
        EventView::WorkerDone => if v.tried < v.peers.len() {
            (ClientView { tried: v.tried + 1, ..v }, ActionView::Start(seq![v.peers[v.tried]]))
        } else if v.active > 1 {
            (ClientView { active: v.active - 1, ..v }, ActionView::Wait)
        } else {
            (
                ClientView { active: 0, phase: DownloadPhase::Resting, ..v },
                ActionView::Rest(ROUND_REST),
            )
        },
        EventView::Rested => (in_phase(v, DownloadPhase::Checking), ActionView::CheckComplete),
    }
}

impl TorrentClient {
    /// Creates a client for a torrent. The path of the file is derived from the name of the
    /// torrent.
    pub fn new(torrent: TorrentInfo) -> (r: Self)
        ensures
            r@ == (ClientView {
                torrent: torrent@,
                output_path: "./"@ + torrent.name@,
                peers: Seq::empty(),
                tried: 0,
                active: 0,
                phase: DownloadPhase::Done,
            }),
            r@ == new_client(torrent@),
            sound(r@),
    {
        let output_path: String = "./".to_owned().concat(torrent.name.as_str());
        TorrentClient {
            torrent,
            output_path,
            peers: Vec::new(),
            tried: 0,
            active: 0,
            phase: DownloadPhase::Done,
        }
    }

    /// The torrent to download.
    pub fn torrent(&self) -> (r: &TorrentInfo)
        ensures
            r@ == self@.torrent,
    {
        &self.torrent
    }

    /// Where the file goes.
    pub fn output_path(&self) -> (r: &str)
        ensures
            r@ == self@.output_path,
    {
        self.output_path.as_str()
    }

    /// Starts the download. The bitfield actor is to start with these bits, one for each piece and
    /// none of them set, and the client to ask it first whether all pieces are here.
    pub fn start(&mut self) -> (r: (Box<[bool]>, DownloadAction))
        ensures
            final(self)@ == in_phase(old(self)@, DownloadPhase::Checking),
            sound(final(self)@),
            r.0@ == Seq::new(old(self)@.torrent.pieces.len() / 20, |i: int| false),
            r.0@ == initial_bits(old(self)@.torrent),
            r.1@ == ActionView::CheckComplete,
    {
        let pieces: usize = self.torrent.pieces.len() / 20;
        let initial_bitfield: Box<[bool]> = boxed_bits(vec![false; pieces]);
        assert(initial_bitfield@ =~= Seq::new(
            self@.torrent.pieces.len() / 20,
            |i: int| false,
        ));
        self.phase = DownloadPhase::Checking;
        assert(self@ =~= in_phase(old(self)@, DownloadPhase::Checking));
        (initial_bitfield, DownloadAction::CheckComplete)
    }

    /// Whether the client waits for this event.
    pub fn accepts(&self, event: &DownloadEvent) -> (r: bool)
        ensures
            r == accepts(self@, event@),
    {
        match (self.phase, event) {
            (DownloadPhase::Checking, DownloadEvent::ActorGone) => true,
            (DownloadPhase::Checking, DownloadEvent::Complete(_)) => true,
            (DownloadPhase::Fetching, DownloadEvent::PeersFailed) => true,
            (DownloadPhase::Fetching, DownloadEvent::Peers(_)) => true,
            (DownloadPhase::Running, DownloadEvent::WorkerDone) => true,
            (DownloadPhase::Resting, DownloadEvent::Rested) => true,
            _ => false,
        }
    }

    /// Downloads the entire file: takes what has happened, and tells what to do next.
    pub fn download_file(&mut self, event: DownloadEvent) -> (action: DownloadAction)
        requires
            sound(old(self)@),
            accepts(old(self)@, event@),
        ensures
            (final(self)@, action@) == step_of(old(self)@, event@),
            sound(final(self)@),
    {
        match event {
            DownloadEvent::ActorGone => {
                self.phase = DownloadPhase::Done;
                assert(self@ =~= step_of(old(self)@, event@).0);
                DownloadAction::Fail(Error::StartError("Bitfield actor dropped".to_owned()))
            },
            DownloadEvent::Complete(complete) => if complete {
                self.phase = DownloadPhase::Done;
                assert(self@ =~= step_of(old(self)@, event@).0);
                DownloadAction::Finish
            } else {
                self.phase = DownloadPhase::Fetching;
                assert(self@ =~= step_of(old(self)@, event@).0);
                DownloadAction::FetchPeers
            },
            DownloadEvent::PeersFailed => {
                self.phase = DownloadPhase::Resting;
                assert(self@ =~= step_of(old(self)@, event@).0);
                DownloadAction::Rest(FETCH_REST)
            },
            DownloadEvent::Peers(peers) => {
                if peers.len() == 0 {
                    self.phase = DownloadPhase::Resting;
                    assert(self@ =~= step_of(old(self)@, event@).0);
                    return DownloadAction::Rest(NO_PEERS_REST);
                }
                let n: usize = if peers.len() <= MAX_CONCURRENT_PEERS {
                    peers.len()
                } else {
                    MAX_CONCURRENT_PEERS
                };
                let mut first: Vec<PeerAddr> = Vec::with_capacity(n);
                let mut i: usize = 0;
                while i < n
                    invariant
                        i <= n,
                        n <= peers@.len(),
                        first@ == peers@.take(i as int),
                    decreases n - i,
                {
                    first.push(peers[i]);
                    i += 1;
                    assert(first@ =~= peers@.take(i as int));
                }
                self.peers = peers;
                self.tried = n;
                self.active = n;
                self.phase = DownloadPhase::Running;
                assert(self@ =~= step_of(old(self)@, event@).0);
                DownloadAction::Start(first)
            },
            DownloadEvent::WorkerDone => {
                if self.tried < self.peers.len() {
                    let next: Vec<PeerAddr> = vec![self.peers[self.tried]];
                    assert(next@ =~= seq![self@.peers[self@.tried]]);
                    self.tried = self.tried + 1;
                    assert(self@ =~= step_of(old(self)@, event@).0);
                    DownloadAction::Start(next)
                } else if self.active > 1 {
                    self.active = self.active - 1;
                    assert(self@ =~= step_of(old(self)@, event@).0);
                    DownloadAction::Wait
                } else {
                    self.active = 0;
                    self.phase = DownloadPhase::Resting;
                    assert(self@ =~= step_of(old(self)@, event@).0);
                    DownloadAction::Rest(ROUND_REST)
                }
            },
            DownloadEvent::Rested => {
                self.phase = DownloadPhase::Checking;
                assert(self@ =~= step_of(old(self)@, event@).0);
                DownloadAction::CheckComplete
            },
        }
    }
}

/// A handshake has sixty-eight bytes; the digest of the torrent starts at byte 28, and the id of the
/// client, which sends it, at byte 48.
pub proof fn law_handshake_fields(info_hash: Seq<u8>, peer_id: Seq<u8>)
    requires
        info_hash.len() == 20,
        peer_id.len() == 20,
    ensures
        handshake_bytes(info_hash, peer_id).len() == 68,
        handshake_bytes(info_hash, peer_id).subrange(28, 48) == info_hash,
        handshake_bytes(info_hash, peer_id).subrange(48, 68) == peer_id,
{
    let bytes = handshake_bytes(info_hash, peer_id);
    assert(bytes.subrange(28, 48) =~= info_hash);
    assert(bytes.subrange(48, 68) =~= peer_id);
}

/// Every event leaves the client sound.
pub proof fn law_step_keeps_sound(v: ClientView, e: EventView)
    requires
        sound(v),
        accepts(v, e),
    ensures
        sound(step_of(v, e).0),
{
}

/// The client after so many workers have ended.
pub open spec fn after_workers(v: ClientView, ended: nat) -> ClientView
    decreases ended,
{
    if ended == 0 {
        v
    } else {
        step_of(after_workers(v, (ended - 1) as nat), EventView::WorkerDone).0
    }
}

/// In a round every peer is tried once, in the order of the list, and the client goes on only when
/// the last worker has ended. The first peers are started together; then, when a worker ends, the
/// next peer gets one, as long as there is one left. `ended` is the number of workers that have
/// ended before.
pub proof fn law_every_peer_is_tried_once(v: ClientView, peers: Seq<PeerAddr>, ended: nat)
    requires
        v.phase is Fetching,
        ended < peers.len(),
    ensures
        step_of(v, EventView::Peers(peers)).1 == ActionView::Start(
            peers.take(first_peers(peers)),
        ),
        ({
            let w = after_workers(step_of(v, EventView::Peers(peers)).0, ended);
            let next = first_peers(peers) + ended;
            let (after, action) = step_of(w, EventView::WorkerDone);
            &&& w.phase is Running
            &&& w.peers == peers
            &&& next < peers.len() ==> action == ActionView::Start(seq![peers[next]])
            &&& next >= peers.len() && ended + 1 < peers.len() ==> action is Wait
            &&& ended + 1 == peers.len() ==> action == ActionView::Rest(ROUND_REST)
        }),
{
    lemma_round(v, peers, ended);
}

proof fn lemma_round(v: ClientView, peers: Seq<PeerAddr>, ended: nat)
    requires
        v.phase is Fetching,
        ended < peers.len(),
    ensures
        ({
            let w = after_workers(step_of(v, EventView::Peers(peers)).0, ended);
            let next = first_peers(peers) + ended;
            &&& w.phase is Running
            &&& w.peers == peers
            &&& w.tried == if next < peers.len() {
                next
            } else {
                peers.len() as int
            }
            &&& w.active == w.tried - ended
        }),
    decreases ended,
{
    if ended > 0 {
        lemma_round(v, peers, (ended - 1) as nat);
    }
}

/// The download is complete when, and only when, every piece is here: in an account with a bit for
/// each piece, as the client starts it.
pub proof fn law_complete_with_every_piece(account: bitfield_actor::BitfieldView, pieces: nat)
    requires
        account.bitfield.len() == pieces,
    ensures
        bitfield_actor::complete(account) <==> forall|i: int|
            0 <= i < pieces ==> #[trigger] account.bitfield[i],
        bitfield_actor::reply_to(account, bitfield_actor::MsgView::IsComplete)
            == bitfield_actor::ReplyView::Flag(bitfield_actor::complete(account)),
{
}

/// Once the workers have reported every piece of the torrent, the download ends at the next check:
/// the account that the client starts with is then complete, whatever else the bitfield actor was
/// told, and the client finishes.
pub proof fn law_download_ends_with_the_last_piece(
    v: ClientView,
    account: bitfield_actor::BitfieldView,
    msgs: Seq<bitfield_actor::MsgView>,
)
    requires
        v.phase is Checking,
        v.torrent.pieces.len() <= usize::MAX,
        account.bitfield == Seq::new(v.torrent.pieces.len() / 20, |i: int| false),
        forall|i: usize|
            i < v.torrent.pieces.len() / 20 ==> #[trigger] msgs.contains(
                bitfield_actor::MsgView::Have(i),
            ),
    ensures
        ({
            let told = bitfield_actor::after_messages(account, msgs);
            &&& bitfield_actor::reply_to(told, bitfield_actor::MsgView::IsComplete)
                == bitfield_actor::ReplyView::Flag(true)
            &&& accepts(v, EventView::Complete(true))
            &&& step_of(v, EventView::Complete(true)).1 is Finish
        }),
{
    bitfield_actor::law_complete_when_every_piece_was_reported(account, msgs);
}

/// A handshake starts with the length of the name of the protocol and that name, `BitTorrent
/// protocol`, letter by letter; the eight bytes behind it are zero.
pub proof fn law_handshake_opens_with_the_protocol(info_hash: Seq<u8>, peer_id: Seq<u8>, i: int)
    ensures
        handshake_bytes(info_hash, peer_id)[0] == "BitTorrent protocol"@.len(),
        0 <= i < "BitTorrent protocol"@.len() ==> handshake_bytes(info_hash, peer_id)[1 + i]
            == "BitTorrent protocol"@[i] as u8,
        20 <= i < 28 ==> handshake_bytes(info_hash, peer_id)[i] == 0,
{
    reveal_strlit("BitTorrent protocol");
    assert(protocol_name() =~= ascii("BitTorrent protocol"@));
}

/// The id of a client has twenty bytes: `-BF0001-`, letter by letter, and then its own twelve in
/// their order.
pub proof fn law_client_id_fields(own: Seq<u8>, i: int)
    requires
        own.len() == 12,
    ensures
        client_id(own).len() == 20,
        "-BF0001-"@.len() == 8,
        0 <= i < 8 ==> client_id(own)[i] == "-BF0001-"@[i] as u8,
        0 <= i < 12 ==> client_id(own)[8 + i] == own[i],
{
    reveal_strlit("-BF0001-");
}

/// A request that connects and announces at once has ninety-eight bytes: the number that opens a
/// connection, an action of zero, the number of the transaction, the digest of the torrent and the
/// id of the client in their order, nothing downloaded, left or uploaded, no event and no address,
/// the key, as many peers as the tracker sees fit, and the port.
pub proof fn law_udp_request_fields(
    transaction: u32,
    info_hash: Seq<u8>,
    peer_id: Seq<u8>,
    key: u32,
)
    requires
        info_hash.len() == 20,
        peer_id.len() == 20,
    ensures
        ({
            let bytes = udp_request(transaction, info_hash, peer_id, key);
            &&& bytes.len() == 98
            &&& number(bytes.subrange(0, 8)) == 0x417_2710_1980
            &&& number(bytes.subrange(8, 12)) == 0
            &&& number(bytes.subrange(12, 16)) == transaction
            &&& bytes.subrange(16, 36) == info_hash
            &&& bytes.subrange(36, 56) == peer_id
            &&& forall|i: int| 56 <= i < 88 ==> #[trigger] bytes[i] == 0
            &&& number(bytes.subrange(88, 92)) == key
            &&& number(bytes.subrange(92, 96)) == 0xffff_ffff
            &&& number(bytes.subrange(96, 98)) == 6881
        }),
{
    let bytes = udp_request(transaction, info_hash, peer_id, key);
    law_bytes_stand_for_the_number(6881, 0, 0x417_2710_1980);
    law_bytes_stand_for_the_number(0, transaction, 0);
    law_bytes_stand_for_the_number(0, key, 0);
    law_bytes_stand_for_the_number(0, 0xffff_ffff, 0);
    assert(bytes.subrange(0, 8) =~= be64(0x417_2710_1980));
    assert(bytes.subrange(8, 12) =~= be32(0));
    assert(bytes.subrange(12, 16) =~= be32(transaction));
    assert(bytes.subrange(16, 36) =~= info_hash);
    assert(bytes.subrange(36, 56) =~= peer_id);
    assert(bytes.subrange(88, 92) =~= be32(key));
    assert(bytes.subrange(92, 96) =~= be32(0xffff_ffff));
    assert(bytes.subrange(96, 98) =~= be16(6881));
}

/// A new client has the torrent that it was made for, writes to the name of the torrent in the
/// current directory, knows no peers and waits for nothing.
pub proof fn law_new_client(torrent: InfoView, e: EventView)
    ensures
        new_client(torrent).torrent == torrent,
        new_client(torrent).output_path.len() == torrent.name.len() + 2,
        new_client(torrent).output_path[0] == '.',
        new_client(torrent).output_path[1] == '/',
        new_client(torrent).output_path.skip(2) == torrent.name,
        new_client(torrent).peers.len() == 0,
        !accepts(new_client(torrent), e),
{
    reveal_strlit("./");
    assert(new_client(torrent).output_path.skip(2) =~= torrent.name);
}

/// A download starts with one bit for each piece, and a piece for each twenty bytes of digests;
/// none of them is here.
pub proof fn law_download_starts_with_nothing(torrent: InfoView, i: int)
    ensures
        20 * initial_bits(torrent).len() <= torrent.pieces.len(),
        torrent.pieces.len() < 20 * initial_bits(torrent).len() + 20,
        0 <= i < initial_bits(torrent).len() ==> !initial_bits(torrent)[i],
{
}

/// The client waits for one thing at a time: for the state of the download, for peers, for the end
/// of a worker, or for the end of a rest; and for nothing once it has ended.
pub proof fn law_client_waits_for_one_thing(v: ClientView, e: EventView)
    ensures
        e is ActorGone || e is Complete ==> (accepts(v, e) <==> v.phase is Checking),
        e is PeersFailed || e is Peers ==> (accepts(v, e) <==> v.phase is Fetching),
        e is WorkerDone ==> (accepts(v, e) <==> v.phase is Running),
        e is Rested ==> (accepts(v, e) <==> v.phase is Resting),
{
}

/// The download ends well exactly when the client is told that every piece is here. While pieces are
/// missing the client asks for peers, in the first round and in every later one.
pub proof fn law_download_goes_on_until_every_piece_is_here(v: ClientView, e: EventView)
    requires
        accepts(v, e),
    ensures
        step_of(v, e).1 is Finish <==> e == EventView::Complete(true),
        e == EventView::Complete(false) ==> step_of(v, e).1 is FetchPeers && step_of(v, e).0.phase
            is Fetching,
        step_of(v, e).1 is FetchPeers ==> e == EventView::Complete(false),
        step_of(v, e).0.phase is Done <==> step_of(v, e).1 is Finish || step_of(v, e).1 is Fail,
{
}

/// The download fails exactly when the bitfield actor cannot be reached, and says so.
pub proof fn law_download_fails_without_the_actor(v: ClientView, e: EventView)
    requires
        accepts(v, e),
    ensures
        step_of(v, e).1 is Fail <==> e is ActorGone,
        step_of(v, e).1 matches ActionView::Fail(text) ==> text == "Bitfield actor dropped"@,
{
}

/// The client rests for five seconds where it could not ask for peers, for ten where there are
/// none, and for five when the last worker of a round has ended. After each rest it asks whether
/// every piece is here.
pub proof fn law_client_rests_and_checks(v: ClientView, e: EventView)
    requires
        sound(v),
        accepts(v, e),
    ensures
        e is PeersFailed ==> step_of(v, e).1 == ActionView::Rest(5),
        e matches EventView::Peers(peers) ==> (peers.len() == 0 <==> step_of(v, e).1 is Rest),
        e matches EventView::Peers(peers) ==> peers.len() == 0 ==> step_of(v, e).1
            == ActionView::Rest(10),
        e is WorkerDone && step_of(v, e).1 is Rest ==> step_of(v, e).1 == ActionView::Rest(5),
        step_of(v, e).1 is Rest <==> step_of(v, e).0.phase is Resting,
        e is Rested <==> step_of(v, e).1 is CheckComplete,
        e is Rested ==> step_of(v, e).0.phase is Checking,
{
}

/// With peers the client starts workers for the first thirty of them, or for all where there are
/// fewer, in the order of the list.
pub proof fn law_thirty_peers_at_a_time(v: ClientView, peers: Seq<PeerAddr>, i: int)
    requires
        v.phase is Fetching,
        peers.len() > 0,
    ensures
        ({
            let (w, action) = step_of(v, EventView::Peers(peers));
            &&& w.phase is Running
            &&& w.peers == peers
            &&& action matches ActionView::Start(first) && {
                &&& first.len() <= 30
                &&& first.len() <= peers.len()
                &&& first.len() == 30 || first.len() == peers.len()
                &&& 0 <= i < first.len() ==> first[i] == peers[i]
                &&& w.active == first.len()
                &&& w.tried == first.len()
            }
        }),
{
}

/// When a worker ends, the next peer that was not tried gets one. Where every peer was tried, the
/// client waits while workers are left, and the round is over with the last of them.
pub proof fn law_next_peer_gets_the_place(v: ClientView)
    requires
        sound(v),
        v.phase is Running,
    ensures
        ({
            let (w, action) = step_of(v, EventView::WorkerDone);
            &&& w.peers == v.peers
            &&& v.tried < v.peers.len() ==> {
                &&& action == ActionView::Start(seq![v.peers[v.tried]])
                &&& w.tried == v.tried + 1
                &&& w.active == v.active
                &&& w.phase is Running
            }
            &&& v.tried >= v.peers.len() && v.active > 1 ==> {
                &&& action is Wait
                &&& w.tried == v.tried
                &&& w.active == v.active - 1
                &&& w.phase is Running
            }
            &&& v.tried >= v.peers.len() && v.active == 1 ==> {
                &&& action == ActionView::Rest(5)
                &&& w.active == 0
                &&& w.phase is Resting
            }
        }),
{
}

/// Whatever happens, the client keeps its torrent and the path of its file; and it keeps its peers
/// and its workers but where peers come or a worker ends.
pub proof fn law_client_keeps_its_torrent(v: ClientView, e: EventView)
    requires
        accepts(v, e),
    ensures
        step_of(v, e).0.torrent == v.torrent,
        step_of(v, e).0.output_path == v.output_path,
        !(e is Peers) ==> step_of(v, e).0.peers == v.peers,
        !(e is Peers) && !(e is WorkerDone) ==> step_of(v, e).0.tried == v.tried && step_of(
            v,
            e,
        ).0.active == v.active,
{
}

/// The client after these events.
pub open spec fn after_events(v: ClientView, events: Seq<EventView>) -> ClientView
    decreases events.len(),
{
    if events.len() == 0 {
        v
    } else {
        step_of(after_events(v, events.drop_last()), events.last()).0
    }
}

/// Whether the client waits for each of these events in turn.
pub open spec fn accepts_all(v: ClientView, events: Seq<EventView>) -> bool
    decreases events.len(),
{
    events.len() == 0 || {
        &&& accepts_all(v, events.drop_last())
        &&& accepts(after_events(v, events.drop_last()), events.last())
    }
}

/// However a download goes, in whatever round it is: as long as the client has been told neither
/// that every piece is here nor that the bitfield actor is gone, it has not ended, and there is an
/// event that it waits for.
pub proof fn law_download_does_not_end_early(v: ClientView, events: Seq<EventView>)
    requires
        !(v.phase is Done),
        accepts_all(v, events),
        forall|i: int|
            0 <= i < events.len() ==> #[trigger] events[i] != EventView::Complete(true) && !(events[i]
                is ActorGone),
    ensures
        !(after_events(v, events).phase is Done),
        exists|e: EventView| accepts(after_events(v, events), e),
    decreases events.len(),
{
    if events.len() > 0 {
        let earlier = events.drop_last();
        assert forall|i: int| 0 <= i < earlier.len() implies #[trigger] earlier[i]
            != EventView::Complete(true) && !(earlier[i] is ActorGone) by {
            assert(earlier[i] == events[i]);
        }
        law_download_does_not_end_early(v, earlier);
        assert(events[events.len() - 1] == events.last());
    }
    let w = after_events(v, events);
    assert(accepts(w, EventView::Rested) || accepts(w, EventView::WorkerDone) || accepts(
        w,
        EventView::PeersFailed,
    ) || accepts(w, EventView::ActorGone));
}

/// The plain values of events and actions tell what these hold: the same answer, the same peers in
/// their order, the same seconds, the same text.
pub proof fn law_plain_events_and_actions(event: DownloadEvent, action: DownloadAction)
    ensures
        event is ActorGone <==> event@ is ActorGone,
        event matches DownloadEvent::Complete(complete) ==> event@ == EventView::Complete(complete),
        event is PeersFailed <==> event@ is PeersFailed,
        event matches DownloadEvent::Peers(peers) ==> event@ == EventView::Peers(peers@),
        event is WorkerDone <==> event@ is WorkerDone,
        event is Rested <==> event@ is Rested,
        action is CheckComplete <==> action@ is CheckComplete,
        action is FetchPeers <==> action@ is FetchPeers,
        action matches DownloadAction::Start(peers) ==> action@ == ActionView::Start(peers@),
        action is Wait <==> action@ is Wait,
        action matches DownloadAction::Rest(seconds) ==> action@ == ActionView::Rest(seconds),
        action is Finish <==> action@ is Finish,
        action matches DownloadAction::Fail(error) ==> action@ == ActionView::Fail(
            error->StartError_0@,
        ),
{
}

} // verus!
