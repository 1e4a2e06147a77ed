//! Asking trackers for peers.
//!
//! A `TrackerTask` asks one tracker, over UDP or HTTP. It decides; it neither sends nor receives.
//! Each step takes what has happened, a `TrackerEvent`, and gives what is to be done next, a
//! `TrackerAction`.
use crate::bencode::{decode_whole, entry_of, reply_decoded, Bencode, Tree};
use crate::random::random_u32;
use crate::text::{
    ascii, ascii_bytes, before, decimal, encode_binary, has_prefix, law_digits_stand_for_the_number,
    law_part_before_the_first, law_percent_encoding_is_read_back, law_prefix_is_taken_off,
    law_prefix_is_the_start, part_before, percent_decoded, percent_encoded, push_decimal,
    starts_with, trim_start, url_char, value_of, without_prefix,
};
use crate::torrent::{InfoView, TorrentInfo};
use crate::wire::{
    be16, be32, be64, law_bytes_stand_for_the_number, law_read_number_is_that_of_the_bytes, number,
    push_be16, push_be32, push_be64, read16, read32, read_be16, read_be32,
};
use std::collections::HashSet;
use vstd::prelude::*;
use vstd::string::*;

verus! {

/// The port that this client names to trackers.
pub const DEFAULT_PORT: u16 = 6881;

/// The number that opens a connection to a UDP tracker.
pub const PROTOCOL_ID: u64 = 0x417_2710_1980;

/// How long to wait for the answer of a UDP tracker, in seconds.
pub const REPLY_TIMEOUT: u64 = 3;

/// The most bytes of the answer to a connect request.
pub const CONNECT_REPLY_MAX: usize = 512;

/// The most bytes of the answer to an announce request.
pub const ANNOUNCE_REPLY_MAX: usize = 4096;

/// The address of a peer: the four bytes of its IP address as a number, the heaviest first, and
/// its port.
#[derive(Clone, Copy, PartialEq, Eq, Structural, Debug)]
pub struct PeerAddr {
    pub ip: u32,
    pub port: u16,
}

/// The peers that a tracker names, in six bytes each: four for the IP address and two for the
/// port. What is left over at the end is passed over.
pub open spec fn peers_in(bytes: Seq<u8>) -> Seq<PeerAddr> {
    Seq::new(
        bytes.len() / 6,
        |i: int| PeerAddr { ip: read32(bytes, 6 * i), port: read16(bytes, 6 * i + 4) },
    )
}

/// Reads the peers that a tracker names.
pub fn compact_peers(bytes: &[u8], from: usize) -> (r: Vec<PeerAddr>)
    requires
        from <= bytes@.len(),
    ensures
        r@ == peers_in(bytes@.skip(from as int)),
{
    let ghost tail = bytes@.skip(from as int);
    let mut peers: Vec<PeerAddr> = Vec::new();
    let mut at: usize = from;
    while bytes.len() - at >= 6
        invariant
            from <= at <= bytes.len(),
            tail == bytes@.skip(from as int),
            at == from + 6 * peers@.len(),
            peers@ == peers_in(tail).take(peers@.len() as int),
            peers@.len() <= tail.len() / 6,
        decreases bytes@.len() - at,
    {
        let ghost n = peers@.len() as int;
        let peer = PeerAddr { ip: read_be32(bytes, at), port: read_be16(bytes, at + 4) };
        proof {
            assert(tail[6 * n] == bytes@[at as int]);
            assert(tail[6 * n + 1] == bytes@[at + 1]);
            assert(tail[6 * n + 2] == bytes@[at + 2]);
            assert(tail[6 * n + 3] == bytes@[at + 3]);
            assert(tail[6 * n + 4] == bytes@[at + 4]);
            assert(tail[6 * n + 5] == bytes@[at + 5]);
            assert(peer == peers_in(tail)[n]);
        }
        peers.push(peer);
        at += 6;
        assert(peers@ =~= peers_in(tail).take(n + 1));
    }
    assert(peers@ =~= peers_in(tail));
    peers
}

/// The request that opens a connection to a UDP tracker.
pub open spec fn connect_request(transaction: u32) -> Seq<u8> {
    be64(PROTOCOL_ID) + be32(0) + be32(transaction)
}

/// The request for peers to a UDP tracker, on a connection that the tracker knows by eight bytes.
/// This client has downloaded and uploaded nothing and has so much left; it has nothing special to
/// report, leaves its address to be told from the datagram, and wants as many peers as the tracker
/// sees fit.
pub open spec fn announce_request(
    connection: Seq<u8>,
    transaction: u32,
    info_hash: Seq<u8>,
    id: Seq<u8>,
    left: u64,
    key: u32,
) -> Seq<u8> {
    connection + be32(1) + be32(transaction) + info_hash + id + be64(0) + be64(left) + be64(0)
        + be32(0) + be32(0) + be32(key) + be32(0xffff_ffff) + be16(DEFAULT_PORT)
}

/// The request to an HTTP tracker.
pub open spec fn http_request(
    announce: Seq<char>,
    info_hash: Seq<u8>,
    id: Seq<u8>,
    left: u64,
) -> Seq<char> {
    announce + "?info_hash="@ + percent_encoded(info_hash) + "&peer_id="@ + percent_encoded(id)
        + "&port="@ + decimal(DEFAULT_PORT as nat) + "&uploaded=0&downloaded=0&left="@ + decimal(
        left as nat,
    ) + "&compact=1"@
}

/// The host and port of a UDP tracker: what stands between the scheme and the first slash.
pub open spec fn udp_host(announce: Seq<char>) -> Seq<char> {
    part_before(without_prefix(announce, "udp://"@), '/', 0)
}

/// The peers that the answer of an HTTP tracker names.
pub open spec fn peers_of_reply(reply: Tree) -> Seq<PeerAddr> {
    match entry_of(reply, ascii("peers"@)) {
        Some(Tree::Bytes(bytes)) => peers_in(bytes),
        _ => Seq::empty(),
    }
}

/// Builds the request that opens a connection to a UDP tracker.
pub fn create_connect_request(transaction: u32) -> (r: Vec<u8>)
    ensures
        r@ == connect_request(transaction),
{
    let mut request: Vec<u8> = Vec::with_capacity(16);
    push_be64(&mut request, PROTOCOL_ID);
    push_be32(&mut request, 0);
    push_be32(&mut request, transaction);
    assert(request@ =~= connect_request(transaction));
    request
}

/// Builds the request for peers to a UDP tracker.
pub fn create_announce_request(
    connection: &[u8],
    transaction: u32,
    info_hash: &[u8; 20],
    id: &[u8; 20],
    left: u64,
    key: u32,
) -> (r: Vec<u8>)
    ensures
        r@ == announce_request(connection@, transaction, info_hash@, id@, left, key),
{
    let mut request: Vec<u8> = Vec::with_capacity(98);
    request.extend_from_slice(connection);
    push_be32(&mut request, 1);
    push_be32(&mut request, transaction);
    request.extend_from_slice(info_hash);
    request.extend_from_slice(id);
    push_be64(&mut request, 0);
    push_be64(&mut request, left);
    push_be64(&mut request, 0);
    push_be32(&mut request, 0);
    push_be32(&mut request, 0);
    push_be32(&mut request, key);
    push_be32(&mut request, 0xffff_ffff);
    push_be16(&mut request, DEFAULT_PORT);
    assert(request@ =~= announce_request(
        connection@,
        transaction,
        info_hash@,
        id@,
        left,
        key,
    ));
    request
}

/// Builds the request to an HTTP tracker.
pub fn create_http_request(
    announce: &str,
    info_hash: &[u8; 20],
    id: &[u8; 20],
    left: u64,
) -> (r: String)
    ensures
        r@ == http_request(announce@, info_hash@, id@, left),
{
    let mut url: String = announce.to_owned();
    url.append("?info_hash=");
    url.append(encode_binary(info_hash).as_str());
    url.append("&peer_id=");
    url.append(encode_binary(id).as_str());
    url.append("&port=");
    push_decimal(&mut url, DEFAULT_PORT as u64);
    url.append("&uploaded=0&downloaded=0&left=");
    push_decimal(&mut url, left);
    url.append("&compact=1");
    url
}

/// Reads the peers that the decoded answer of an HTTP tracker names.
pub fn reply_peers(reply: &Bencode) -> (r: Vec<PeerAddr>)
    ensures
        r@ == peers_of_reply(reply@),
{
    proof {
        reveal_strlit("peers");
    }
    match reply.get(ascii_bytes("peers")) {
        Some(Bencode::Bytes(bytes)) => {
            assert(bytes@.skip(0) =~= bytes@);
            compact_peers(bytes.as_slice(), 0)
        },
        _ => Vec::new(),
    }
}

/// What a task is waiting for.
#[derive(Clone, Copy, PartialEq, Eq, Structural, Debug)]
pub enum TrackerPhase {
    /// To be started.
    Idle,
    /// The address of the tracker.
    Resolving,
    /// A socket.
    Binding,
    /// The answer to the connect request with this transaction number.
    Connecting(u32),
    /// The answer to the announce request.
    Announcing,
    /// The answer of an HTTP tracker.
    Fetching,
    /// Nothing: the task has ended.
    Done,
}

/// What has happened.
pub enum TrackerEvent {
    /// Whether the address of the tracker was found.
    Resolved(bool),
    /// Whether there is a socket.
    Bound(bool),
    /// The tracker has answered, or it has not in time.
    Received(Option<Vec<u8>>),
}

/// What is to be done next.
pub enum TrackerAction {
    /// Find the address that belongs to this host and port.
    Resolve(String),
    /// Open a socket.
    Bind,
    /// Send this datagram to the tracker, and wait for an answer of so many bytes at most.
    Exchange(Vec<u8>, usize),
    /// Fetch this URL.
    Get(String),
    /// End: these are the peers.
    Finish(Vec<PeerAddr>),
}

/// `TrackerEvent` as a plain value.
pub enum EventView {
    Resolved(bool),
    Bound(bool),
    Received(Option<Seq<u8>>),
}

/// `TrackerAction` as a plain value.
#[verifier::ext_equal]
pub enum ActionView {
    Resolve(Seq<char>),
    Bind,
    Exchange(Seq<u8>, usize),
    Get(Seq<char>),
    Finish(Seq<PeerAddr>),
}

impl View for TrackerEvent {
    type V = EventView;

    open spec fn view(&self) -> EventView {
        match *self {
            TrackerEvent::Resolved(ok) => EventView::Resolved(ok),
            TrackerEvent::Bound(ok) => EventView::Bound(ok),
            TrackerEvent::Received(Some(reply)) => EventView::Received(Some(reply@)),
            TrackerEvent::Received(None) => EventView::Received(None),
        }
    }
}

impl View for TrackerAction {
    type V = ActionView;

    open spec fn view(&self) -> ActionView {
        match *self {
            TrackerAction::Resolve(host) => ActionView::Resolve(host@),
            TrackerAction::Bind => ActionView::Bind,
            TrackerAction::Exchange(datagram, max) => ActionView::Exchange(datagram@, max),
            TrackerAction::Get(url) => ActionView::Get(url@),
            TrackerAction::Finish(peers) => ActionView::Finish(peers@),
        }
    }
}

/// Asks one tracker for peers.
pub struct TrackerTask {
    announce: String,
    info_hash: [u8; 20],
    id: [u8; 20],
    left: u64,
    phase: TrackerPhase,
}

/// `TrackerTask` as a plain value.
#[verifier::ext_equal]
pub struct TaskView {
    /// The URL of the tracker.
    pub announce: Seq<char>,
    /// The digest of the torrent.
    pub info_hash: Seq<u8>,
    /// The id of this client.
    pub id: Seq<u8>,
    /// How many bytes are left to download.
    pub left: u64,
    /// What the task is waiting for.
    pub phase: TrackerPhase,
}

impl View for TrackerTask {
    type V = TaskView;

    closed spec fn view(&self) -> TaskView {
        TaskView {
            announce: self.announce@,
            info_hash: self.info_hash@,
            id: self.id@,
            left: self.left,
            phase: self.phase,
        }
    }
}

/// The task with another phase.
pub open spec fn in_phase(v: TaskView, phase: TrackerPhase) -> TaskView {
    TaskView { phase, ..v }
}

/// A task, not started yet, that asks the tracker at this URL for peers of a torrent.
pub open spec fn new_task(announce: Seq<char>, torrent: InfoView, id: Seq<u8>) -> TaskView {
    TaskView {
        announce,
        info_hash: torrent.info_hash,
        id,
        left: match torrent.length {
            Some(length) => length,
            None => 0,
        },
        phase: TrackerPhase::Idle,
    }
}

/// The task ends with these peers.
pub open spec fn finished(v: TaskView, peers: Seq<PeerAddr>) -> (TaskView, ActionView) {
    (in_phase(v, TrackerPhase::Done), ActionView::Finish(peers))
}

/// How the task starts: the scheme of the URL decides. A tracker of any other scheme is not asked.
pub open spec fn start_of(v: TaskView) -> (TaskView, ActionView) {
    if has_prefix(v.announce, "udp://"@) {
        (
            in_phase(v, TrackerPhase::Resolving),
            ActionView::Resolve(udp_host(v.announce)),
        )
    } else if has_prefix(v.announce, "http://"@) || has_prefix(v.announce, "https://"@) {
        (
            in_phase(v, TrackerPhase::Fetching),
            ActionView::Get(http_request(v.announce, v.info_hash, v.id, v.left)),
        )
    } else {
        finished(v, Seq::empty())
    }
}

/// Whether the bytes are the answer to the connect request with this transaction number.
pub open spec fn connected(reply: Seq<u8>, transaction: u32) -> bool {
    reply.len() >= 16 && read32(reply, 0) == 0 && read32(reply, 4) == transaction
}

/// Whether the bytes are the answer to an announce request.
pub open spec fn announced(reply: Seq<u8>) -> bool {
    reply.len() >= 20 && read32(reply, 0) == 1
}

/// Whether the task waits for this event.
pub open spec fn accepts(v: TaskView, e: EventView) -> bool {
    match v.phase {
        TrackerPhase::Resolving => e is Resolved,
        TrackerPhase::Binding => e is Bound,
        TrackerPhase::Connecting(_) | TrackerPhase::Announcing | TrackerPhase::Fetching => e is Received,
        _ => false,
    }
}

/// What an event makes of the task, and what the task then does, where these are the numbers that
/// it draws for a transaction and for a key. Whatever goes wrong, the task ends without peers.
pub open spec fn step_of(v: TaskView, e: EventView, transaction: u32, key: u32) -> (
    TaskView,
    ActionView,
) {
    match (v.phase, e) {
        (TrackerPhase::Resolving, EventView::Resolved(true)) => (
            in_phase(v, TrackerPhase::Binding),
            ActionView::Bind,
        ),
        (TrackerPhase::Binding, EventView::Bound(true)) => (
            in_phase(v, TrackerPhase::Connecting(transaction)),
            ActionView::Exchange(connect_request(transaction), CONNECT_REPLY_MAX),
        ),
        (TrackerPhase::Connecting(expected), EventView::Received(Some(reply))) => if connected(
            reply,
            expected,
        ) {
            (
                in_phase(v, TrackerPhase::Announcing),
                ActionView::Exchange(
                    announce_request(
                        reply.subrange(8, 16),
                        transaction,
                        v.info_hash,
                        v.id,
                        v.left,
                        key,
                    ),
                    ANNOUNCE_REPLY_MAX,
                ),
            )
        } else {
            finished(v, Seq::empty())
        },
        (TrackerPhase::Announcing, EventView::Received(Some(reply))) => if announced(reply) {
            finished(v, peers_in(reply.skip(20)))
        } else {
            finished(v, Seq::empty())
        },
        (TrackerPhase::Fetching, EventView::Received(Some(reply))) => match reply_decoded(
            reply,
            usize::BITS,
        ) {
            Some(tree) => finished(v, peers_of_reply(tree)),
            None => finished(v, Seq::empty()),
        },
        _ => finished(v, Seq::empty()),
    }
}

impl TrackerTask {
    /// A task that asks the tracker at this URL for peers of a torrent.
    pub fn new(announce: &str, torrent: &TorrentInfo, id: [u8; 20]) -> (r: Self)
        ensures
            r@ == new_task(announce@, torrent@, id@),
    {
        TrackerTask {
            announce: announce.to_owned(),
            info_hash: torrent.info_hash,
            id,
            left: match torrent.length {
                Some(length) => length,
                None => 0,
            },
            phase: TrackerPhase::Idle,
        }
    }

    fn finish(&mut self, peers: Vec<PeerAddr>) -> (action: TrackerAction)
        ensures
            (final(self)@, action@) == finished(old(self)@, peers@),
    {
        self.phase = TrackerPhase::Done;
        assert(self@ =~= in_phase(old(self)@, TrackerPhase::Done));
        TrackerAction::Finish(peers)
    }

    /// Starts the task.
    pub fn start(&mut self) -> (action: TrackerAction)
        ensures
            (final(self)@, action@) == start_of(old(self)@),
    {
        proof {
            reveal_strlit("udp://");
        }
        if starts_with(self.announce.as_str(), "udp://") {
            let host: String = before(trim_start(self.announce.as_str(), "udp://"), '/').to_owned();
            self.phase = TrackerPhase::Resolving;
            assert(self@ =~= in_phase(old(self)@, TrackerPhase::Resolving));
            TrackerAction::Resolve(host)
        } else if starts_with(self.announce.as_str(), "http://") || starts_with(
            self.announce.as_str(),
            "https://",
        ) {
            let url: String = create_http_request(
                self.announce.as_str(),
                &self.info_hash,
                &self.id,
                self.left,
            );
            self.phase = TrackerPhase::Fetching;
            assert(self@ =~= in_phase(old(self)@, TrackerPhase::Fetching));
            TrackerAction::Get(url)
        } else {
            self.finish(Vec::new())
        }
    }

    /// Whether the task waits for this event.
    pub fn accepts(&self, event: &TrackerEvent) -> (r: bool)
        ensures
            r == accepts(self@, event@),
    {
        match (self.phase, event) {
            (TrackerPhase::Resolving, TrackerEvent::Resolved(_)) => true,
            (TrackerPhase::Binding, TrackerEvent::Bound(_)) => true,
            (TrackerPhase::Connecting(_), TrackerEvent::Received(_)) => true,
            (TrackerPhase::Announcing, TrackerEvent::Received(_)) => true,
            (TrackerPhase::Fetching, TrackerEvent::Received(_)) => true,
            _ => false,
        }
    }

    /// Takes what has happened, and tells what to do next. Where a transaction or a key needs a
    /// number, it is one of these.
    pub fn step_with(&mut self, event: TrackerEvent, transaction: u32, key: u32) -> (action:
        TrackerAction)
        requires
            accepts(old(self)@, event@),
        ensures
            (final(self)@, action@) == step_of(old(self)@, event@, transaction, key),
    {
        match event {
            TrackerEvent::Resolved(ok) => if ok {
                self.phase = TrackerPhase::Binding;
                assert(self@ =~= in_phase(old(self)@, TrackerPhase::Binding));
                TrackerAction::Bind
            } else {
                self.finish(Vec::new())
            },
            TrackerEvent::Bound(ok) => if ok {
                self.phase = TrackerPhase::Connecting(transaction);
                assert(self@ =~= in_phase(old(self)@, TrackerPhase::Connecting(transaction)));
                TrackerAction::Exchange(create_connect_request(transaction), CONNECT_REPLY_MAX)
            } else {
                self.finish(Vec::new())
            },
            TrackerEvent::Received(None) => self.finish(Vec::new()),
            TrackerEvent::Received(Some(reply)) => match self.phase {
                TrackerPhase::Connecting(expected) => if reply.len() >= 16 && read_be32(
                    reply.as_slice(),
                    0,
                ) == 0 && read_be32(reply.as_slice(), 4) == expected {
                    let connection: &[u8] = vstd::slice::slice_subrange(reply.as_slice(), 8, 16);
                    let request: Vec<u8> = create_announce_request(
                        connection,
                        transaction,
                        &self.info_hash,
                        &self.id,
                        self.left,
                        key,
                    );
                    self.phase = TrackerPhase::Announcing;
                    assert(self@ =~= in_phase(old(self)@, TrackerPhase::Announcing));
                    TrackerAction::Exchange(request, ANNOUNCE_REPLY_MAX)
                } else {
                    self.finish(Vec::new())
                },
                TrackerPhase::Announcing => if reply.len() >= 20 && read_be32(
                    reply.as_slice(),
                    0,
                ) == 1 {
                    self.finish(compact_peers(reply.as_slice(), 20))
                } else {
                    self.finish(Vec::new())
                },
                _ => match decode_whole(reply.as_slice()) {
                    Some(value) => self.finish(reply_peers(&value)),
                    None => self.finish(Vec::new()),
                },
            },
        }
    }

    /// Takes what has happened, and tells what to do next.
    pub fn step(&mut self, event: TrackerEvent) -> (action: TrackerAction)
        requires
            accepts(old(self)@, event@),
        ensures
            exists|transaction: u32, key: u32|
                (final(self)@, action@) == #[trigger] step_of(
                    old(self)@,
                    event@,
                    transaction,
                    key,
                ),
    {
        let transaction: u32 = random_u32();
        let key: u32 = random_u32();
        self.step_with(event, transaction, key)
    }
}

/// The tasks that ask the trackers of a torrent, one for each of them, in their order.
pub fn tracker_tasks(torrent: &TorrentInfo, id: [u8; 20]) -> (r: Vec<TrackerTask>)
    ensures
        r@.len() == torrent.announce_list@.len(),
        forall|i: int|
            0 <= i < r@.len() ==> (#[trigger] r@[i])@ == new_task(
                torrent.announce_list@[i]@,
                torrent@,
                id@,
            ),
{
    let mut tasks: Vec<TrackerTask> = Vec::new();
    let mut i: usize = 0;
    while i < torrent.announce_list.len()
        invariant
            i <= torrent.announce_list@.len(),
            tasks@.len() == i,
            forall|k: int|
                0 <= k < i ==> (#[trigger] tasks@[k])@ == new_task(
                    torrent.announce_list@[k]@,
                    torrent@,
                    id@,
                ),
        decreases torrent.announce_list@.len() - i,
    {
        tasks.push(TrackerTask::new(torrent.announce_list[i].as_str(), torrent, id));
        i += 1;
    }
    tasks
}

/// The peers that tasks have found, in their order. A task that failed has found none.
pub open spec fn found(results: Seq<Option<Vec<PeerAddr>>>) -> Seq<PeerAddr>
    decreases results.len(),
{
    if results.len() == 0 {
        Seq::empty()
    } else {
        found(results.drop_last()) + match results.last() {
            Some(peers) => peers@,
            None => Seq::empty(),
        }
    }
}

/// A list of peers with each of them once, where it comes first.
pub open spec fn each_once(peers: Seq<PeerAddr>) -> Seq<PeerAddr>
    decreases peers.len(),
{
    if peers.len() == 0 {
        Seq::empty()
    } else {
        let earlier = each_once(peers.drop_last());
        if earlier.contains(peers.last()) {
            earlier
        } else {
            earlier.push(peers.last())
        }
    }
}

/// A number for a peer, different for different peers.
spec fn peer_key(peer: PeerAddr) -> u64 {
    (peer.ip * 0x1_0000 + peer.port) as u64
}

/// Whether these are the numbers of the peers.
spec fn keys_of(seen: Set<u64>, peers: Seq<PeerAddr>) -> bool {
    &&& forall|i: int| 0 <= i < peers.len() ==> seen.contains(peer_key(#[trigger] peers[i]))
    &&& forall|k: u64| #[trigger]
        seen.contains(k) ==> exists|i: int| 0 <= i < peers.len() && peer_key(#[trigger] peers[i]) == k
}

/// Adds the peers that are not in a list to it.
fn add_peers(
    all: &mut Vec<PeerAddr>,
    seen: &mut HashSet<u64>,
    peers: &Vec<PeerAddr>,
    Ghost(earlier): Ghost<Seq<PeerAddr>>,
)
    requires
        old(all)@ == each_once(earlier),
        keys_of(old(seen)@, old(all)@),
    ensures
        final(all)@ == each_once(earlier + peers@),
        keys_of(final(seen)@, final(all)@),
{
    broadcast use vstd::std_specs::hash::group_hash_axioms;

    let mut i: usize = 0;
    assert(earlier + peers@.take(0) =~= earlier);
    while i < peers.len()
        invariant
            i <= peers@.len(),
            all@ == each_once(earlier + peers@.take(i as int)),
            keys_of(seen@, all@),
        decreases peers@.len() - i,
    {
        broadcast use vstd::std_specs::hash::group_hash_axioms;

        let peer: PeerAddr = peers[i];
        let key: u64 = peer.ip as u64 * 0x1_0000 + peer.port as u64;
        proof {
            let next = earlier + peers@.take(i + 1);
            assert(next.drop_last() =~= earlier + peers@.take(i as int));
            assert(next.last() == peer);
            if seen@.contains(key) {
                let k = choose|k: int| 0 <= k < all@.len() && peer_key(#[trigger] all@[k]) == key;
                assert(all@[k] == peer);
                assert(all@.contains(peer));
            } else {
                assert(!all@.contains(peer));
            }
        }
        if !seen.contains(&key) {
            let ghost before = all@;
            let ghost known = seen@;
            seen.insert(key);
            all.push(peer);
            proof {
                assert(all@[before.len() as int] == peer);
                assert forall|k: u64| #[trigger] seen@.contains(k) implies exists|j: int|
                    0 <= j < all@.len() && peer_key(#[trigger] all@[j]) == k by {
                    if k != key {
                        assert(known.contains(k));
                        let j = choose|j: int|
                            0 <= j < before.len() && peer_key(#[trigger] before[j]) == k;
                        assert(all@[j] == before[j]);
                    }
                }
            }
        }
        i += 1;
    }
    assert(earlier + peers@.take(peers@.len() as int) =~= earlier + peers@);
}

/// The peers that the trackers have named, and then those of the DHT, each of them once.
pub open spec fn all_peers(results: Seq<Option<Vec<PeerAddr>>>, dht_peers: Seq<PeerAddr>) -> Seq<
    PeerAddr,
> {
    each_once(found(results) + dht_peers)
}

/// The peers that the trackers have named, and then those of the DHT, each of them once.
pub fn fetch_peers(results: &Vec<Option<Vec<PeerAddr>>>, dht_peers: &Vec<PeerAddr>) -> (r: Vec<
    PeerAddr,
>)
    ensures
        r@ == each_once(found(results@) + dht_peers@),
        r@ == all_peers(results@, dht_peers@),
{
    broadcast use vstd::std_specs::hash::group_hash_axioms;

    let mut all: Vec<PeerAddr> = Vec::new();
    let mut seen: HashSet<u64> = HashSet::new();
    let mut i: usize = 0;
    assert(results@.take(0) =~= Seq::empty());
    while i < results.len()
        invariant
            i <= results@.len(),
            all@ == each_once(found(results@.take(i as int))),
            keys_of(seen@, all@),
        decreases results@.len() - i,
    {
        proof {
            let next = results@.take(i + 1);
            assert(next.drop_last() =~= results@.take(i as int));
            assert(next.last() == results@[i as int]);
            if results@[i as int] is None {
                assert(found(next) =~= found(results@.take(i as int)));
            }
        }
        if let Some(peers) = &results[i] {
            add_peers(&mut all, &mut seen, peers, Ghost(found(results@.take(i as int))));
        }
        i += 1;
    }
    assert(results@.take(results@.len() as int) =~= results@);
    add_peers(&mut all, &mut seen, dht_peers, Ghost(found(results@)));
    all
}

/// In the list of peers none comes twice, and it holds exactly the peers that were found.
pub proof fn law_each_peer_once(peers: Seq<PeerAddr>)
    ensures
        each_once(peers).no_duplicates(),
        forall|p: PeerAddr| #[trigger] each_once(peers).contains(p) <==> peers.contains(p),
    decreases peers.len(),
{
    if peers.len() > 0 {
        let rest = peers.drop_last();
        law_each_peer_once(rest);
        let once = each_once(peers);
        assert forall|p: PeerAddr| #[trigger] once.contains(p) <==> peers.contains(p) by {
            if peers.contains(p) && p != peers.last() {
                let i = choose|i: int| 0 <= i < peers.len() && peers[i] == p;
                assert(rest[i] == p);
                assert(each_once(rest).contains(p));
                let j = choose|j: int| 0 <= j < each_once(rest).len() && each_once(rest)[j] == p;
                assert(once[j] == p);
            }
            if peers.contains(p) && p == peers.last() && !each_once(rest).contains(p) {
                assert(once[once.len() - 1] == p);
            }
            if once.contains(p) {
                let j = choose|j: int| 0 <= j < once.len() && once[j] == p;
                if j < each_once(rest).len() {
                    assert(each_once(rest).contains(p));
                    assert(rest.contains(p));
                    let i = choose|i: int| 0 <= i < rest.len() && rest[i] == p;
                    assert(peers[i] == p);
                } else {
                    assert(peers[peers.len() - 1] == p);
                }
            }
        }
    }
}

/// What comes first keeps its place: peers that are found later do not change the list of those
/// that were found before, but only add to it.
pub proof fn law_earlier_peers_stay_first(earlier: Seq<PeerAddr>, later: Seq<PeerAddr>)
    ensures
        each_once(earlier).is_prefix_of(each_once(earlier + later)),
    decreases later.len(),
{
    if later.len() == 0 {
        assert(earlier + later =~= earlier);
    } else {
        law_earlier_peers_stay_first(earlier, later.drop_last());
        let all = earlier + later;
        assert(all.drop_last() =~= earlier + later.drop_last());
    }
}

/// A connect request has sixteen bytes, and an announce request on a connection that is known by
/// eight bytes has ninety-eight.
pub proof fn law_request_sizes(
    connection: Seq<u8>,
    transaction: u32,
    info_hash: Seq<u8>,
    id: Seq<u8>,
    left: u64,
    key: u32,
)
    requires
        connection.len() == 8,
        info_hash.len() == 20,
        id.len() == 20,
    ensures
        connect_request(transaction).len() == 16,
        announce_request(connection, transaction, info_hash, id, left, key).len() == 98,
{
}

/// A UDP tracker that does not answer with the transaction number of the request is not asked for
/// peers, and none are taken from it.
pub proof fn law_wrong_transaction_is_refused(
    v: TaskView,
    expected: u32,
    reply: Seq<u8>,
    transaction: u32,
    key: u32,
)
    requires
        v.phase == TrackerPhase::Connecting(expected),
        reply.len() >= 8,
        read32(reply, 4) != expected,
    ensures
        step_of(v, EventView::Received(Some(reply)), transaction, key) == finished(v, Seq::empty()),
{
}

/// A task ends with a list of peers, after four events at most.
pub proof fn law_task_ends(v: TaskView, e: EventView, transaction: u32, key: u32)
    requires
        accepts(v, e),
    ensures
        ({
            let (w, action) = step_of(v, e, transaction, key);
            &&& w.phase is Done <==> action is Finish
            &&& steps_left(w.phase) < steps_left(v.phase)
        }),
{
}

/// How many events a task in this phase may still take.
pub open spec fn steps_left(phase: TrackerPhase) -> nat {
    match phase {
        TrackerPhase::Idle => 5,
        TrackerPhase::Resolving => 4,
        TrackerPhase::Binding => 3,
        TrackerPhase::Connecting(_) => 2,
        TrackerPhase::Announcing => 1,
        TrackerPhase::Fetching => 1,
        TrackerPhase::Done => 0,
    }
}

/// Six bytes name a peer: four its IP address and two its port, the heaviest byte first. There are
/// as many peers as there are six bytes, in their order.
pub proof fn law_six_bytes_name_a_peer(bytes: Seq<u8>, i: int)
    ensures
        6 * peers_in(bytes).len() <= bytes.len(),
        bytes.len() < 6 * peers_in(bytes).len() + 6,
        0 <= i < peers_in(bytes).len() ==> {
            &&& peers_in(bytes)[i].ip == number(bytes.subrange(6 * i, 6 * i + 4))
            &&& peers_in(bytes)[i].port == number(bytes.subrange(6 * i + 4, 6 * i + 6))
        },
{
    if 0 <= i < peers_in(bytes).len() {
        law_read_number_is_that_of_the_bytes(bytes, 6 * i);
        law_read_number_is_that_of_the_bytes(bytes, 6 * i + 4);
    }
}

/// A connect request has sixteen bytes: the number that opens a connection, an action of zero, and
/// the number of the transaction.
pub proof fn law_connect_request_fields(transaction: u32)
    ensures
        connect_request(transaction).len() == 16,
        number(connect_request(transaction).subrange(0, 8)) == 0x417_2710_1980,
        number(connect_request(transaction).subrange(8, 12)) == 0,
        number(connect_request(transaction).subrange(12, 16)) == transaction,
{
    let bytes = connect_request(transaction);
    law_bytes_stand_for_the_number(0, 0, 0x417_2710_1980);
    law_bytes_stand_for_the_number(0, transaction, 0);
    assert(bytes.subrange(0, 8) =~= be64(0x417_2710_1980));
    assert(bytes.subrange(8, 12) =~= be32(0));
    assert(bytes.subrange(12, 16) =~= be32(transaction));
}

/// An announce request on a connection that is known by eight bytes has these first, then an action
/// of one and the number of the transaction, the digest of the torrent and the id of the client,
/// byte by byte in their order, nothing downloaded, the number of bytes that are left, nothing
/// uploaded, no event and no address, the key, as many peers as the tracker sees fit, and the
/// port.
pub proof fn law_announce_request_fields(
    connection: Seq<u8>,
    transaction: u32,
    info_hash: Seq<u8>,
    id: Seq<u8>,
    left: u64,
    key: u32,
)
    requires
        connection.len() == 8,
        info_hash.len() == 20,
        id.len() == 20,
    ensures
        ({
            let bytes = announce_request(connection, transaction, info_hash, id, left, key);
            &&& bytes.len() == 98
            &&& bytes.subrange(0, 8) == connection
            &&& number(bytes.subrange(8, 12)) == 1
            &&& number(bytes.subrange(12, 16)) == transaction
            &&& bytes.subrange(16, 36) == info_hash
            &&& bytes.subrange(36, 56) == id
            &&& number(bytes.subrange(56, 64)) == 0
            &&& number(bytes.subrange(64, 72)) == left
            &&& number(bytes.subrange(72, 80)) == 0
            &&& number(bytes.subrange(80, 84)) == 0
            &&& number(bytes.subrange(84, 88)) == 0
            &&& number(bytes.subrange(88, 92)) == key
            &&& number(bytes.subrange(92, 96)) == 0xffff_ffff
            &&& number(bytes.subrange(96, 98)) == 6881
        }),
{
    let bytes = announce_request(connection, transaction, info_hash, id, left, key);
    law_bytes_stand_for_the_number(6881, 1, left);
    law_bytes_stand_for_the_number(0, 0, 0);
    law_bytes_stand_for_the_number(0, transaction, 0);
    law_bytes_stand_for_the_number(0, key, 0);
    law_bytes_stand_for_the_number(0, 0xffff_ffff, 0);
    assert(bytes.subrange(0, 8) =~= connection);
    assert(bytes.subrange(8, 12) =~= be32(1));
    assert(bytes.subrange(12, 16) =~= be32(transaction));
    assert(bytes.subrange(16, 36) =~= info_hash);
    assert(bytes.subrange(36, 56) =~= id);
    assert(bytes.subrange(56, 64) =~= be64(0));
    assert(bytes.subrange(64, 72) =~= be64(left));
    assert(bytes.subrange(72, 80) =~= be64(0));
    assert(bytes.subrange(80, 84) =~= be32(0));
    assert(bytes.subrange(84, 88) =~= be32(0));
    assert(bytes.subrange(88, 92) =~= be32(key));
    assert(bytes.subrange(92, 96) =~= be32(0xffff_ffff));
    assert(bytes.subrange(96, 98) =~= be16(6881));
}

/// However many bytes a connection is known by, they come first, and what follows them is the same.
pub proof fn law_announce_request_starts_with_the_connection(
    connection: Seq<u8>,
    other: Seq<u8>,
    transaction: u32,
    info_hash: Seq<u8>,
    id: Seq<u8>,
    left: u64,
    key: u32,
)
    ensures
        connection.is_prefix_of(
            announce_request(connection, transaction, info_hash, id, left, key),
        ),
        announce_request(connection, transaction, info_hash, id, left, key).skip(
            connection.len() as int,
        ) == announce_request(other, transaction, info_hash, id, left, key).skip(
            other.len() as int,
        ),
{
    let bytes = announce_request(connection, transaction, info_hash, id, left, key);
    let others = announce_request(other, transaction, info_hash, id, left, key);
    assert(bytes.skip(connection.len() as int) =~= others.skip(other.len() as int));
}

/// A URL with the parameters of an announcement.
pub open spec fn url_with(
    announce: Seq<char>,
    info_hash: Seq<char>,
    id: Seq<char>,
    left: Seq<char>,
) -> Seq<char> {
    announce + "?info_hash="@ + info_hash + "&peer_id="@ + id
        + "&port=6881&uploaded=0&downloaded=0&left="@ + left + "&compact=1"@
}

/// The request to an HTTP tracker is the URL of the tracker with parameters behind it, from which
/// the tracker reads back the digest of the torrent, the id of the client and the number of bytes
/// that are left. None of these can be taken for the start of the next parameter.
pub proof fn law_http_request_is_read_back(
    announce: Seq<char>,
    info_hash: Seq<u8>,
    id: Seq<u8>,
    left: u64,
)
    ensures
        exists|a: Seq<char>, b: Seq<char>, n: Seq<char>|
            {
                &&& http_request(announce, info_hash, id, left) == #[trigger] url_with(
                    announce,
                    a,
                    b,
                    n,
                )
                &&& percent_decoded(a) == info_hash
                &&& percent_decoded(b) == id
                &&& value_of(n) == left
                &&& n.len() > 0
                &&& forall|i: int| 0 <= i < a.len() ==> url_char(#[trigger] a[i])
                &&& forall|i: int| 0 <= i < b.len() ==> url_char(#[trigger] b[i])
                &&& forall|i: int| 0 <= i < n.len() ==> '0' <= #[trigger] n[i] <= '9'
            },
{
    let a = percent_encoded(info_hash);
    let b = percent_encoded(id);
    let n = decimal(left as nat);
    law_percent_encoding_is_read_back(info_hash);
    law_percent_encoding_is_read_back(id);
    law_digits_stand_for_the_number(left as nat);
    reveal_strlit("&port=");
    reveal_strlit("&uploaded=0&downloaded=0&left=");
    reveal_strlit("&port=6881&uploaded=0&downloaded=0&left=");
    reveal_with_fuel(decimal, 5);
    assert(decimal(6881) =~= seq!['6', '8', '8', '1']);
    assert("&port="@ + decimal(6881) + "&uploaded=0&downloaded=0&left="@
        =~= "&port=6881&uploaded=0&downloaded=0&left="@);
    assert(http_request(announce, info_hash, id, left) =~= url_with(announce, a, b, n));
}

/// What an HTTP tracker answers names peers under the key `peers`, in six bytes each. Any other
/// answer names none.
pub proof fn law_peers_stand_under_their_key(reply: Tree, bytes: Seq<u8>)
    ensures
        ({
            let key = seq![112u8, 101, 101, 114, 115];
            &&& (reply matches Tree::Dict(dict) && dict.contains_key(key) && dict[key]
                == Tree::Bytes(bytes)) ==> peers_of_reply(reply) == peers_in(bytes)
            &&& !(reply matches Tree::Dict(dict) && dict.contains_key(key) && dict[key] is Bytes)
                ==> peers_of_reply(reply).len() == 0
        }),
{
    reveal_strlit("peers");
    assert(ascii("peers"@) =~= seq![112u8, 101, 101, 114, 115]);
}

/// A task starts with what it was made with: the URL of the tracker, the digest of the torrent, the
/// id of the client, and the length of the file as what is left, nothing where the torrent does not
/// tell. It waits for nothing before it is started.
pub proof fn law_new_task(announce: Seq<char>, torrent: InfoView, id: Seq<u8>, e: EventView)
    ensures
        ({
            let v = new_task(announce, torrent, id);
            &&& v.announce == announce
            &&& v.info_hash == torrent.info_hash
            &&& v.id == id
            &&& torrent.length matches Some(length) ==> v.left == length
            &&& torrent.length is None ==> v.left == 0
            &&& !accepts(v, e)
        }),
{
}

/// The scheme of the URL decides how a task starts: with the address of a UDP tracker, with the
/// request to an HTTP tracker, or not at all.
pub proof fn law_scheme_decides(v: TaskView, rest: Seq<char>)
    ensures
        v.announce == "udp://"@ + rest ==> start_of(v).1 is Resolve && start_of(v).0.phase is Resolving,
        v.announce == "http://"@ + rest || v.announce == "https://"@ + rest ==> start_of(v).1
            == ActionView::Get(http_request(v.announce, v.info_hash, v.id, v.left)) && start_of(
            v,
        ).0.phase is Fetching,
        !has_prefix(v.announce, "udp://"@) && !has_prefix(v.announce, "http://"@) && !has_prefix(
            v.announce,
            "https://"@,
        ) ==> start_of(v).1 == ActionView::Finish(Seq::empty()) && start_of(v).0.phase is Done,
        start_of(v).0.announce == v.announce,
        start_of(v).0.info_hash == v.info_hash,
        start_of(v).0.id == v.id,
        start_of(v).0.left == v.left,
{
    reveal_strlit("udp://");
    reveal_strlit("http://");
    reveal_strlit("https://");
    law_prefix_is_the_start(v.announce, "udp://"@, rest);
    law_prefix_is_the_start(v.announce, "http://"@, rest);
    law_prefix_is_the_start(v.announce, "https://"@, rest);
    if v.announce == "http://"@ + rest {
        assert(v.announce[0] == 'h');
    }
    if v.announce == "https://"@ + rest {
        assert(v.announce[0] == 'h');
    }
}

/// Of a UDP tracker the address is found of what stands between the scheme and the first slash
/// behind it, or of all that stands behind the scheme where there is none.
pub proof fn law_host_stands_behind_the_scheme(v: TaskView, rest: Seq<char>)
    requires
        v.announce == "udp://"@ + rest,
        !has_prefix(rest, "udp://"@),
    ensures
        start_of(v).1 matches ActionView::Resolve(host) && {
            &&& host.is_prefix_of(rest)
            &&& forall|i: int| 0 <= i < host.len() ==> #[trigger] host[i] != '/'
            &&& host.len() < rest.len() ==> rest[host.len() as int] == '/'
        },
{
    reveal_strlit("udp://");
    law_prefix_is_the_start(v.announce, "udp://"@, rest);
    law_prefix_is_taken_off(rest, "udp://"@);
    law_part_before_the_first(rest, '/', 0);
}

/// A scheme that stands there more than once is passed over each time.
pub proof fn law_repeated_scheme_is_passed_over(v: TaskView, w: TaskView, rest: Seq<char>)
    requires
        v.announce == "udp://"@ + rest,
        w.announce == "udp://"@ + v.announce,
    ensures
        start_of(w).1 == start_of(v).1,
{
    reveal_strlit("udp://");
    law_prefix_is_the_start(v.announce, "udp://"@, rest);
    law_prefix_is_the_start(w.announce, "udp://"@, v.announce);
    law_prefix_is_taken_off(v.announce, "udp://"@);
}

/// A task waits for one thing at a time: for an address, for a socket, or for an answer.
pub proof fn law_task_waits_for_one_thing(v: TaskView, e: EventView)
    ensures
        e is Resolved ==> (accepts(v, e) <==> v.phase is Resolving),
        e is Bound ==> (accepts(v, e) <==> v.phase is Binding),
        e is Received ==> (accepts(v, e) <==> v.phase is Connecting || v.phase is Announcing || v.phase
            is Fetching),
{
}

/// Whatever happens, a task keeps the tracker, the torrent and the client that it asks for.
pub proof fn law_task_keeps_its_torrent(v: TaskView, e: EventView, transaction: u32, key: u32)
    requires
        accepts(v, e),
    ensures
        ({
            let w = step_of(v, e, transaction, key).0;
            &&& w.announce == v.announce
            &&& w.info_hash == v.info_hash
            &&& w.id == v.id
            &&& w.left == v.left
        }),
{
}

/// A UDP tracker is asked step by step: once its address is found, for a socket; once there is one,
/// for a connection, with the number that was drawn as the number of the transaction, in an answer
/// of 512 bytes at most. Where a step fails, the task ends without peers.
pub proof fn law_connection_is_asked_for(v: TaskView, ok: bool, transaction: u32, key: u32)
    ensures
        v.phase is Resolving ==> {
            let (w, action) = step_of(v, EventView::Resolved(ok), transaction, key);
            &&& ok ==> action is Bind && w.phase is Binding
            &&& !ok ==> action == ActionView::Finish(Seq::empty()) && w.phase is Done
        },
        v.phase is Binding ==> {
            let (w, action) = step_of(v, EventView::Bound(ok), transaction, key);
            &&& ok ==> w.phase == TrackerPhase::Connecting(transaction) && (action
                matches ActionView::Exchange(datagram, max) && max == 512 && datagram.len() == 16
                && number(datagram.subrange(0, 8)) == 0x417_2710_1980 && number(
                datagram.subrange(8, 12),
            ) == 0 && number(datagram.subrange(12, 16)) == transaction)
            &&& !ok ==> action == ActionView::Finish(Seq::empty()) && w.phase is Done
        },
{
    law_connect_request_fields(transaction);
}

/// No answer, and no peers.
pub proof fn law_no_answer_no_peers(v: TaskView, transaction: u32, key: u32)
    requires
        accepts(v, EventView::Received(None)),
    ensures
        step_of(v, EventView::Received(None), transaction, key).1 == ActionView::Finish(Seq::empty()),
        step_of(v, EventView::Received(None), transaction, key).0.phase is Done,
{
}

/// An answer of sixteen bytes at least, with an action of zero and the number of the transaction
/// that was sent, opens a connection, and no other answer does. The connection is known by its
/// bytes 8 to 16; on it the task asks for the peers of its torrent, in an answer of 4096 bytes at
/// most.
pub proof fn law_peers_are_asked_for_on_the_connection(
    v: TaskView,
    expected: u32,
    reply: Seq<u8>,
    transaction: u32,
    key: u32,
)
    requires
        v.phase == TrackerPhase::Connecting(expected),
        v.info_hash.len() == 20,
        v.id.len() == 20,
    ensures
        ({
            let (w, action) = step_of(v, EventView::Received(Some(reply)), transaction, key);
            let open = reply.len() >= 16 && number(reply.subrange(0, 4)) == 0 && number(
                reply.subrange(4, 8),
            ) == expected;
            &&& !open ==> action == ActionView::Finish(Seq::empty()) && w.phase is Done
            &&& open ==> w.phase is Announcing && (action matches ActionView::Exchange(datagram, max)
                && {
                &&& max == 4096
                &&& datagram.len() == 98
                &&& datagram.subrange(0, 8) == reply.subrange(8, 16)
                &&& number(datagram.subrange(8, 12)) == 1
                &&& number(datagram.subrange(12, 16)) == transaction
                &&& datagram.subrange(16, 36) == v.info_hash
                &&& datagram.subrange(36, 56) == v.id
                &&& number(datagram.subrange(64, 72)) == v.left
                &&& number(datagram.subrange(88, 92)) == key
                &&& number(datagram.subrange(96, 98)) == 6881
            })
        }),
{
    if reply.len() >= 16 {
        law_read_number_is_that_of_the_bytes(reply, 0);
        law_read_number_is_that_of_the_bytes(reply, 4);
        law_announce_request_fields(
            reply.subrange(8, 16),
            transaction,
            v.info_hash,
            v.id,
            v.left,
            key,
        );
    }
}

/// An answer of twenty bytes at least, with an action of one, names peers from byte 20 on, in six
/// bytes each. Any other answer names none.
pub proof fn law_peers_stand_behind_twenty_bytes(
    v: TaskView,
    reply: Seq<u8>,
    transaction: u32,
    key: u32,
    i: int,
)
    requires
        v.phase is Announcing,
    ensures
        step_of(v, EventView::Received(Some(reply)), transaction, key).0.phase is Done,
        step_of(v, EventView::Received(Some(reply)), transaction, key).1 matches ActionView::Finish(
            peers,
        ) && {
            let good = reply.len() >= 20 && number(reply.subrange(0, 4)) == 1;
            &&& !good ==> peers.len() == 0
            &&& good ==> {
                &&& 6 * peers.len() <= reply.len() - 20 < 6 * peers.len() + 6
                &&& 0 <= i < peers.len() ==> {
                    &&& peers[i].ip == number(reply.subrange(20 + 6 * i, 24 + 6 * i))
                    &&& peers[i].port == number(reply.subrange(24 + 6 * i, 26 + 6 * i))
                }
            }
        },
{
    if reply.len() >= 20 {
        law_read_number_is_that_of_the_bytes(reply, 0);
        let tail = reply.skip(20);
        law_six_bytes_name_a_peer(tail, i);
        if 0 <= i < peers_in(tail).len() {
            assert(tail.subrange(6 * i, 6 * i + 4) =~= reply.subrange(20 + 6 * i, 24 + 6 * i));
            assert(tail.subrange(6 * i + 4, 6 * i + 6) =~= reply.subrange(24 + 6 * i, 26 + 6 * i));
        }
    }
}

/// Of an HTTP tracker the peers are those that its decoded answer names; an answer that cannot be
/// decoded names none.
pub proof fn law_http_answer_names_the_peers(
    v: TaskView,
    reply: Seq<u8>,
    transaction: u32,
    key: u32,
)
    requires
        v.phase is Fetching,
    ensures
        ({
            let (w, action) = step_of(v, EventView::Received(Some(reply)), transaction, key);
            &&& w.phase is Done
            &&& reply_decoded(reply, usize::BITS) matches Some(tree) ==> action == ActionView::Finish(
                peers_of_reply(tree),
            )
            &&& reply_decoded(reply, usize::BITS) is None ==> action == ActionView::Finish(
                Seq::empty(),
            )
        }),
{
}

/// The peers of several trackers follow each other in the order of the trackers, and those of each
/// tracker in the order in which it names them; a task that failed has found none.
pub proof fn law_peers_follow_each_other(
    a: Seq<Option<Vec<PeerAddr>>>,
    b: Seq<Option<Vec<PeerAddr>>>,
    peers: Vec<PeerAddr>,
)
    ensures
        found(a + b) == found(a) + found(b),
        found(seq![Some(peers)]) == peers@,
        found(seq![None::<Vec<PeerAddr>>]).len() == 0,
    decreases b.len(),
{
    reveal_with_fuel(found, 2);
    assert(seq![Some(peers)].drop_last() =~= Seq::empty());
    assert(seq![None::<Vec<PeerAddr>>].drop_last() =~= Seq::empty());
    assert(found(seq![Some(peers)]) =~= peers@);
    if b.len() == 0 {
        assert(a + b =~= a);
        assert(found(a) + found(b) =~= found(a));
    } else {
        law_peers_follow_each_other(a, b.drop_last(), peers);
        assert((a + b).drop_last() =~= a + b.drop_last());
        assert((a + b).last() == b.last());
        assert(found(a + b) =~= found(a) + found(b));
    }
}

/// The peers that are fetched are those that a tracker or the DHT has named, each of them once; those
/// of the trackers come first, in the order in which they were named first.
pub proof fn law_fetched_peers(
    results: Seq<Option<Vec<PeerAddr>>>,
    dht_peers: Seq<PeerAddr>,
    p: PeerAddr,
)
    ensures
        all_peers(results, dht_peers).no_duplicates(),
        all_peers(results, dht_peers).contains(p) <==> found(results).contains(p)
            || dht_peers.contains(p),
        each_once(found(results)).is_prefix_of(all_peers(results, dht_peers)),
{
    let named = found(results) + dht_peers;
    law_each_peer_once(named);
    law_earlier_peers_stay_first(found(results), dht_peers);
    if found(results).contains(p) {
        let i = choose|i: int| 0 <= i < found(results).len() && found(results)[i] == p;
        assert(named[i] == p);
    }
    if dht_peers.contains(p) {
        let i = choose|i: int| 0 <= i < dht_peers.len() && dht_peers[i] == p;
        assert(named[found(results).len() + i] == p);
    }
    if named.contains(p) {
        let i = choose|i: int| 0 <= i < named.len() && named[i] == p;
        if i < found(results).len() {
            assert(found(results)[i] == p);
        } else {
            assert(dht_peers[i - found(results).len()] == p);
        }
    }
}

/// The plain values of events and actions tell what these hold: the same answers, byte by byte, the
/// same texts and datagrams, the same peers in their order.
pub proof fn law_plain_events_and_actions(event: TrackerEvent, action: TrackerAction)
    ensures
        event matches TrackerEvent::Resolved(ok) ==> event@ == EventView::Resolved(ok),
        event matches TrackerEvent::Bound(ok) ==> event@ == EventView::Bound(ok),
        event matches TrackerEvent::Received(Some(reply)) ==> event@ == EventView::Received(
            Some(reply@),
        ),
        event matches TrackerEvent::Received(None) ==> event@ == EventView::Received(None),
        action matches TrackerAction::Resolve(host) ==> action@ == ActionView::Resolve(host@),
        action is Bind <==> action@ is Bind,
        action matches TrackerAction::Exchange(datagram, max) ==> action@ == ActionView::Exchange(
            datagram@,
            max,
        ),
        action matches TrackerAction::Get(url) ==> action@ == ActionView::Get(url@),
        action matches TrackerAction::Finish(peers) ==> action@ == ActionView::Finish(peers@),
{
}

} // verus!
