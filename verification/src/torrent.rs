//! Torrent files.
use crate::bencode::{
    bencode_decoded, bencode_encoded, decode, encode, entry_of, lemma_list_of, Bencode, Tree,
};
use crate::hash::{sha1_digest, sha1_of};
use crate::text::{ascii, ascii_bytes, lossy_text, utf8_lossy};
use vstd::prelude::*;
use vstd::string::*;

verus! {

/// What a torrent file says of a download.
pub struct TorrentInfo {
    /// The trackers to ask for peers.
    pub announce_list: Vec<String>,
    /// The name of the file to download.
    pub name: String,
    /// The size of every piece but the last.
    pub piece_length: u64,
    /// The size of the file.
    pub length: Option<u64>,
    /// The SHA-1 digests of the pieces, twenty bytes each.
    pub pieces: Vec<u8>,
    /// The SHA-1 digest of the info dictionary.
    pub info_hash: [u8; 20],
}

/// `TorrentInfo` as a plain value.
#[verifier::ext_equal]
pub struct InfoView {
    pub announce_list: Seq<Seq<char>>,
    pub name: Seq<char>,
    pub piece_length: u64,
    pub length: Option<u64>,
    pub pieces: Seq<u8>,
    pub info_hash: Seq<u8>,
}

/// The texts of a list of strings.
pub open spec fn texts(list: Seq<String>) -> Seq<Seq<char>> {
    Seq::new(list.len(), |i: int| list[i]@)
}

impl View for TorrentInfo {
    type V = InfoView;

    open spec fn view(&self) -> InfoView {
        InfoView {
            announce_list: texts(self.announce_list@),
            name: self.name@,
            piece_length: self.piece_length,
            length: self.length,
            pieces: self.pieces@,
            info_hash: self.info_hash@,
        }
    }
}

impl Clone for TorrentInfo {
    fn clone(&self) -> (r: Self)
        ensures
            r@ == self@,
    {
        let mut announce_list: Vec<String> = Vec::new();
        let mut i: usize = 0;
        while i < self.announce_list.len()
            invariant
                i <= self.announce_list@.len(),
                announce_list@.len() == i,
                forall|k: int|
                    0 <= k < i ==> (#[trigger] announce_list@[k])@ == self.announce_list@[k]@,
            decreases self.announce_list@.len() - i,
        {
            announce_list.push(self.announce_list[i].clone());
            i += 1;
        }
        assert(texts(announce_list@) =~= texts(self.announce_list@));
        TorrentInfo {
            announce_list,
            name: self.name.clone(),
            piece_length: self.piece_length,
            length: self.length,
            pieces: self.pieces.clone(),
            info_hash: self.info_hash,
        }
    }
}

/// Why a torrent file cannot be used.
#[derive(Debug)]
pub enum Error {
    /// It is not bencoded.
    Bencode(String),
    /// It does not say what a torrent file has to say.
    InvalidTorrent(String),
}

/// `Error` as a plain value.
#[verifier::ext_equal]
pub enum ErrorView {
    Bencode(Seq<char>),
    InvalidTorrent(Seq<char>),
}

impl View for Error {
    type V = ErrorView;

    open spec fn view(&self) -> ErrorView {
        match *self {
            Error::Bencode(text) => ErrorView::Bencode(text@),
            Error::InvalidTorrent(text) => ErrorView::InvalidTorrent(text@),
        }
    }
}

impl Error {
    /// The error in words.
    pub fn message(&self) -> (r: String)
        ensures
            r@ == (match self@ {
                ErrorView::Bencode(text) => "Bencode error: "@ + text,
                ErrorView::InvalidTorrent(text) => "Invalid torrent file: "@ + text,
            }),
    {
        match self {
            Error::Bencode(text) => "Bencode error: ".to_owned().concat(text.as_str()),
            Error::InvalidTorrent(text) => "Invalid torrent file: ".to_owned().concat(
                text.as_str(),
            ),
        }
    }
}

/// A result as a plain value.
pub open spec fn plain(r: Result<TorrentInfo, Error>) -> Result<InfoView, ErrorView> {
    match r {
        Ok(info) => Ok(info@),
        Err(error) => Err(error@),
    }
}

/// The error for a torrent file that does not say what it has to say.
pub open spec fn invalid(text: &str) -> Result<InfoView, ErrorView> {
    Err(ErrorView::InvalidTorrent(text@))
}

/// The byte string that a dictionary holds under a key.
pub open spec fn bytes_under(tree: Tree, key: Seq<u8>) -> Option<Seq<u8>> {
    match entry_of(tree, key) {
        Some(Tree::Bytes(bytes)) => Some(bytes),
        _ => None,
    }
}

/// The integer that a dictionary holds under a key.
pub open spec fn integer_under(tree: Tree, key: Seq<u8>) -> Option<i64> {
    match entry_of(tree, key) {
        Some(Tree::Integer(i)) => Some(i),
        _ => None,
    }
}

/// The trackers of a tier: the byte strings in it, in their order.
pub open spec fn tier_trackers(items: Seq<Tree>) -> Seq<Seq<char>>
    decreases items.len(),
{
    if items.len() == 0 {
        Seq::empty()
    } else {
        match items.last() {
            Tree::Bytes(url) => tier_trackers(items.drop_last()).push(utf8_lossy(url)),
            _ => tier_trackers(items.drop_last()),
        }
    }
}

/// The trackers of the lists among the tiers, in their order.
pub open spec fn all_trackers(tiers: Seq<Tree>) -> Seq<Seq<char>>
    decreases tiers.len(),
{
    if tiers.len() == 0 {
        Seq::empty()
    } else {
        match tiers.last() {
            Tree::List(items) => all_trackers(tiers.drop_last()) + tier_trackers(items),
            _ => all_trackers(tiers.drop_last()),
        }
    }
}

/// The trackers that a torrent file names: those of its announce list, or else the one under
/// `announce`.
pub open spec fn trackers(tree: Tree, announce: Seq<u8>) -> Seq<Seq<char>> {
    let listed = match entry_of(tree, ascii("announce-list"@)) {
        Some(Tree::List(tiers)) => all_trackers(tiers),
        _ => Seq::empty(),
    };
    if listed.len() == 0 {
        seq![utf8_lossy(announce)]
    } else {
        listed
    }
}

/// The digest of an info dictionary.
pub open spec fn hashed(info: Tree) -> Result<Seq<u8>, ErrorView> {
    match bencode_encoded(info) {
        Ok(data) => Ok(sha1_of(data)),
        Err(text) => Err(ErrorView::Bencode("Bencode error: "@ + text)),
    }
}

/// What an info dictionary says, for a torrent file that names these trackers.
pub open spec fn info_of(announce_list: Seq<Seq<char>>, info: Tree) -> Result<InfoView, ErrorView> {
    match bytes_under(info, ascii("name"@)) {
        None => invalid("Missing 'name'"),
        Some(name) => match integer_under(info, ascii("piece length"@)) {
            None => invalid("Missing 'piece length'"),
            Some(piece_length) => match bytes_under(info, ascii("pieces"@)) {
                None => invalid("Missing 'pieces'"),
                Some(pieces) => match hashed(info) {
                    Err(error) => Err(error),
                    Ok(info_hash) => Ok(
                        InfoView {
                            announce_list,
                            name: utf8_lossy(name),
                            piece_length: piece_length as u64,
                            length: match integer_under(info, ascii("length"@)) {
                                Some(length) => Some(length as u64),
                                None => None,
                            },
                            pieces,
                            info_hash,
                        },
                    ),
                },
            },
        },
    }
}

/// What a torrent file says: a dictionary with a byte string under `announce` and a dictionary
/// under `info`, which in turn has to hold a name, the size of a piece and the digests.
pub open spec fn parsed(tree: Tree) -> Result<InfoView, ErrorView> {
    if tree !is Dict {
        invalid("Top-level is not a dictionary")
    } else {
        match bytes_under(tree, ascii("announce"@)) {
            None => invalid("Missing 'announce'"),
            Some(announce) => match entry_of(tree, ascii("info"@)) {
                Some(Tree::Dict(info)) => info_of(trackers(tree, announce), Tree::Dict(info)),
                _ => invalid("Missing 'info' dictionary"),
            },
        }
    }
}

/// What the bytes of a torrent file say.
pub open spec fn parsed_file(data: Seq<u8>) -> Result<InfoView, ErrorView> {
    match bencode_decoded(data, usize::BITS) {
        Ok(tree) => parsed(tree),
        Err(text) => Err(ErrorView::Bencode("Bencode decoding error: "@ + text)),
    }
}

/// The error for a torrent file that does not say what it has to say.
fn refuse(text: &str) -> (r: Result<TorrentInfo, Error>)
    ensures
        plain(r) == invalid(text),
{
    Err(Error::InvalidTorrent(text.to_owned()))
}

fn get_bytes<'a>(value: &'a Bencode, key: &str) -> (r: Option<&'a Vec<u8>>)
    requires
        is_ascii(key),
    ensures
        match r {
            Some(bytes) => bytes_under(value@, ascii(key@)) == Some(bytes@),
            None => bytes_under(value@, ascii(key@)) is None,
        },
{
    match value.get(ascii_bytes(key)) {
        Some(Bencode::Bytes(bytes)) => Some(bytes),
        _ => None,
    }
}

fn get_integer(value: &Bencode, key: &str) -> (r: Option<i64>)
    requires
        is_ascii(key),
    ensures
        r == integer_under(value@, ascii(key@)),
{
    match value.get(ascii_bytes(key)) {
        Some(Bencode::Integer(i)) => Some(*i),
        _ => None,
    }
}

proof fn lemma_texts_push(list: Seq<String>, text: String)
    ensures
        texts(list.push(text)) == texts(list).push(text@),
{
    assert(texts(list.push(text)) =~= texts(list).push(text@));
}

/// Adds the trackers of a tier to a list.
fn push_tier(list: &mut Vec<String>, tier: &Vec<Bencode>)
    ensures
        texts(final(list)@) == texts(old(list)@) + tier_trackers(
            (Bencode::List(*tier))@->List_0,
        ),
{
    let ghost items = (Bencode::List(*tier))@->List_0;
    let ghost before = texts(list@);
    proof {
        lemma_list_of(tier@, tier@.len());
    }
    let mut i: usize = 0;
    assert(items.take(0) =~= Seq::empty());
    assert(texts(list@) =~= before + tier_trackers(items.take(0)));
    while i < tier.len()
        invariant
            i <= tier@.len(),
            items.len() == tier@.len(),
            forall|k: int| 0 <= k < items.len() ==> #[trigger] items[k] == tier@[k]@,
            texts(list@) == before + tier_trackers(items.take(i as int)),
        decreases tier@.len() - i,
    {
        assert(items.take(i + 1).drop_last() =~= items.take(i as int));
        assert(items.take(i + 1).last() == tier@[i as int]@);
        if let Bencode::Bytes(url) = &tier[i] {
            let text: String = lossy_text(url.as_slice());
            proof {
                lemma_texts_push(list@, text);
            }
            list.push(text);
        }
        assert(texts(list@) =~= before + tier_trackers(items.take(i + 1)));
        i += 1;
    }
    assert(items.take(tier@.len() as int) =~= items);
}

/// The trackers of the announce list of a torrent file.
fn listed_trackers(value: &Bencode) -> (r: Vec<String>)
    ensures
        texts(r@) == (match entry_of(value@, ascii("announce-list"@)) {
            Some(Tree::List(tiers)) => all_trackers(tiers),
            _ => Seq::empty(),
        }),
{
    let mut list: Vec<String> = Vec::new();
    assert(texts(list@) =~= Seq::empty());
    proof {
        reveal_strlit("announce-list");
    }
    if let Some(Bencode::List(tiers)) = value.get(ascii_bytes("announce-list")) {
        let ghost all = (Bencode::List(*tiers))@->List_0;
        proof {
            lemma_list_of(tiers@, tiers@.len());
        }
        let mut i: usize = 0;
        assert(all.take(0) =~= Seq::empty());
        while i < tiers.len()
            invariant
                i <= tiers@.len(),
                all.len() == tiers@.len(),
                forall|k: int| 0 <= k < all.len() ==> #[trigger] all[k] == tiers@[k]@,
                texts(list@) == all_trackers(all.take(i as int)),
            decreases tiers@.len() - i,
        {
            assert(all.take(i + 1).drop_last() =~= all.take(i as int));
            assert(all.take(i + 1).last() == tiers@[i as int]@);
            if let Bencode::List(tier) = &tiers[i] {
                push_tier(&mut list, tier);
            }
            i += 1;
        }
        assert(all.take(tiers@.len() as int) =~= all);
    }
    list
}

/// Reads what a decoded torrent file says.
pub fn read_torrent(value: &Bencode) -> (r: Result<TorrentInfo, Error>)
    ensures
        plain(r) == parsed(value@),
{
    proof {
        reveal_strlit("announce");
        reveal_strlit("info");
    }
    match value {
        Bencode::Dict(_) => {},
        _ => {
            return refuse("Top-level is not a dictionary");
        },
    }
    let announce: String = match get_bytes(value, "announce") {
        Some(bytes) => lossy_text(bytes.as_slice()),
        None => {
            return refuse("Missing 'announce'");
        },
    };
    let mut announce_list: Vec<String> = listed_trackers(value);
    let ghost listed = announce_list@;
    if announce_list.len() == 0 {
        announce_list.push(announce);
        assert(texts(announce_list@) =~= seq![announce@]);
    }
    match value.get(ascii_bytes("info")) {
        Some(info) => match info {
            Bencode::Dict(_) => read_info(announce_list, info),
            _ => refuse("Missing 'info' dictionary"),
        },
        None => refuse("Missing 'info' dictionary"),
    }
}

/// Reads what an info dictionary says.
fn read_info(announce_list: Vec<String>, info: &Bencode) -> (r: Result<TorrentInfo, Error>)
    ensures
        plain(r) == info_of(texts(announce_list@), info@),
{
    proof {
        reveal_strlit("name");
        reveal_strlit("piece length");
        reveal_strlit("length");
        reveal_strlit("pieces");
    }
    let name: String = match get_bytes(info, "name") {
        Some(bytes) => lossy_text(bytes.as_slice()),
        None => {
            return refuse("Missing 'name'");
        },
    };
    let piece_length: u64 = match get_integer(info, "piece length") {
        Some(i) => i as u64,
        None => {
            return refuse("Missing 'piece length'");
        },
    };
    let length: Option<u64> = match get_integer(info, "length") {
        Some(i) => Some(i as u64),
        None => None,
    };
    let pieces: Vec<u8> = match get_bytes(info, "pieces") {
        Some(bytes) => bytes.clone(),
        None => {
            return refuse("Missing 'pieces'");
        },
    };
    match get_torrent_info_hash(info) {
        Ok(info_hash) => Ok(
            TorrentInfo { announce_list, name, piece_length, length, pieces, info_hash },
        ),
        Err(error) => Err(error),
    }
}

/// The digest of an info dictionary, by which trackers and peers know the torrent.
pub fn get_torrent_info_hash(info: &Bencode) -> (r: Result<[u8; 20], Error>)
    ensures
        match r {
            Ok(info_hash) => hashed(info@) == Ok::<Seq<u8>, ErrorView>(info_hash@),
            Err(error) => hashed(info@) == Err::<Seq<u8>, ErrorView>(error@),
        },
{
    match encode(info) {
        Ok(data) => Ok(sha1_digest(data.as_slice())),
        Err(text) => Err(Error::Bencode("Bencode error: ".to_owned().concat(text.as_str()))),
    }
}

/// Parses a torrent file.
pub fn parse_torrent_file(data: &[u8]) -> (r: Result<TorrentInfo, Error>)
    ensures
        plain(r) == (match bencode_decoded(data@, usize::BITS) {
            Ok(tree) => parsed(tree),
            Err(text) => Err(ErrorView::Bencode("Bencode decoding error: "@ + text)),
        }),
        plain(r) == parsed_file(data@),
{
    match decode(data) {
        Ok(value) => read_torrent(&value),
        Err(text) => Err(
            Error::Bencode("Bencode decoding error: ".to_owned().concat(text.as_str())),
        ),
    }
}

/// A torrent file that can be used names a tracker at least.
pub proof fn law_torrent_names_a_tracker(tree: Tree)
    ensures
        parsed(tree) matches Ok(info) ==> info.announce_list.len() > 0,
{
}

/// The digest of a torrent is that of its info dictionary, and of nothing else in the file.
pub proof fn law_info_hash_is_of_the_info_dictionary(tree: Tree)
    ensures
        parsed(tree) matches Ok(info) ==> entry_of(tree, ascii("info"@)) is Some && hashed(
            entry_of(tree, ascii("info"@))->0,
        ) == Ok::<Seq<u8>, ErrorView>(info.info_hash),
{
}

/// A torrent says of itself what its info dictionary holds: under `name` its name, under `piece
/// length` the size of a piece and under `length` the size of the file, as the numbers that stand
/// there where these are not negative, and under `pieces` the digests, byte by byte. Its own digest
/// is that of the encoded info dictionary.
pub proof fn law_torrent_is_what_the_info_dictionary_holds(
    top: Map<Seq<u8>, Tree>,
    info: Map<Seq<u8>, Tree>,
    announce: Seq<u8>,
    name: Seq<u8>,
    piece_length: i64,
    pieces: Seq<u8>,
    data: Seq<u8>,
)
    requires
        top.contains_key(ascii("announce"@)),
        top[ascii("announce"@)] == Tree::Bytes(announce),
        top.contains_key(ascii("info"@)),
        top[ascii("info"@)] == Tree::Dict(info),
        info.contains_key(ascii("name"@)),
        info[ascii("name"@)] == Tree::Bytes(name),
        info.contains_key(ascii("piece length"@)),
        info[ascii("piece length"@)] == Tree::Integer(piece_length),
        info.contains_key(ascii("pieces"@)),
        info[ascii("pieces"@)] == Tree::Bytes(pieces),
        bencode_encoded(Tree::Dict(info)) == Ok::<Seq<u8>, Seq<char>>(data),
    ensures
        parsed(Tree::Dict(top)) matches Ok(torrent) && {
            &&& torrent.name == utf8_lossy(name)
            &&& piece_length >= 0 ==> torrent.piece_length == piece_length
            &&& piece_length < 0 ==> torrent.piece_length == piece_length
                + 0x1_0000_0000_0000_0000
            &&& torrent.pieces == pieces
            &&& torrent.info_hash == sha1_of(data)
            &&& (info.contains_key(ascii("length"@)) && info[ascii("length"@)] is Integer) ==> (
            torrent.length matches Some(length) && {
                let told = info[ascii("length"@)]->Integer_0;
                &&& told >= 0 ==> length == told
                &&& told < 0 ==> length == told + 0x1_0000_0000_0000_0000
            })
            &&& !(info.contains_key(ascii("length"@)) && info[ascii("length"@)] is Integer)
                ==> torrent.length is None
        },
{
    lemma_lower_bits(piece_length);
    if info.contains_key(ascii("length"@)) && info[ascii("length"@)] is Integer {
        lemma_lower_bits(info[ascii("length"@)]->Integer_0);
    }
}

proof fn lemma_lower_bits(i: i64)
    ensures
        i >= 0 ==> i as u64 == i,
        i < 0 ==> i as u64 == i + 0x1_0000_0000_0000_0000,
{
    assert(i < 0 ==> i as u64 == i + 0x1_0000_0000_0000_0000) by (bit_vector);
}

/// Whether a value is a dictionary that holds a byte string under this key.
pub open spec fn holds_bytes(tree: Tree, key: Seq<u8>) -> bool {
    tree matches Tree::Dict(dict) && dict.contains_key(key) && dict[key] is Bytes
}

/// A torrent file is refused for the first thing that is missing, and says which: that it is no
/// dictionary, a byte string under `announce`, a dictionary under `info`, and in this a byte string
/// under `name`, an integer under `piece length` and a byte string under `pieces`. An info dictionary
/// that cannot be encoded is refused with the reason. Nothing else is refused.
pub proof fn law_refused_for_what_is_missing(tree: Tree)
    ensures
        ({
            let info = tree->Dict_0[ascii("info"@)];
            let entries = info->Dict_0;
            if !(tree is Dict) {
                parsed(tree) == Err::<InfoView, ErrorView>(
                    ErrorView::InvalidTorrent("Top-level is not a dictionary"@),
                )
            } else if !holds_bytes(tree, ascii("announce"@)) {
                parsed(tree) == Err::<InfoView, ErrorView>(
                    ErrorView::InvalidTorrent("Missing 'announce'"@),
                )
            } else if !tree->Dict_0.contains_key(ascii("info"@)) || !(info is Dict) {
                parsed(tree) == Err::<InfoView, ErrorView>(
                    ErrorView::InvalidTorrent("Missing 'info' dictionary"@),
                )
            } else if !holds_bytes(info, ascii("name"@)) {
                parsed(tree) == Err::<InfoView, ErrorView>(
                    ErrorView::InvalidTorrent("Missing 'name'"@),
                )
            } else if !entries.contains_key(ascii("piece length"@)) || !(entries[ascii(
                "piece length"@,
            )] is Integer) {
                parsed(tree) == Err::<InfoView, ErrorView>(
                    ErrorView::InvalidTorrent("Missing 'piece length'"@),
                )
            } else if !holds_bytes(info, ascii("pieces"@)) {
                parsed(tree) == Err::<InfoView, ErrorView>(
                    ErrorView::InvalidTorrent("Missing 'pieces'"@),
                )
            } else {
                &&& bencode_encoded(info) matches Err(text) ==> parsed(tree) == Err::<
                    InfoView,
                    ErrorView,
                >(ErrorView::Bencode("Bencode error: "@ + text))
                &&& bencode_encoded(info) is Ok ==> parsed(tree) is Ok
            }
        }),
{
}

/// The bytes of a torrent file say what the value says to which they decode; where they decode to
/// none, they are refused with the reason.
pub proof fn law_torrent_file_is_decoded(data: Seq<u8>)
    ensures
        bencode_decoded(data, usize::BITS) matches Ok(tree) ==> parsed_file(data) == parsed(tree),
        bencode_decoded(data, usize::BITS) matches Err(text) ==> parsed_file(data) == Err::<
            InfoView,
            ErrorView,
        >(ErrorView::Bencode("Bencode decoding error: "@ + text)),
{
}

/// The trackers of a tier are its byte strings, in their order; whatever else is in it is passed
/// over.
pub proof fn law_trackers_of_a_tier(a: Seq<Tree>, b: Seq<Tree>, item: Tree)
    ensures
        tier_trackers(a + b) == tier_trackers(a) + tier_trackers(b),
        item matches Tree::Bytes(url) ==> tier_trackers(seq![item]) == seq![utf8_lossy(url)],
        !(item is Bytes) ==> tier_trackers(seq![item]).len() == 0,
    decreases b.len(),
{
    reveal_with_fuel(tier_trackers, 2);
    assert(seq![item].drop_last() =~= Seq::empty());
    if let Tree::Bytes(url) = item {
        assert(tier_trackers(seq![item]) =~= seq![utf8_lossy(url)]);
    }
    if b.len() == 0 {
        assert(a + b =~= a);
        assert(tier_trackers(a) + tier_trackers(b) =~= tier_trackers(a));
    } else {
        law_trackers_of_a_tier(a, b.drop_last(), item);
        assert((a + b).drop_last() =~= a + b.drop_last());
        assert((a + b).last() == b.last());
        assert(tier_trackers(a + b) =~= tier_trackers(a) + tier_trackers(b));
    }
}

/// The trackers of several tiers follow each other in the order of the tiers; whatever is no list
/// among them is passed over.
pub proof fn law_tiers_follow_each_other(a: Seq<Tree>, b: Seq<Tree>, tier: Tree)
    ensures
        all_trackers(a + b) == all_trackers(a) + all_trackers(b),
        tier matches Tree::List(items) ==> all_trackers(seq![tier]) == tier_trackers(items),
        !(tier is List) ==> all_trackers(seq![tier]).len() == 0,
    decreases b.len(),
{
    reveal_with_fuel(all_trackers, 2);
    assert(seq![tier].drop_last() =~= Seq::empty());
    if let Tree::List(items) = tier {
        assert(all_trackers(seq![tier]) =~= tier_trackers(items));
    }
    if b.len() == 0 {
        assert(a + b =~= a);
        assert(all_trackers(a) + all_trackers(b) =~= all_trackers(a));
    } else {
        law_tiers_follow_each_other(a, b.drop_last(), tier);
        assert((a + b).drop_last() =~= a + b.drop_last());
        assert((a + b).last() == b.last());
        assert(all_trackers(a + b) =~= all_trackers(a) + all_trackers(b));
    }
}

/// A torrent names the trackers of its announce list. Where the list names none, or there is none,
/// it names the one under `announce`.
pub proof fn law_announce_list_comes_first(tree: Tree)
    ensures
        parsed(tree) matches Ok(torrent) ==> {
            let key = ascii("announce-list"@);
            let dict = tree->Dict_0;
            let listed = dict.contains_key(key) && dict[key] is List && all_trackers(
                dict[key]->List_0,
            ).len() > 0;
            &&& listed ==> torrent.announce_list == all_trackers(dict[key]->List_0)
            &&& !listed ==> torrent.announce_list == seq![utf8_lossy(
                dict[ascii("announce"@)]->Bytes_0,
            )]
        },
{
}

/// The digest of a value is that of its encoding; where it cannot be encoded, there is none, but the
/// reason.
pub proof fn law_digest_is_that_of_the_encoding(info: Tree)
    ensures
        bencode_encoded(info) matches Ok(data) ==> hashed(info) == Ok::<Seq<u8>, ErrorView>(
            sha1_of(data),
        ),
        bencode_encoded(info) matches Err(text) ==> hashed(info) == Err::<Seq<u8>, ErrorView>(
            ErrorView::Bencode("Bencode error: "@ + text),
        ),
{
}

/// The plain value of a torrent tells what the torrent holds: its trackers in their order, and all
/// else as it is.
pub proof fn law_plain_torrent(torrent: TorrentInfo, i: int)
    ensures
        torrent@.announce_list.len() == torrent.announce_list@.len(),
        0 <= i < torrent.announce_list@.len() ==> torrent@.announce_list[i]
            == torrent.announce_list@[i]@,
        torrent@.name == torrent.name@,
        torrent@.piece_length == torrent.piece_length,
        torrent@.length == torrent.length,
        torrent@.pieces == torrent.pieces@,
        torrent@.info_hash == torrent.info_hash@,
{
}

/// The plain value of an error tells of which kind it is, and its text.
pub proof fn law_plain_error(error: Error)
    ensures
        error matches Error::Bencode(text) ==> error@ == ErrorView::Bencode(text@),
        error matches Error::InvalidTorrent(text) ==> error@ == ErrorView::InvalidTorrent(text@),
        plain(Err(error)) == Err::<InfoView, ErrorView>(error@),
{
}

/// The plain value of a torrent that was read is that of the torrent.
pub proof fn law_plain_result(torrent: TorrentInfo)
    ensures
        plain(Ok(torrent)) == Ok::<InfoView, ErrorView>(torrent@),
{
}

} // verus!
