//! The actor that writes the pieces of a download to its file.
use crate::peer_worker;
use crate::torrent::{InfoView, TorrentInfo};
use vstd::prelude::*;
use vstd::string::*;

verus! {

/// What the output actor is told.
#[derive(Debug)]
pub enum OutputMsg {
    /// A piece is here: its index and its bytes.
    Have((usize, Vec<u8>)),
}

/// What is to be done.
pub enum OutputAction {
    /// Nothing: the torrent has no piece of this index.
    Skip(usize),
    /// Write these bytes at this offset, and report so many of them.
    Write(u64, Vec<u8>, usize),
}

/// `OutputMsg` as a plain value.
pub enum MsgView {
    Have(usize, Seq<u8>),
}

/// `OutputAction` as a plain value.
#[verifier::ext_equal]
pub enum ActionView {
    Skip(usize),
    Write(u64, Seq<u8>, usize),
}

impl View for OutputMsg {
    type V = MsgView;

    open spec fn view(&self) -> MsgView {
        match *self {
            OutputMsg::Have((index, data)) => MsgView::Have(index, data@),
        }
    }
}

impl View for OutputAction {
    type V = ActionView;

    open spec fn view(&self) -> ActionView {
        match *self {
            OutputAction::Skip(index) => ActionView::Skip(index),
            OutputAction::Write(offset, data, size) => ActionView::Write(offset, data@, size),
        }
    }
}

/// What the output actor knows of the file.
pub struct OutputFile {
    file_name: String,
    piece_length: usize,
    total_length: usize,
    num_pieces: usize,
}

/// `OutputFile` as a plain value.
#[verifier::ext_equal]
pub struct OutputView {
    /// The path of the file.
    pub file_name: Seq<char>,
    /// The size of every piece but the last.
    pub piece_length: usize,
    /// The size of the file, nothing where the torrent does not tell.
    pub total_length: usize,
    /// The number of pieces.
    pub num_pieces: usize,
}

impl View for OutputFile {
    type V = OutputView;

    closed spec fn view(&self) -> OutputView {
        OutputView {
            file_name: self.file_name@,
            piece_length: self.piece_length,
            total_length: self.total_length,
            num_pieces: self.num_pieces,
        }
    }
}

/// Whether the actor can take this message: the offset of the piece can be told.
pub open spec fn accepts(v: OutputView, msg: MsgView) -> bool {
    match msg {
        MsgView::Have(index, _) => index < v.num_pieces ==> index * v.piece_length <= usize::MAX,
    }
}

/// What is to be done with a piece: it goes where the pieces before it end.
pub open spec fn action_for(v: OutputView, msg: MsgView) -> ActionView {
    match msg {
        MsgView::Have(index, data) => if index >= v.num_pieces {
            ActionView::Skip(index)
        } else {
            ActionView::Write(
                (index * v.piece_length) as u64,
                data,
                if data.len() <= v.piece_length {
                    data.len() as usize
                } else {
                    v.piece_length
                },
            )
        },
    }
}

/// The file of a torrent.
pub open spec fn file_of(torrent: InfoView) -> OutputView {
    OutputView {
        file_name: "./"@ + torrent.name,
        piece_length: torrent.piece_length as usize,
        total_length: match torrent.length {
            Some(length) => length as usize,
            None => 0,
        },
        num_pieces: (torrent.pieces.len() / 20) as usize,
    }
}

/// The size that a file is to be given at the start, where it is known.
pub open spec fn preallocated(v: OutputView) -> Option<u64> {
    if v.total_length > 0 {
        Some(v.total_length as u64)
    } else {
        None
    }
}

impl OutputFile {
    /// The file of a torrent.
    pub fn new(torrent: &TorrentInfo) -> (r: Self)
        ensures
            r@ == (OutputView {
                file_name: "./"@ + torrent.name@,
                piece_length: torrent.piece_length as usize,
                total_length: match torrent.length {
                    Some(length) => length as usize,
                    None => 0,
                },
                num_pieces: (torrent.pieces@.len() / 20) as usize,
            }),
            r@ == file_of(torrent@),
    {
        OutputFile {
            file_name: "./".to_owned().concat(torrent.name.as_str()),
            piece_length: torrent.piece_length as usize,
            total_length: match torrent.length {
                Some(length) => length as usize,
                None => 0,
            },
            num_pieces: torrent.pieces.len() / 20,
        }
    }

    /// The path of the file.
    pub fn file_name(&self) -> (r: &str)
        ensures
            r@ == self@.file_name,
    {
        self.file_name.as_str()
    }

    /// The size that the file is to be given at the start, where it is known.
    pub fn preallocation(&self) -> (r: Option<u64>)
        ensures
            r == if self@.total_length > 0 {
                Some(self@.total_length as u64)
            } else {
                None
            },
            r == preallocated(self@),
    {
        if self.total_length > 0 {
            Some(self.total_length as u64)
        } else {
            None
        }
    }

    /// Whether the actor can take this message.
    pub fn accepts(&self, msg: &OutputMsg) -> (r: bool)
        ensures
            r == accepts(self@, msg@),
    {
        match msg {
            OutputMsg::Have((index, _)) => *index >= self.num_pieces || index.checked_mul(
                self.piece_length,
            ).is_some(),
        }
    }
}

/// Takes a message to the actor, and tells what is to be done with the file.
pub fn output_actor(file: &OutputFile, msg: OutputMsg) -> (action: OutputAction)
    requires
        accepts(file@, msg@),
    ensures
        action@ == action_for(file@, msg@),
{
    match msg {
        OutputMsg::Have((index, data)) => {
            if index >= file.num_pieces {
                return OutputAction::Skip(index);
            }
            let offset: usize = index * file.piece_length;
            let size: usize = if data.len() <= file.piece_length {
                data.len()
            } else {
                file.piece_length
            };
            OutputAction::Write(offset as u64, data, size)
        },
    }
}

/// A file after `data` was written at `offset`. What lies between the old end of the file and
/// `offset` is filled with zeros.
pub open spec fn file_after(file: Seq<u8>, offset: int, data: Seq<u8>) -> Seq<u8> {
    Seq::new(
        if offset + data.len() <= file.len() {
            file.len()
        } else {
            (offset + data.len()) as nat
        },
        |i: int|
            if offset <= i < offset + data.len() {
                data[i - offset]
            } else if i < file.len() {
                file[i]
            } else {
                0
            },
    )
}

/// The part of the content of a file that a piece is to hold.
pub open spec fn piece_of(content: Seq<u8>, piece_length: int, index: int) -> Seq<u8> {
    content.subrange(
        index * piece_length,
        if (index + 1) * piece_length <= content.len() {
            (index + 1) * piece_length
        } else {
            content.len() as int
        },
    )
}

/// Whether the file holds the part of the content that belongs to a piece.
pub open spec fn holds_piece(
    file: Seq<u8>,
    content: Seq<u8>,
    piece_length: int,
    index: int,
) -> bool {
    piece_of(file, piece_length, index) == piece_of(content, piece_length, index)
}

/// A piece that was written is read back as it was.
pub proof fn law_written_piece_is_read_back(file: Seq<u8>, offset: int, data: Seq<u8>)
    requires
        0 <= offset,
    ensures
        file_after(file, offset, data).subrange(offset, offset + data.len()) == data,
{
    assert(file_after(file, offset, data).subrange(offset, offset + data.len()) =~= data);
}

/// Writing a piece puts it where it belongs, and leaves the other pieces in the file.
pub proof fn law_piece_lands_in_its_place(
    v: OutputView,
    file: Seq<u8>,
    content: Seq<u8>,
    index: usize,
    other: int,
)
    requires
        file.len() == content.len(),
        0 < v.piece_length,
        index < v.num_pieces,
        index * v.piece_length <= content.len() <= usize::MAX,
        0 <= other,
        other * v.piece_length <= content.len(),
    ensures
        ({
            let size = v.piece_length as int;
            let piece = piece_of(content, size, index as int);
            &&& accepts(v, MsgView::Have(index, piece))
            &&& action_for(v, MsgView::Have(index, piece)) matches ActionView::Write(offset, data, _)
                && {
                let after = file_after(file, offset as int, data);
                &&& after.len() == content.len()
                &&& holds_piece(after, content, size, index as int)
                &&& holds_piece(file, content, size, other) ==> holds_piece(
                    after,
                    content,
                    size,
                    other,
                )
            }
        }),
{
    let size = v.piece_length as int;
    let piece = piece_of(content, size, index as int);
    let after = file_after(file, index * size, piece);
    assert((index + 1) * size == index * size + size) by (nonlinear_arith);
    assert((other + 1) * size == other * size + size) by (nonlinear_arith);
    assert(0 <= index * size && 0 <= other * size) by (nonlinear_arith)
        requires
            0 <= index,
            0 <= other,
            0 < size,
    ;
    assert(after.len() == content.len());
    assert(piece_of(after, size, index as int) =~= piece);
    if holds_piece(file, content, size, other) && other != index {
        assert((other + 1) * size <= index * size || (index + 1) * size <= other * size)
            by (nonlinear_arith)
            requires
                other != index,
                0 < size,
        ;
        assert(piece_of(after, size, other) =~= piece_of(file, size, other));
    }
}

/// A file of the right size that holds every piece of the content is the content.
pub proof fn law_pieces_make_the_file(
    file: Seq<u8>,
    content: Seq<u8>,
    piece_length: int,
    pieces: int,
)
    requires
        file.len() == content.len(),
        0 < piece_length,
        content.len() <= pieces * piece_length,
        forall|i: int|
            0 <= i < pieces ==> #[trigger] holds_piece(file, content, piece_length, i),
    ensures
        file == content,
{
    assert forall|k: int| 0 <= k < content.len() implies file[k] == content[k] by {
        let i = k / piece_length;
        vstd::arithmetic::div_mod::lemma_fundamental_div_mod(k, piece_length);
        vstd::arithmetic::div_mod::lemma_mod_bound(k, piece_length);
        assert(i * piece_length <= k < (i + 1) * piece_length) by (nonlinear_arith)
            requires
                k == piece_length * i + k % piece_length,
                0 <= k % piece_length < piece_length,
        ;
        assert(0 <= i < pieces) by (nonlinear_arith)
            requires
                i * piece_length <= k < (i + 1) * piece_length,
                0 <= k < pieces * piece_length,
                0 < piece_length,
        ;
        assert(holds_piece(file, content, piece_length, i));
        let at = k - i * piece_length;
        assert(piece_of(file, piece_length, i)[at] == file[k]);
        assert(piece_of(content, piece_length, i)[at] == content[k]);
    }
    assert(file =~= content);
}

/// A piece that a worker takes up is as long as the part of the file that belongs to it, where the
/// torrent tells the size of the file and has the digests of as many pieces as the file needs.
pub proof fn law_piece_sizes_fit_the_file(
    v: peer_worker::WorkerView,
    content: Seq<u8>,
    index: usize,
)
    requires
        v.torrent.pieces.len() >= 20,
        0 <= index <= peer_worker::last_piece(v.torrent.pieces),
        content.len() == peer_worker::total_length(v),
        0 < v.torrent.piece_length as usize,
        peer_worker::last_piece(v.torrent.pieces) * (v.torrent.piece_length as usize) <= content.len(),
        content.len() <= (peer_worker::last_piece(v.torrent.pieces) + 1) * (v.torrent.piece_length as usize),
    ensures
        piece_of(content, v.torrent.piece_length as usize as int, index as int).len()
            == peer_worker::size_of_piece(v, index),
{
    let last = peer_worker::last_piece(v.torrent.pieces);
    let size = v.torrent.piece_length as usize as int;
    assert(last * size == size * last) by (nonlinear_arith);
    assert((index + 1) * size == index * size + size) by (nonlinear_arith);
    assert(0 <= index * size) by (nonlinear_arith)
        requires
            0 <= index,
            0 < size,
    ;
    if index < last {
        assert((index + 1) * size <= last * size) by (nonlinear_arith)
            requires
                index < last,
                0 < size,
        ;
    }
}

/// The file of a torrent has the name of the torrent and lies in the current directory. It has a
/// piece for each twenty bytes of digests, of the size that the torrent tells; and it is given the
/// length that the torrent tells at the start, where that is known and not nothing.
pub proof fn law_file_of_a_torrent(torrent: InfoView)
    requires
        torrent.piece_length <= usize::MAX,
        torrent.pieces.len() <= usize::MAX,
        torrent.length matches Some(length) ==> length <= usize::MAX,
    ensures
        ({
            let v = file_of(torrent);
            &&& v.file_name.len() == torrent.name.len() + 2
            &&& v.file_name[0] == '.'
            &&& v.file_name[1] == '/'
            &&& v.file_name.skip(2) == torrent.name
            &&& v.piece_length == torrent.piece_length
            &&& 20 * v.num_pieces <= torrent.pieces.len() < 20 * v.num_pieces + 20
            &&& torrent.length matches Some(length) ==> {
                &&& v.total_length == length
                &&& length > 0 ==> preallocated(v) == Some(length)
                &&& length == 0 ==> preallocated(v) is None
            }
            &&& torrent.length is None ==> v.total_length == 0 && preallocated(v) is None
        }),
{
    reveal_strlit("./");
    assert(file_of(torrent).file_name.skip(2) =~= torrent.name);
}

/// A piece of the torrent is written whole, at as many times the size of a piece as there are pieces
/// before it, and of its bytes no more than a piece has are reported. A piece that the torrent does
/// not have is skipped. The actor takes every piece whose offset can be told.
pub proof fn law_pieces_are_written_in_their_place(v: OutputView, index: usize, data: Seq<u8>)
    requires
        data.len() <= usize::MAX,
    ensures
        accepts(v, MsgView::Have(index, data)) <==> index >= v.num_pieces || index * v.piece_length
            <= usize::MAX,
        index >= v.num_pieces ==> action_for(v, MsgView::Have(index, data)) == ActionView::Skip(
            index,
        ),
        index < v.num_pieces && index * v.piece_length <= usize::MAX ==> (action_for(
            v,
            MsgView::Have(index, data),
        ) matches ActionView::Write(offset, bytes, reported) && {
            &&& offset == index * v.piece_length
            &&& bytes == data
            &&& reported <= data.len()
            &&& reported <= v.piece_length
            &&& reported == data.len() || reported == v.piece_length
        }),
{
    assert(0 <= index * v.piece_length) by (nonlinear_arith)
        requires
            0 <= index,
            0 <= v.piece_length,
    ;
}

/// The plain values of messages and actions tell what these hold: the same piece, offset and size,
/// and the same bytes in their order.
pub proof fn law_plain_messages_and_actions(msg: OutputMsg, action: OutputAction)
    ensures
        msg matches OutputMsg::Have(piece) ==> msg@ == MsgView::Have(piece.0, piece.1@),
        action matches OutputAction::Skip(index) ==> action@ == ActionView::Skip(index),
        action matches OutputAction::Write(offset, data, size) ==> action@ == ActionView::Write(
            offset,
            data@,
            size,
        ),
{
}

} // verus!
