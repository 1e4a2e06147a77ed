//! Bencoded data.
use bendy::decoding::FromBencode;
use bendy::encoding::ToBencode;
use bip_bencode::{BDecodeOpt, BRefAccess, BencodeRefKind};
use std::borrow::Cow;
use vstd::prelude::*;

verus! {

/// A bencoded value. Of the entries of a dictionary that have the same key the last one counts.
pub enum Bencode {
    /// A byte string.
    Bytes(Vec<u8>),
    /// A dictionary.
    Dict(Vec<(Vec<u8>, Bencode)>),
    /// An integer.
    Integer(i64),
    /// A list.
    List(Vec<Bencode>),
}

/// `Bencode` as a plain value.
pub enum Tree {
    Bytes(Seq<u8>),
    Dict(Map<Seq<u8>, Tree>),
    Integer(i64),
    List(Seq<Tree>),
}

/// What a value is.
pub open spec fn tree_of(v: Bencode) -> Tree
    decreases v, 0nat,
{
    match v {
        Bencode::Bytes(bytes) => Tree::Bytes(bytes@),
        Bencode::Dict(entries) => Tree::Dict(dict_of(entries@, entries@.len())),
        Bencode::Integer(i) => Tree::Integer(i),
        Bencode::List(items) => Tree::List(list_of(items@, items@.len())),
    }
}

/// What the first `n` entries of a dictionary are.
pub open spec fn dict_of(entries: Seq<(Vec<u8>, Bencode)>, n: nat) -> Map<Seq<u8>, Tree>
    decreases entries, n,
{
    if n == 0 || n > entries.len() {
        Map::empty()
    } else {
        dict_of(entries, (n - 1) as nat).insert(
            entries[n - 1].0@,
            tree_of(entries[n - 1].1),
        )
    }
}

/// What the first `n` items of a list are.
pub open spec fn list_of(items: Seq<Bencode>, n: nat) -> Seq<Tree>
    decreases items, n,
{
    if n == 0 || n > items.len() {
        Seq::empty()
    } else {
        list_of(items, (n - 1) as nat).push(tree_of(items[n - 1]))
    }
}

impl View for Bencode {
    type V = Tree;

    open spec fn view(&self) -> Tree {
        tree_of(*self)
    }
}

/// A value with its outermost layer taken off.
enum Node<T> {
    Bytes(Vec<u8>),
    Dict(Vec<(Vec<u8>, T)>),
    Integer(i64),
    List(Vec<T>),
}

/// What a value is, told from its outermost layer and from what the values inside are.
spec fn node_tree<T>(node: Node<T>, inner: spec_fn(T) -> Tree) -> Tree {
    match node {
        Node::Bytes(bytes) => Tree::Bytes(bytes@),
        Node::Dict(entries) => Tree::Dict(node_dict(entries@, inner, entries@.len())),
        Node::Integer(i) => Tree::Integer(i),
        Node::List(items) => Tree::List(Seq::new(items@.len(), |i: int| inner(items@[i]))),
    }
}

/// What the first `n` entries of a dictionary are.
spec fn node_dict<T>(entries: Seq<(Vec<u8>, T)>, inner: spec_fn(T) -> Tree, n: nat) -> Map<
    Seq<u8>,
    Tree,
>
    decreases n,
{
    if n == 0 {
        Map::empty()
    } else {
        node_dict(entries, inner, (n - 1) as nat).insert(
            entries[n - 1].0@,
            inner(entries[n - 1].1),
        )
    }
}

/// Whether no two entries have the same key.
spec fn keys_differ<T>(entries: Seq<(Vec<u8>, T)>) -> bool {
    forall|i: int, j: int|
        0 <= i < j < entries.len() ==> #[trigger] entries[i].0@ != #[trigger] entries[j].0@
}

proof fn lemma_node_dict<T>(
    entries: Seq<(Vec<u8>, T)>,
    inner: spec_fn(T) -> Tree,
    n: nat,
    i: int,
)
    requires
        keys_differ(entries),
        0 <= i < n <= entries.len(),
    ensures
        node_dict(entries, inner, n).contains_key(entries[i].0@),
        node_dict(entries, inner, n)[entries[i].0@] == inner(entries[i].1),
        node_dict(entries, inner, n).dom().finite(),
    decreases n,
{
    if i < n - 1 {
        lemma_node_dict(entries, inner, (n - 1) as nat, i);
    }
    lemma_node_dict_finite(entries, inner, n);
}

proof fn lemma_node_dict_finite<T>(
    entries: Seq<(Vec<u8>, T)>,
    inner: spec_fn(T) -> Tree,
    n: nat,
)
    ensures
        node_dict(entries, inner, n).dom().finite(),
    decreases n,
{
    if n > 0 {
        lemma_node_dict_finite(entries, inner, (n - 1) as nat);
    }
}

proof fn lemma_same_dict<T>(
    entries: Seq<(Vec<u8>, Bencode)>,
    others: Seq<(Vec<u8>, T)>,
    inner: spec_fn(T) -> Tree,
    n: nat,
)
    requires
        n <= entries.len(),
        n <= others.len(),
        forall|i: int|
            0 <= i < n ==> (#[trigger] entries[i]).0@ == others[i].0@ && tree_of(entries[i].1) == inner(
                others[i].1,
            ),
    ensures
        dict_of(entries, n) == node_dict(others, inner, n),
    decreases n,
{
    if n > 0 {
        lemma_same_dict(entries, others, inner, (n - 1) as nat);
        assert(entries[n - 1].0@ == others[n - 1].0@);
    }
}

pub(crate) proof fn lemma_list_of(items: Seq<Bencode>, n: nat)
    requires
        n <= items.len(),
    ensures
        list_of(items, n).len() == n,
        forall|i: int| 0 <= i < n ==> #[trigger] list_of(items, n)[i] == tree_of(items[i]),
    decreases n,
{
    if n > 0 {
        lemma_list_of(items, (n - 1) as nat);
    }
}

/// `bendy::value::Value`, a bencoded value. Nothing is claimed of what is inside.
#[verifier::external_type_specification]
#[verifier::external_body]
pub struct ExBendyValue<'a>(bendy::value::Value<'a>);

/// What a `bendy::value::Value` holds.
pub uninterp spec fn contents(value: bendy::value::Value<'static>) -> Tree;

/// What `bendy::value::Value::from_bencode` makes of a byte string on a machine whose words have so
/// many bits: a value, or the text of an error.
pub uninterp spec fn bencode_decoded(data: Seq<u8>, word: u32) -> Result<Tree, Seq<char>>;

/// What `to_bencode` makes of a `bendy::value::Value` that holds this: a byte string, or the text
/// of an error.
pub uninterp spec fn bencode_encoded(tree: Tree) -> Result<Seq<u8>, Seq<char>>;

/// `bendy::value::Value::from_bencode`: its result depends on nothing but the bytes and the width of
/// a word, on which the text of the error for a length that no word holds depends. It calls itself
/// for every level of nesting, so bytes that nest too deeply for the stack of the machine end the
/// program.
#[verifier::external_body]
fn decode_value(data: &[u8]) -> (r: Result<bendy::value::Value<'static>, String>)
    ensures
        match r {
            Ok(value) => bencode_decoded(data@, usize::BITS) == Ok::<Tree, Seq<char>>(contents(value)),
            Err(text) => bencode_decoded(data@, usize::BITS) == Err::<Tree, Seq<char>>(text@),
        },
{
    bendy::value::Value::from_bencode(data).map_err(|e| e.to_string())
}

/// `to_bencode` of a `bendy::value::Value`: its result depends on nothing but what the value
/// holds. It calls itself for every level of nesting, so a value that nests too deeply for the
/// stack of the machine ends the program.
#[verifier::external_body]
fn encode_value(value: &bendy::value::Value<'static>) -> (r: Result<Vec<u8>, String>)
    ensures
        match r {
            Ok(data) => bencode_encoded(contents(*value)) == Ok::<Seq<u8>, Seq<char>>(data@),
            Err(text) => bencode_encoded(contents(*value)) == Err::<Seq<u8>, Seq<char>>(text@),
        },
{
    value.to_bencode().map_err(|e| e.to_string())
}

/// Takes the outermost layer off a `bendy::value::Value`. A dictionary there is an ordered map, so
/// its keys differ.
#[verifier::external_body]
fn open_value(value: bendy::value::Value<'static>) -> (r: Node<bendy::value::Value<'static>>)
    ensures
        node_tree(r, |v: bendy::value::Value<'static>| contents(v)) == contents(value),
        r matches Node::Dict(entries) ==> keys_differ(entries@),
{
    match value {
        bendy::value::Value::Bytes(bytes) => Node::Bytes(bytes.into_owned()),
        bendy::value::Value::Dict(dict) => Node::Dict(
            dict.into_iter().map(|(key, item)| (key.into_owned(), item)).collect(),
        ),
        bendy::value::Value::Integer(i) => Node::Integer(i),
        bendy::value::Value::List(items) => Node::List(items),
    }
}

/// Builds a `bendy::value::Value` from its outermost layer. A dictionary there is an ordered map of
/// the entries, whose keys have to differ.
#[verifier::external_body]
fn close_value(node: Node<bendy::value::Value<'static>>) -> (r: bendy::value::Value<'static>)
    requires
        node matches Node::Dict(entries) ==> keys_differ(entries@),
    ensures
        contents(r) == node_tree(node, |v: bendy::value::Value<'static>| contents(v)),
{
    match node {
        Node::Bytes(bytes) => bendy::value::Value::Bytes(Cow::Owned(bytes)),
        Node::Dict(entries) => bendy::value::Value::Dict(
            entries.into_iter().map(|(key, item)| (Cow::Owned(key), item)).collect(),
        ),
        Node::Integer(i) => bendy::value::Value::Integer(i),
        Node::List(items) => bendy::value::Value::List(items),
    }
}

/// Turns a value of the bendy crate into one of this library.
fn value_in(value: bendy::value::Value<'static>) -> (r: Bencode)
    ensures
        r@ == contents(value),
    decreases contents(value),
{
    let ghost inner = |v: bendy::value::Value<'static>| contents(v);
    match open_value(value) {
        Node::Bytes(bytes) => Bencode::Bytes(bytes),
        Node::Dict(entries) => {
            let mut out: Vec<(Vec<u8>, Bencode)> = Vec::new();
            let ghost all = entries@;
            for entry in it: entries
                invariant
                    it.seq() == all,
                    inner == (|v: bendy::value::Value<'static>| contents(v)),
                    contents(value) == Tree::Dict(node_dict(all, inner, all.len())),
                    keys_differ(all),
                    out@.len() == it.index(),
                    forall|i: int|
                        0 <= i < it.index() ==> (#[trigger] out@[i]).0@ == all[i].0@ && tree_of(
                            out@[i].1,
                        ) == contents(all[i].1),
            {
                let (key, item) = entry;
                proof {
                    lemma_node_dict(all, inner, all.len(), it.index() as int);
                    let dict = contents(value)->Dict_0;
                    assert(decreases_to!(contents(value) => dict));
                    assert(decreases_to!(dict => dict[key@]));
                }
                let plain: Bencode = value_in(item);
                out.push((key, plain));
            }
            proof {
                lemma_same_dict(out@, all, inner, all.len());
            }
            Bencode::Dict(out)
        },
        Node::Integer(i) => Bencode::Integer(i),
        Node::List(items) => {
            let mut out: Vec<Bencode> = Vec::new();
            let ghost all = items@;
            assert(contents(value)->List_0 =~= Seq::new(all.len(), |i: int| contents(all[i])));
            for item in it: items
                invariant
                    it.seq() == all,
                    contents(value) == Tree::List(Seq::new(all.len(), |i: int| contents(all[i]))),
                    out@.len() == it.index(),
                    forall|i: int|
                        0 <= i < it.index() ==> tree_of(#[trigger] out@[i]) == contents(all[i]),
            {
                proof {
                    let trees = contents(value)->List_0;
                    assert(decreases_to!(contents(value) => trees));
                    assert(decreases_to!(trees => trees[it.index() as int]));
                }
                let plain: Bencode = value_in(item);
                out.push(plain);
            }
            proof {
                lemma_list_of(out@, out@.len());
                assert(list_of(out@, out@.len()) =~= Seq::new(
                    all.len(),
                    |i: int| contents(all[i]),
                ));
            }
            Bencode::List(out)
        },
    }
}

/// Whether an entry has this key.
spec fn has_key<T>(entries: Seq<(Vec<u8>, T)>, key: Seq<u8>) -> bool {
    exists|m: int| 0 <= m < entries.len() && (#[trigger] entries[m]).0@ == key
}

/// Whether an entry has this key.
fn holds_key<T>(entries: &Vec<(Vec<u8>, T)>, key: &[u8]) -> (r: bool)
    ensures
        r == has_key(entries@, key@),
{
    let mut i: usize = 0;
    while i < entries.len()
        invariant
            i <= entries@.len(),
            forall|m: int| 0 <= m < i ==> (#[trigger] entries@[m]).0@ != key@,
        decreases entries@.len() - i,
    {
        if same_bytes(entries[i].0.as_slice(), key) {
            assert(entries@[i as int].0@ == key@);
            return true;
        }
        i += 1;
    }
    false
}

proof fn lemma_node_dict_keys<T>(
    entries: Seq<(Vec<u8>, T)>,
    inner: spec_fn(T) -> Tree,
    n: nat,
    key: Seq<u8>,
)
    requires
        n <= entries.len(),
        node_dict(entries, inner, n).contains_key(key),
    ensures
        has_key(entries, key),
    decreases n,
{
    if n > 0 {
        if entries[n - 1].0@ != key {
            lemma_node_dict_keys(entries, inner, (n - 1) as nat, key);
        }
    }
}

proof fn lemma_dict_keys(entries: Seq<(Vec<u8>, Bencode)>, n: nat, key: Seq<u8>)
    requires
        n <= entries.len(),
        dict_of(entries, n).contains_key(key),
    ensures
        has_key(entries, key),
    decreases n,
{
    if n > 0 {
        if entries[n - 1].0@ != key {
            lemma_dict_keys(entries, (n - 1) as nat, key);
        }
    }
}

/// Entries with differing keys that a dictionary holds, among them one for each of its keys, are
/// the dictionary.
proof fn lemma_kept_entries<T>(
    entries: Seq<(Vec<u8>, Bencode)>,
    kept: Seq<(Vec<u8>, T)>,
    inner: spec_fn(T) -> Tree,
)
    requires
        keys_differ(kept),
        forall|m: int|
            0 <= m < kept.len() ==> dict_of(entries, entries.len()).contains_key(
                (#[trigger] kept[m]).0@,
            ) && dict_of(entries, entries.len())[kept[m].0@] == inner(kept[m].1),
        forall|j: int| 0 <= j < entries.len() ==> has_key(kept, (#[trigger] entries[j]).0@),
    ensures
        node_dict(kept, inner, kept.len()) == dict_of(entries, entries.len()),
{
    let whole = dict_of(entries, entries.len());
    let part = node_dict(kept, inner, kept.len());
    assert forall|key: Seq<u8>|
        #![trigger part.contains_key(key)]
        #![trigger whole.contains_key(key)]
        part.contains_key(key) == whole.contains_key(key) && (part.contains_key(key) ==> part[key]
            == whole[key]) by {
        if part.contains_key(key) {
            lemma_node_dict_keys(kept, inner, kept.len(), key);
            let m = choose|m: int| 0 <= m < kept.len() && (#[trigger] kept[m]).0@ == key;
            lemma_node_dict(kept, inner, kept.len(), m);
        }
        if whole.contains_key(key) {
            lemma_dict_keys(entries, entries.len(), key);
            let j = choose|j: int| 0 <= j < entries.len() && (#[trigger] entries[j]).0@ == key;
            assert(has_key(kept, entries[j].0@));
            let m = choose|m: int| 0 <= m < kept.len() && (#[trigger] kept[m]).0@ == key;
            lemma_node_dict(kept, inner, kept.len(), m);
        }
    }
    assert(part =~= whole);
}

/// Turns a value of this library into one of the bendy crate. Of the entries of a dictionary that
/// have the same key only the last one goes over.
fn value_out(value: &Bencode) -> (r: bendy::value::Value<'static>)
    ensures
        contents(r) == value@,
    decreases *value,
{
    let ghost inner = |v: bendy::value::Value<'static>| contents(v);
    match value {
        Bencode::Bytes(bytes) => close_value(Node::Bytes(bytes.clone())),
        Bencode::Dict(entries) => {
            let mut out: Vec<(Vec<u8>, bendy::value::Value<'static>)> = Vec::new();
            let ghost dict = dict_of(entries@, entries@.len());
            let mut i: usize = entries.len();
            while i > 0
                invariant
                    *value == Bencode::Dict(*entries),
                    i <= entries@.len(),
                    dict == dict_of(entries@, entries@.len()),
                    keys_differ(out@),
                    forall|m: int|
                        0 <= m < out@.len() ==> dict.contains_key((#[trigger] out@[m]).0@)
                            && dict[out@[m].0@] == contents(out@[m].1),
                    forall|j: int|
                        i <= j < entries@.len() ==> has_key(out@, (#[trigger] entries@[j]).0@),
                decreases i,
            {
                i -= 1;
                let ghost key = entries@[i as int].0@;
                let ghost before = out@;
                if !holds_key(&out, entries[i].0.as_slice()) {
                    proof {
                        assert(decreases_to!(*value => value->Dict_0));
                        assert(decreases_to!(entries@ => entries@[i as int]));
                        assert(decreases_to!(entries@[i as int] => entries@[i as int].1));
                        lemma_dict_of(entries@, entries@.len(), i + 1, key);
                    }
                    let item = value_out(&entries[i].1);
                    out.push((entries[i].0.clone(), item));
                    assert(out@[before.len() as int].0@ == key);
                }
                assert forall|j: int| i <= j < entries@.len() implies has_key(
                    out@,
                    (#[trigger] entries@[j]).0@,
                ) by {
                    if j > i || has_key(before, key) {
                        let m = choose|m: int|
                            0 <= m < before.len() && (#[trigger] before[m]).0@ == entries@[j].0@;
                        assert(out@[m] == before[m]);
                    }
                }
            }
            proof {
                lemma_kept_entries(entries@, out@, inner);
            }
            close_value(Node::Dict(out))
        },
        Bencode::Integer(i) => close_value(Node::Integer(*i)),
        Bencode::List(items) => {
            let mut out: Vec<bendy::value::Value<'static>> = Vec::new();
            let mut i: usize = 0;
            while i < items.len()
                invariant
                    *value == Bencode::List(*items),
                    i <= items@.len(),
                    out@.len() == i,
                    forall|k: int|
                        0 <= k < i ==> tree_of(#[trigger] items@[k]) == contents(out@[k]),
                decreases items@.len() - i,
            {
                proof {
                    assert(decreases_to!(*value => value->List_0));
                    assert(decreases_to!(items@ => items@[i as int]));
                }
                let item = value_out(&items[i]);
                out.push(item);
                i += 1;
            }
            proof {
                lemma_list_of(items@, items@.len());
                assert(list_of(items@, items@.len()) =~= Seq::new(
                    out@.len(),
                    |i: int| inner(out@[i]),
                ));
            }
            close_value(Node::List(out))
        },
    }
}

/// Decodes a bencoded value. What follows it is passed over.
pub fn decode(data: &[u8]) -> (r: Result<Bencode, String>)
    ensures
        match r {
            Ok(value) => bencode_decoded(data@, usize::BITS) == Ok::<Tree, Seq<char>>(value@),
            Err(text) => bencode_decoded(data@, usize::BITS) == Err::<Tree, Seq<char>>(text@),
        },
{
    match decode_value(data) {
        Ok(value) => Ok(value_in(value)),
        Err(text) => Err(text),
    }
}

/// Encodes a value.
pub fn encode(value: &Bencode) -> (r: Result<Vec<u8>, String>)
    ensures
        match r {
            Ok(data) => bencode_encoded(value@) == Ok::<Seq<u8>, Seq<char>>(data@),
            Err(text) => bencode_encoded(value@) == Err::<Seq<u8>, Seq<char>>(text@),
        },
{
    encode_value(&value_out(value))
}

/// `bip_bencode::BencodeRef`, a bencoded value that borrows its bytes. Nothing is claimed of what is
/// inside.
#[verifier::external_type_specification]
#[verifier::external_body]
pub struct ExBencodeRef<'a>(bip_bencode::BencodeRef<'a>);

/// What a `bip_bencode::BencodeRef` holds.
pub uninterp spec fn ref_contents(value: bip_bencode::BencodeRef<'_>) -> Tree;

/// What `bip_bencode::BencodeRef::decode` makes of a byte string with the default options, on a
/// machine whose words have so many bits: a value, or nothing where it reports an error.
pub uninterp spec fn reply_decoded(data: Seq<u8>, word: u32) -> Option<Tree>;

/// `bip_bencode::BencodeRef::decode` with the default options: its result depends on nothing but
/// the bytes and the width of a word, to which it cuts the length of a byte string.
#[verifier::external_body]
fn decode_ref<'a>(data: &'a [u8]) -> (r: Option<bip_bencode::BencodeRef<'a>>)
    ensures
        match r {
            Some(value) => reply_decoded(data@, usize::BITS) == Some(ref_contents(value)),
            None => reply_decoded(data@, usize::BITS) is None,
        },
{
    bip_bencode::BencodeRef::decode(data, BDecodeOpt::default()).ok()
}

/// Takes the outermost layer off a `bip_bencode::BencodeRef`, by its `kind`. A dictionary there is
/// an ordered map, so its keys differ.
#[verifier::external_body]
fn open_ref<'a>(value: &bip_bencode::BencodeRef<'a>) -> (r: Node<bip_bencode::BencodeRef<'a>>)
    ensures
        node_tree(r, |v: bip_bencode::BencodeRef<'a>| ref_contents(v)) == ref_contents(*value),
        r matches Node::Dict(entries) ==> keys_differ(entries@),
{
    match value.kind() {
        BencodeRefKind::Bytes(bytes) => Node::Bytes(bytes.to_vec()),
        BencodeRefKind::Dict(dict) => Node::Dict(
            dict.to_list().into_iter().map(|(key, item)| (key.to_vec(), item.clone())).collect(),
        ),
        BencodeRefKind::Int(i) => Node::Integer(i),
        BencodeRefKind::List(items) => Node::List(items.into_iter().cloned().collect()),
    }
}

/// Turns a value of the bip_bencode crate into one of this library.
fn ref_in<'a>(value: &bip_bencode::BencodeRef<'a>) -> (r: Bencode)
    ensures
        r@ == ref_contents(*value),
    decreases ref_contents(*value),
{
    let ghost inner = |v: bip_bencode::BencodeRef<'a>| ref_contents(v);
    match open_ref(value) {
        Node::Bytes(bytes) => Bencode::Bytes(bytes),
        Node::Dict(entries) => {
            let mut out: Vec<(Vec<u8>, Bencode)> = Vec::new();
            let ghost all = entries@;
            for entry in it: entries
                invariant
                    it.seq() == all,
                    inner == (|v: bip_bencode::BencodeRef<'a>| ref_contents(v)),
                    ref_contents(*value) == Tree::Dict(node_dict(all, inner, all.len())),
                    keys_differ(all),
                    out@.len() == it.index(),
                    forall|i: int|
                        0 <= i < it.index() ==> (#[trigger] out@[i]).0@ == all[i].0@ && tree_of(
                            out@[i].1,
                        ) == ref_contents(all[i].1),
            {
                let (key, item) = entry;
                proof {
                    lemma_node_dict(all, inner, all.len(), it.index() as int);
                    let dict = ref_contents(*value)->Dict_0;
                    assert(decreases_to!(ref_contents(*value) => dict));
                    assert(decreases_to!(dict => dict[key@]));
                }
                let plain: Bencode = ref_in(&item);
                out.push((key, plain));
            }
            proof {
                lemma_same_dict(out@, all, inner, all.len());
            }
            Bencode::Dict(out)
        },
        Node::Integer(i) => Bencode::Integer(i),
        Node::List(items) => {
            let mut out: Vec<Bencode> = Vec::new();
            let ghost all = items@;
            assert(ref_contents(*value)->List_0 =~= Seq::new(
                all.len(),
                |i: int| ref_contents(all[i]),
            ));
            for item in it: items
                invariant
                    it.seq() == all,
                    ref_contents(*value) == Tree::List(
                        Seq::new(all.len(), |i: int| ref_contents(all[i])),
                    ),
                    out@.len() == it.index(),
                    forall|i: int|
                        0 <= i < it.index() ==> tree_of(#[trigger] out@[i]) == ref_contents(all[i]),
            {
                proof {
                    let trees = ref_contents(*value)->List_0;
                    assert(decreases_to!(ref_contents(*value) => trees));
                    assert(decreases_to!(trees => trees[it.index() as int]));
                }
                let plain: Bencode = ref_in(&item);
                out.push(plain);
            }
            proof {
                lemma_list_of(out@, out@.len());
                assert(list_of(out@, out@.len()) =~= Seq::new(
                    all.len(),
                    |i: int| ref_contents(all[i]),
                ));
            }
            Bencode::List(out)
        },
    }
}

/// Decodes a bencoded value that takes up all the bytes.
pub fn decode_whole(data: &[u8]) -> (r: Option<Bencode>)
    ensures
        match r {
            Some(value) => reply_decoded(data@, usize::BITS) == Some(value@),
            None => reply_decoded(data@, usize::BITS) is None,
        },
{
    match decode_ref(data) {
        Some(value) => Some(ref_in(&value)),
        None => None,
    }
}

/// Whether two byte strings are the same.
pub(crate) fn same_bytes(a: &[u8], b: &[u8]) -> (r: bool)
    ensures
        r == (a@ == b@),
{
    if a.len() != b.len() {
        return false;
    }
    let mut i: usize = 0;
    while i < a.len()
        invariant
            i <= a@.len(),
            a@.len() == b@.len(),
            forall|k: int| 0 <= k < i ==> a@[k] == b@[k],
        decreases a@.len() - i,
    {
        if a[i] != b[i] {
            return false;
        }
        i += 1;
    }
    assert(a@ =~= b@);
    true
}

proof fn lemma_dict_of(entries: Seq<(Vec<u8>, Bencode)>, n: nat, from: int, key: Seq<u8>)
    requires
        0 <= from <= n <= entries.len(),
        forall|i: int| from <= i < n ==> #[trigger] entries[i].0@ != key,
    ensures
        dict_of(entries, n).contains_key(key) == dict_of(entries, from as nat).contains_key(key),
        dict_of(entries, n)[key] == dict_of(entries, from as nat)[key],
    decreases n,
{
    if from < n {
        assert(entries[n - 1].0@ != key);
        lemma_dict_of(entries, (n - 1) as nat, from, key);
    }
}

/// What a dictionary holds under a key.
pub open spec fn entry_of(tree: Tree, key: Seq<u8>) -> Option<Tree> {
    match tree {
        Tree::Dict(dict) => if dict.contains_key(key) {
            Some(dict[key])
        } else {
            None
        },
        _ => None,
    }
}

impl Bencode {
    /// What a dictionary holds under a key; nothing where the value is no dictionary.
    pub fn get(&self, key: &[u8]) -> (r: Option<&Bencode>)
        ensures
            match r {
                Some(value) => entry_of(self@, key@) == Some(value@),
                None => entry_of(self@, key@) is None,
            },
    {
        match self {
            Bencode::Dict(entries) => {
                let mut i: usize = entries.len();
                while i > 0
                    invariant
                        i <= entries@.len(),
                        self@ == Tree::Dict(dict_of(entries@, entries@.len())),
                        forall|k: int| i <= k < entries@.len() ==> #[trigger] entries@[k].0@ != key@,
                    decreases i,
                {
                    i -= 1;
                    if same_bytes(entries[i].0.as_slice(), key) {
                        proof {
                            lemma_dict_of(entries@, entries@.len(), i + 1, key@);
                        }
                        return Some(&entries[i].1);
                    }
                }
                proof {
                    lemma_dict_of(entries@, entries@.len(), 0, key@);
                }
                None
            },
            _ => None,
        }
    }
}

/// A dictionary holds under a key the value of the last of its entries with that key, and nothing
/// where no entry has it. A value that is no dictionary holds nothing.
pub proof fn law_last_entry_counts(value: Bencode, key: Seq<u8>, i: int)
    ensures
        !(value is Dict) ==> entry_of(value@, key) is None,
        value matches Bencode::Dict(entries) ==> {
            &&& (0 <= i < entries@.len() && entries@[i].0@ == key && forall|k: int|
                i < k < entries@.len() ==> #[trigger] entries@[k].0@ != key) ==> entry_of(
                value@,
                key,
            ) == Some(entries@[i].1@)
            &&& (forall|k: int| 0 <= k < entries@.len() ==> #[trigger] entries@[k].0@ != key)
                ==> entry_of(value@, key) is None
        },
{
    if let Bencode::Dict(entries) = value {
        if 0 <= i < entries@.len() && entries@[i].0@ == key && (forall|k: int|
            i < k < entries@.len() ==> #[trigger] entries@[k].0@ != key) {
            lemma_dict_of(entries@, entries@.len(), i + 1, key);
        }
        if forall|k: int| 0 <= k < entries@.len() ==> #[trigger] entries@[k].0@ != key {
            lemma_dict_of(entries@, entries@.len(), 0, key);
        }
    }
}

/// As a plain value, a byte string has the same bytes, an integer is the same number, and a list has
/// as many items, in their order.
pub proof fn law_plain_value(value: Bencode, i: int)
    ensures
        value matches Bencode::Bytes(bytes) ==> value@ == Tree::Bytes(bytes@),
        value matches Bencode::Integer(n) ==> value@ == Tree::Integer(n),
        value matches Bencode::List(items) ==> value@ is List && value@->List_0.len()
            == items@.len() && (0 <= i < items@.len() ==> value@->List_0[i] == items@[i]@),
        value is Dict <==> value@ is Dict,
{
    if let Bencode::List(items) = value {
        lemma_list_of(items@, items@.len());
    }
}

} // verus!
