//! The search for peers in the distributed hash table.
use crate::text::{decimal, law_digits_stand_for_the_number, push_decimal, value_of};
use crate::torrent::texts;
use vstd::prelude::*;
use vstd::string::*;

verus! {

/// The host and port of a node, as they are written in an address.
pub open spec fn node_text(node: (String, u16)) -> Seq<char> {
    node.0@ + ":"@ + decimal(node.1 as nat)
}

/// The nodes that are asked where a torrent names none.
pub open spec fn default_networks() -> Seq<Seq<char>> {
    seq![
        "router.bittorrent.com:6881"@,
        "dht.transmissionbt.com:6881"@,
        "router.utorrent.com:6881"@,
    ]
}

/// The nodes to ask: those that the torrent names, or else the well-known ones.
pub open spec fn networks(nodes: Seq<(String, u16)>) -> Seq<Seq<char>> {
    if nodes.len() > 0 {
        Seq::new(nodes.len(), |i: int| node_text(nodes[i]))
    } else {
        default_networks()
    }
}

/// The nodes that a search asks.
pub fn dht_search(nodes: &Vec<(String, u16)>) -> (r: Vec<String>)
    ensures
        texts(r@) == networks(nodes@),
{
    let mut list: Vec<String> = Vec::new();
    if nodes.len() == 0 {
        list.push("router.bittorrent.com:6881".to_owned());
        list.push("dht.transmissionbt.com:6881".to_owned());
        list.push("router.utorrent.com:6881".to_owned());
        assert(texts(list@) =~= default_networks());
        return list;
    }
    let mut i: usize = 0;
    while i < nodes.len()
        invariant
            i <= nodes@.len(),
            list@.len() == i,
            forall|k: int| 0 <= k < i ==> (#[trigger] list@[k])@ == node_text(nodes@[k]),
        decreases nodes@.len() - i,
    {
        let mut text: String = nodes[i].0.clone();
        text.append(":");
        push_decimal(&mut text, nodes[i].1 as u64);
        list.push(text);
        i += 1;
    }
    assert(texts(list@) =~= networks(nodes@));
    list
}

/// The nodes that a torrent names are asked, all of them and in their order, each as its host, a
/// colon, and the digits of its port.
pub proof fn law_named_nodes_are_asked(nodes: Seq<(String, u16)>, i: int)
    requires
        0 <= i < nodes.len(),
    ensures
        ({
            let text = networks(nodes)[i];
            let host = nodes[i].0@;
            &&& networks(nodes).len() == nodes.len()
            &&& text.len() > host.len() + 1
            &&& text.take(host.len() as int) == host
            &&& text[host.len() as int] == ':'
            &&& value_of(text.skip(host.len() as int + 1)) == nodes[i].1
            &&& forall|k: int|
                host.len() < k < text.len() ==> '0' <= #[trigger] text[k] <= '9'
        }),
{
    reveal_strlit(":");
    let text = networks(nodes)[i];
    let host = nodes[i].0@;
    let port = decimal(nodes[i].1 as nat);
    law_digits_stand_for_the_number(nodes[i].1 as nat);
    assert(text.take(host.len() as int) =~= host);
    assert(text.skip(host.len() as int + 1) =~= port);
    assert forall|k: int| host.len() < k < text.len() implies '0' <= #[trigger] text[k] <= '9' by {
        assert(text[k] == port[k - host.len() - 1]);
    }
}

/// Where a torrent names no node, the well-known ones are asked.
pub proof fn law_well_known_nodes_are_asked(nodes: Seq<(String, u16)>)
    requires
        nodes.len() == 0,
    ensures
        networks(nodes).len() == 3,
        networks(nodes)[0] == "router.bittorrent.com:6881"@,
        networks(nodes)[1] == "dht.transmissionbt.com:6881"@,
        networks(nodes)[2] == "router.utorrent.com:6881"@,
{
}

} // verus!
