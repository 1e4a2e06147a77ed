//! The logic of a BitTorrent download client.

pub mod bencode;
pub mod bitfield;
pub mod bitfield_actor;
pub mod blocks;
pub mod client;
pub mod dht_protocol;
pub mod hash;
pub mod output_actor;
pub mod peer_worker;
pub mod plain_worker;
mod random;
pub mod text;
pub mod torrent;
pub mod tracker;
pub mod util;
pub mod wire;
