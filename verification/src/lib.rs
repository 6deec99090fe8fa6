//! A node participant in the Mainline BitTorrent DHT (BEP-5): a Kademlia
//! routing table keyed by 160-bit identifiers, a token-based peer store,
//! a transaction map correlating outbound queries with responses, and the
//! four server-side query handlers. Socket I/O lives outside this crate;
//! everything here is plain data in, plain data out.

pub mod addrs;
pub mod dht;
pub mod errors;
pub mod id;
pub mod msg;
pub mod node;
pub mod order;
pub mod outside;
pub mod peer;
pub mod routing;
pub mod store;
pub mod txmap;
