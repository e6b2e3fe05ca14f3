//! The node that owns the spend ledgers, and a client handle on it.

use vstd::prelude::*;
use crate::hashing::{hex_decode, hex_decoded};
use crate::spends::SpendStorage;

verus! {

/// A single node of the network, with the spends it stores.
pub struct Node {
    spends: SpendStorage,
}

impl Node {
    /// A node with empty ledgers.
    pub fn new() -> (r: Node)
        ensures
            r.spends().wf(),
            r.spends()@.valid.dom().len() == 0,
            r.spends()@.double.dom().len() == 0,
    {
        let spends = SpendStorage::new();
        proof {
            assert(spends@.valid.dom() =~= Set::<Seq<u8>>::empty());
            assert(spends@.double.dom() =~= Set::<Seq<u8>>::empty());
        }
        Node { spends }
    }

    pub closed spec fn spends(&self) -> SpendStorage {
        self.spends
    }

    /// The node's spend ledgers.
    pub fn spend_storage(&mut self) -> (r: &mut SpendStorage)
        ensures
            *r == old(self).spends(),
            final(self).spends() == *final(r),
    {
        &mut self.spends
    }
}

/// A client to store and get data through a node.
pub struct Client {
    node: Node,
}

impl Client {
    pub closed spec fn node(&self) -> Node {
        self.node
    }

    /// A new client.
    pub fn new(node: Node) -> (r: Client)
        ensures
            r.node() == node,
    {
        Client { node }
    }
}

/// The file commands of the command line.
pub enum FilesCmds {
    /// Upload the files under a directory.
    Upload { path: String },
    /// Download one file by name and hex address, or all recorded ones.
    Download { file_name: Option<String>, file_addr: Option<String> },
}

/// The 32-byte XOR name that `addr` writes in hex, as the download command
/// takes a file address.
pub fn parse_xor_name(addr: &[u8]) -> (r: Option<Vec<u8>>)
    ensures
        match hex_decoded(addr@) {
            Some(b) => if b.len() == 32 {
                r is Some && r->Some_0@ == b
            } else {
                r is None
            },
            None => r is None,
        },
{
    match hex_decode(addr) {
        Some(bytes) => if bytes.len() == 32 {
            Some(bytes)
        } else {
            None
        },
        None => None,
    }
}

} // verus!
