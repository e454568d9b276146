//! Core logic of an HTTP front end over an external binary-analysis engine.
//!
//! The library owns everything that can be stated and proved: translating
//! loosely-typed client options into an engine configuration, deciding what a
//! multipart upload contains, invoking the engine, harvesting the artifacts
//! it wrote into a token-addressed blob store, and resolving download tokens.
//! The binary around it only moves bytes between the network, the disk and
//! these functions.

pub mod engine;
pub mod gateway;
pub mod harvest;
pub mod intake;
pub mod options;
pub mod store;
pub mod text;

use vstd::prelude::*;

verus! {

/// Everything a fresh server process starts from: an empty artifact store
/// and the loopback endpoint the listener binds to.
pub struct ServerSetup {
    /// The process-wide token-to-payload registry, shared by every request.
    pub store: crate::store::BlobStore,
    /// The four octets of the bind address.
    pub addr: (u8, u8, u8, u8),
    /// The TCP port served on.
    pub port: u16,
}

/// The starting state of the server: an empty store and the fixed local
/// endpoint.  The binary owns the runtime, the routes and the sockets;
/// everything it serves flows through this state.
pub fn start_server() -> (s: ServerSetup)
    ensures
        s.store.wf(),
        s.store@ == Map::<Seq<char>, Seq<u8>>::empty(),
        s.addr == (127u8, 0u8, 0u8, 1u8),
        s.port == 8080u16,
{
    ServerSetup { store: crate::store::BlobStore::new(), addr: (127, 0, 0, 1), port: 8080 }
}

} // verus!
