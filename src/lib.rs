//! A per-node runtime that fronts a supervised inference worker: the shared
//! ring channel that carries bulk payloads to and from the worker, the
//! readiness handshake with a freshly spawned worker, the rewriting of
//! inference calls between inline bytes and shared-memory references, and the
//! routing of calls by capability to the local worker or to a peer node.

pub mod cli;
pub mod handshake;
pub mod params;
pub mod proxy;
pub mod router;
pub mod shm;
