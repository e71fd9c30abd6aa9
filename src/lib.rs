//! Length-prefixed message framing, connection-pool bookkeeping and request
//! handling for an LU single-sign-on authentication server.

pub mod frame;
pub mod reassembly;
pub mod pool;
pub mod dispatch;
pub mod verification;
pub mod models;
pub mod login;
pub mod handshake;
