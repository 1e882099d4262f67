//! Sans-I/O core of a peer-addressable message router: a directory of
//! connected peers keyed by identity, a pair of bounded FIFO queues per peer,
//! and the routing rules of the ROUTER and DEALER socket roles.

pub mod error;
pub mod message;
pub mod queue;
pub mod peer;
pub mod directory;
pub mod registry;
pub mod router;
pub mod dealer;
pub mod laws;

pub use crate::dealer::DealerSocket;
pub use crate::error::SocketError;
pub use crate::peer::Peer;
pub use crate::queue::BoundedQueue;
pub use crate::registry::Registry;
pub use crate::router::RouterSocket;
