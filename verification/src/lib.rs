//! The networking core of a decentralized mining-pool node, as a verified
//! state machine: a single-threaded actor owns the session exclusively,
//! races transport events against a bounded command queue, and turns both
//! into replies and outbound intents. The transport, the chain and the
//! store are external collaborators; everything the actor decides — peer
//! bookkeeping, inventory announcement, message routing, reply selection,
//! wire encoding — is specified and proved here, and an embedding loop only
//! performs the intents and feeds the events back in.

pub mod ids;
pub mod message;
pub mod node;
pub mod actor;
pub mod codec;
