//! Archive sync: plans relay subscriptions for saved archive rows, batches the
//! events that match them, and decides what the relay session does next.
//!
//! Nothing here reads a socket, a store or a clock. The loops are state
//! machines: each takes an event and gives the next state and the action that
//! is due, and what holds of all their runs is proved beside them.

pub mod archive;
pub mod batch;
pub mod connection;
pub mod connection_laws;
pub mod control;
pub mod json;
pub mod kinds;
pub mod plan;
pub mod plan_laws;
pub mod relay_laws;
pub mod session;
pub mod subscription;
pub mod sync;
pub mod sync_laws;
pub mod table;
pub mod text;
pub mod view_laws;
pub mod views;
