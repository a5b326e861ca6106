//! Verified core of the hub/edge SQL cluster: wire framing, session and
//! signing rules, ordering rules and scheduling, SQL routing, membership
//! checks and the decisions of the coordinator and storage actor.
pub mod text;
pub mod raft;
pub mod pb;
pub mod server;
pub mod actor;
pub mod config;
pub mod coordinator;
pub mod wire;
pub mod edge;
pub mod hub;
pub mod management;
