//! A small replicated-agreement service: a coordinator that replicates client
//! payloads to a quorum of followers, a single-decree agreement protocol, the
//! dispatcher's routing rules and the wire codec that ties them together.

pub mod quorum;
pub mod byte_order;
pub mod text;
pub mod ids;
pub mod types;
pub mod network;
pub mod leader;
pub mod load_balancer;
pub mod follower;
pub mod leader_election;
