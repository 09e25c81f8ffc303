//! Cluster management for a fleet of nodes that run lightweight containers:
//! a Raft-style consensus engine, the replicated cluster state machine, the
//! membership roster, the wire format of the node-to-node transport, and the
//! plain data types and rules of the management plane around them.

pub mod api;
pub mod cluster;
pub mod container;
pub mod models;
pub mod network;
pub mod shell;
pub mod storage;
pub mod sys;
pub mod text;
