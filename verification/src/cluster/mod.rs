//! The replicated core: consensus, applied state, membership and transport.

pub mod agreement;
pub mod applying;
pub mod command;
pub mod completeness;
pub mod consensus;
pub mod election;
pub mod error;
pub mod events;
pub mod leader;
pub mod learner;
pub mod log;
pub mod matching;
pub mod membership;
pub mod message;
pub mod network;
pub mod recovery;
pub mod replication;
pub mod router;
pub mod safety;
pub mod state;
pub mod timing;
pub mod validity;
pub mod wire;

pub use command::Command;
pub use consensus::{AppendReply, AppendRequest, RaftNode, RaftState, RaftStatus, VoteReply, VoteRequest};
pub use error::ClusterError;
pub use log::LogEntry;
pub use membership::MembershipManager;
pub use message::Message;
pub use network::{frame_message, unframe_message};
pub use router::{CommandRouter, Progress, Proposal, Rejection, Route};
pub use timing::{quorum_threshold, RaftConfig};
pub use state::ClusterState;
