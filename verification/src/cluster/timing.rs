//! Timeouts, and the size of a majority.

use crate::cluster::error::ClusterError;
use crate::cluster::log::quorum;
use vstd::prelude::*;
use vstd::string::*;

verus! {

/// The timing of the consensus engine, in milliseconds.
#[derive(Debug, Clone, Copy, PartialEq, Eq, Structural)]
pub struct RaftConfig {
    pub election_timeout_min: u64,
    pub election_timeout_max: u64,
    pub heartbeat_interval: u64,
    pub request_timeout: u64,
}

impl RaftConfig {
    /// Whether the timing can work on a network with the given round trip:
    /// heartbeats and requests are strictly shorter than the shortest
    /// election timeout, and the election timeouts spread over more than one
    /// round trip.
    pub open spec fn valid(self, round_trip: u64) -> bool {
        &&& 0 < self.heartbeat_interval < self.election_timeout_min
        &&& 0 < self.request_timeout < self.election_timeout_min
        &&& self.election_timeout_min <= self.election_timeout_max
        &&& self.election_timeout_max - self.election_timeout_min > round_trip
    }

    /// The election timeout that the random number `random` picks from the
    /// configured range.
    pub open spec fn timeout_for(self, random: u64) -> int {
        self.election_timeout_min + random as int % (self.election_timeout_max - self.election_timeout_min
            + 1)
    }

    /// Holds the timing against the rules of [`RaftConfig::valid`].
    pub fn validate(&self, round_trip: u64) -> (outcome: Result<(), ClusterError>)
        ensures
            outcome is Ok <==> self.valid(round_trip),
            outcome matches Err(e) ==> e is OperationFailed,
    {
        if self.heartbeat_interval == 0 || self.heartbeat_interval >= self.election_timeout_min {
            return Err(
                ClusterError::OperationFailed(
                    String::from_str("heartbeat interval must be shorter than the election timeout"),
                ),
            );
        }
        if self.request_timeout == 0 || self.request_timeout >= self.election_timeout_min {
            return Err(
                ClusterError::OperationFailed(
                    String::from_str("request timeout must be shorter than the election timeout"),
                ),
            );
        }
        if self.election_timeout_min > self.election_timeout_max {
            return Err(ClusterError::OperationFailed(String::from_str("election timeout range is empty")));
        }
        if self.election_timeout_max - self.election_timeout_min <= round_trip {
            return Err(
                ClusterError::OperationFailed(
                    String::from_str("election timeouts must spread over more than one round trip"),
                ),
            );
        }
        Ok(())
    }

    /// An election timeout from the configured range, picked by `random`.
    pub fn election_timeout(&self, random: u64) -> (timeout: u64)
        requires
            self.election_timeout_min <= self.election_timeout_max,
        ensures
            timeout == self.timeout_for(random),
            self.election_timeout_min <= timeout <= self.election_timeout_max,
    {
        let span = self.election_timeout_max - self.election_timeout_min;
        if span == u64::MAX {
            random
        } else {
            self.election_timeout_min + random % (span + 1)
        }
    }
}

/// The number of nodes that makes a strict majority of `cluster_size`.
pub fn quorum_threshold(cluster_size: usize) -> (threshold: usize)
    ensures
        threshold == quorum(cluster_size as nat),
        cluster_size > 0 ==> threshold <= cluster_size,
        2 * threshold > cluster_size,
{
    cluster_size / 2 + 1
}

} // verus!
