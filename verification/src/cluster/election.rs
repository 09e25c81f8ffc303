//! What a node does when its election timeout runs out.

use crate::cluster::consensus::{RaftNode, RaftView, VoteRequest};
use crate::cluster::error::ClusterError;
use vstd::prelude::*;

verus! {

impl RaftView {
    /// The node after its election timeout ran out: a candidate of the next
    /// term, and at once its leader where the node alone is a majority.
    pub open spec fn start_election(self) -> RaftView {
        let candidate = self.become_candidate();
        if candidate.has_quorum() {
            candidate.become_leader()
        } else {
            candidate
        }
    }
}

impl RaftNode {
    /// What to do when the election timeout runs out without contact from a
    /// leader: stand for election in the next term. Returns the request to
    /// send to every peer. Fails, changing nothing, only when the term
    /// counter cannot grow any more.
    pub fn start_election(&mut self) -> (request: Result<VoteRequest, ClusterError>)
        requires
            old(self)@.wf(),
        ensures
            final(self)@.wf(),
            old(self)@.in_order() ==> final(self)@.in_order(),
            request is Ok <==> old(self).current_term < u64::MAX,
            request matches Ok(r) ==> final(self)@ == old(self)@.start_election() && r == old(
                self,
            )@.become_candidate().vote_request(),
            request matches Err(e) ==> final(self)@ == old(self)@ && e is Consensus,
    {
        match self.become_candidate() {
            Ok(()) => {
                let request = self.vote_request();
                match self.become_leader() {
                    Ok(()) => {},
                    Err(_) => {},
                }
                Ok(request)
            },
            Err(e) => Err(e),
        }
    }
}

} // verus!
