//! Where a client's command goes, and what its caller is told.

use crate::cluster::consensus::{RaftNode, RaftState, RaftView};
use crate::cluster::log::term_at;
use vstd::prelude::*;

verus! {

/// Why a proposal did not go through. Each of these can be retried.
#[derive(Debug, Clone, Copy, PartialEq, Eq, Structural)]
pub enum Rejection {
    /// No leader is known.
    NoLeader,
    /// The command was not committed in time, or was lost with a change of
    /// leader.
    NoQuorum,
    /// Another node leads; the command belongs there.
    NotLeader(u128),
}

/// Where a command has to go.
#[derive(Debug, Clone, Copy, PartialEq, Eq, Structural)]
pub enum Route {
    /// This node leads and takes the command itself.
    Local,
    /// The command is forwarded to the node that is believed to lead.
    Forward(u128),
    /// No leader is known.
    NoLeader,
}

/// The place a leader gave to a command: the handle by which its fate is
/// followed.
#[derive(Debug, Clone, Copy, PartialEq, Eq, Structural)]
pub struct Proposal {
    pub index: u64,
    pub term: u64,
}

/// What has become of a proposal.
#[derive(Debug, Clone, Copy, PartialEq, Eq, Structural)]
pub enum Progress {
    /// The entry is in the log and not committed yet.
    Pending,
    /// The entry is committed.
    Committed,
    /// The log does not hold the entry any more.
    Discarded,
}

impl RaftView {
    /// Where a command has to go from this node.
    pub open spec fn route(self) -> Route {
        if self.state == RaftState::Leader {
            Route::Local
        } else {
            match self.leader_id {
                Some(leader) => if leader != self.node_id {
                    Route::Forward(leader)
                } else {
                    Route::NoLeader
                },
                None => Route::NoLeader,
            }
        }
    }

    /// What has become of a proposal on this node.
    pub open spec fn progress(self, proposal: Proposal) -> Progress {
        if proposal.index == 0 || proposal.index > self.log.len() || term_at(self.log, proposal.index as int)
            != proposal.term {
            Progress::Discarded
        } else if proposal.index <= self.commit_index {
            Progress::Committed
        } else {
            Progress::Pending
        }
    }

    /// Why a command cannot be taken here and now.
    pub open spec fn rejection(self) -> Rejection {
        match self.route() {
            Route::Local => Rejection::NoQuorum,
            Route::Forward(leader) => Rejection::NotLeader(leader),
            Route::NoLeader => Rejection::NoLeader,
        }
    }

    /// What the caller of a proposal is told: nothing while the entry is
    /// pending and time is left; the position once it is committed; and a
    /// rejection when it was discarded or time ran out.
    pub open spec fn outcome(self, proposal: Proposal, timed_out: bool) -> Option<Result<u64, Rejection>> {
        match self.progress(proposal) {
            Progress::Committed => Some(Ok(proposal.index)),
            Progress::Discarded => Some(Err(self.rejection())),
            Progress::Pending => if timed_out {
                Some(Err(Rejection::NoQuorum))
            } else {
                None
            },
        }
    }
}

/// Accepts commands from any collaborator and follows them to their commit.
pub struct CommandRouter;

impl CommandRouter {
    /// Where a command has to go from `node`.
    pub fn route(node: &RaftNode) -> (route: Route)
        ensures
            route == node@.route(),
    {
        if node.state == RaftState::Leader {
            Route::Local
        } else {
            match node.leader_id {
                Some(leader) => if leader != node.node_id {
                    Route::Forward(leader)
                } else {
                    Route::NoLeader
                },
                None => Route::NoLeader,
            }
        }
    }

    /// Hands a command to `node`. A leader appends it to its log and
    /// returns the handle by which the command is followed; any other node
    /// is left as it was and says where the command belongs.
    pub fn submit(node: &mut RaftNode, command: Vec<u8>) -> (handle: Result<Proposal, Rejection>)
        requires
            old(node)@.wf(),
            old(node)@.log.len() + 1 < u64::MAX,
        ensures
            final(node)@.wf(),
            old(node)@.in_order() ==> final(node)@.in_order(),
            handle is Ok <==> old(node)@.state == RaftState::Leader,
            handle matches Ok(p) ==> {
                &&& final(node)@ == old(node)@.propose(command@)
                &&& p == (Proposal { index: (old(node)@.log.len() + 1) as u64, term: old(node)@.current_term })
            },
            handle matches Err(e) ==> final(node)@ == old(node)@ && e == old(node)@.rejection(),
    {
        let term = node.current_term;
        match node.propose(command) {
            Some(index) => Ok(Proposal { index, term }),
            None => Err(
                match CommandRouter::route(node) {
                    Route::Local => Rejection::NoQuorum,
                    Route::Forward(leader) => Rejection::NotLeader(leader),
                    Route::NoLeader => Rejection::NoLeader,
                },
            ),
        }
    }

    /// What has become of a proposal on `node`.
    pub fn progress(node: &RaftNode, proposal: &Proposal) -> (progress: Progress)
        requires
            node@.wf(),
        ensures
            progress == node@.progress(*proposal),
    {
        if proposal.index == 0 || proposal.index > node.log.len() as u64 || node.term_at(proposal.index)
            != proposal.term {
            Progress::Discarded
        } else if proposal.index <= node.commit_index {
            Progress::Committed
        } else {
            Progress::Pending
        }
    }

    /// What the caller of a proposal is told now: see [`RaftView::outcome`].
    pub fn outcome(node: &RaftNode, proposal: &Proposal, timed_out: bool) -> (outcome: Option<
        Result<u64, Rejection>,
    >)
        requires
            node@.wf(),
        ensures
            outcome == node@.outcome(*proposal, timed_out),
    {
        match CommandRouter::progress(node, proposal) {
            Progress::Committed => Some(Ok(proposal.index)),
            Progress::Discarded => Some(
                Err(
                    match CommandRouter::route(node) {
                        Route::Local => Rejection::NoQuorum,
                        Route::Forward(leader) => Rejection::NotLeader(leader),
                        Route::NoLeader => Rejection::NoLeader,
                    },
                ),
            ),
            Progress::Pending => if timed_out {
                Some(Err(Rejection::NoQuorum))
            } else {
                None
            },
        }
    }
}

} // verus!
