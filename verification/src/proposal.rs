use vstd::prelude::*;

verus! {

/// An opaque, already-authenticated caller identity token.
///
/// The surrounding host verifies identities before they reach this library;
/// here an identity is nothing but a comparable token.
#[derive(Clone, Copy, PartialEq, Eq, Structural, Debug, Hash)]
pub struct CallerId {
    pub id: u64,
}

/// A ballot value: the closed set of choices a caller may cast on a proposal.
#[derive(Clone, Copy, PartialEq, Eq, Structural, Debug)]
pub enum Choice {
    Approve,
    Reject,
    Pass,
}

/// Why a vote or an edit was rejected, or why persisting its outcome failed.
#[derive(Clone, Copy, PartialEq, Eq, Structural, Debug)]
pub enum VoteError {
    AlreadyVoted,
    ProposalIsNotActive,
    InvalidChoice,
    NoSuchProposal,
    AccessRejected,
    UpdateError,
}

/// A votable entity: counters for each choice, an activity flag, the set of
/// callers that have voted, and the caller that created it.
pub struct Proposal {
    pub description: String,
    pub approve: u32,
    pub reject: u32,
    pub pass: u32,
    pub is_active: bool,
    pub voted: Vec<CallerId>,
    pub owner: CallerId,
}

/// The fields a caller supplies when creating or editing a proposal;
/// counters, voter set and owner are never supplied from outside.
pub struct CreateProposal {
    pub description: String,
    pub is_active: bool,
}

/// The mathematical value of a `Proposal`.
pub struct ProposalView {
    pub description: Seq<char>,
    pub approve: u32,
    pub reject: u32,
    pub pass: u32,
    pub is_active: bool,
    pub voted: Seq<CallerId>,
    pub owner: CallerId,
}

impl View for Proposal {
    type V = ProposalView;

    open spec fn view(&self) -> ProposalView {
        ProposalView {
            description: self.description@,
            approve: self.approve,
            reject: self.reject,
            pass: self.pass,
            is_active: self.is_active,
            voted: self.voted@,
            owner: self.owner,
        }
    }
}

impl ProposalView {
    /// The proposal invariant: each identity voted at most once, and the
    /// counters account exactly for the votes accepted so far.
    pub open spec fn wf(self) -> bool {
        &&& self.voted.no_duplicates()
        &&& self.approve + self.reject + self.pass == self.voted.len()
    }
}

/// The proposal as it stands after a caller's vote for `choice` is accepted:
/// the matching counter grows by one and the caller joins the voter set.
pub open spec fn cast_vote(p: ProposalView, choice: Choice, caller: CallerId) -> ProposalView {
    ProposalView {
        approve: if choice is Approve {
            (p.approve + 1) as u32
        } else {
            p.approve
        },
        reject: if choice is Reject {
            (p.reject + 1) as u32
        } else {
            p.reject
        },
        pass: if choice is Pass {
            (p.pass + 1) as u32
        } else {
            p.pass
        },
        voted: p.voted.push(caller),
        ..p
    }
}

/// The proposal as it stands after its owner edits it: description and
/// activity flag are overwritten, everything else is untouched.
pub open spec fn edited(p: ProposalView, description: Seq<char>, is_active: bool) -> ProposalView {
    ProposalView { description, is_active, ..p }
}

} // verus!
