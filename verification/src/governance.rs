use vstd::prelude::*;
use vstd::bytes::{lemma_auto_spec_u32_to_from_le_bytes, lemma_auto_spec_u64_to_from_le_bytes};
use vstd::utf8::encode_utf8;
use crate::codec::{lemma_encode_voters_len, spec_encode_proposal, PROPOSAL_MAX_SIZE};
use crate::proposal::{cast_vote, edited, CallerId, Choice, CreateProposal, Proposal, ProposalView, VoteError};
use crate::storage::{
    partitioner_attach, partitioner_detach, partitioner_put_back, partitioner_take,
    partitioner_taken, partitioner_token, region_part, region_wf, Partitioner, Region,
    PRIMARY_SUB_REGION,
};
use crate::stores::{decoded_proposals, proposal_bytes_wf, ProposalStore, StoreError};

verus! {

/// A proposal as it is born: supplied description and activity flag, zeroed
/// counters, nobody has voted, and the creating caller owns it.
pub open spec fn fresh_proposal(
    description: Seq<char>,
    is_active: bool,
    owner: CallerId,
) -> ProposalView {
    ProposalView {
        description,
        approve: 0,
        reject: 0,
        pass: 0,
        is_active,
        voted: Seq::empty(),
        owner,
    }
}

/// The outcome of a vote: the map afterwards and the result returned. The
/// checks run in order: the proposal must exist, must be active, and the
/// caller must not have voted yet; then the updated record must still fit
/// its size bound.
pub open spec fn spec_vote(
    m: Map<u64, ProposalView>,
    key: u64,
    choice: Choice,
    caller: CallerId,
) -> (Map<u64, ProposalView>, Result<(), VoteError>) {
    if !m.contains_key(key) {
        (m, Err(VoteError::NoSuchProposal))
    } else if !m[key].is_active {
        (m, Err(VoteError::ProposalIsNotActive))
    } else if m[key].voted.contains(caller) {
        (m, Err(VoteError::AlreadyVoted))
    } else if spec_encode_proposal(cast_vote(m[key], choice, caller)).len()
        <= PROPOSAL_MAX_SIZE {
        (m.insert(key, cast_vote(m[key], choice, caller)), Ok(()))
    } else {
        (m, Err(VoteError::UpdateError))
    }
}

/// The choice a raw numeric ballot stands for, if any.
pub open spec fn choice_of_code(code: u64) -> Option<Choice> {
    if code == 0 {
        Some(Choice::Approve)
    } else if code == 1 {
        Some(Choice::Reject)
    } else if code == 2 {
        Some(Choice::Pass)
    } else {
        None
    }
}

/// The outcome of a vote arriving as an unconstrained numeric ballot: the
/// existence, activity and double-vote checks run first, then an
/// unrepresentable ballot is rejected as `InvalidChoice`.
pub open spec fn spec_vote_coded(
    m: Map<u64, ProposalView>,
    key: u64,
    code: u64,
    caller: CallerId,
) -> (Map<u64, ProposalView>, Result<(), VoteError>) {
    if !m.contains_key(key) {
        (m, Err(VoteError::NoSuchProposal))
    } else if !m[key].is_active {
        (m, Err(VoteError::ProposalIsNotActive))
    } else if m[key].voted.contains(caller) {
        (m, Err(VoteError::AlreadyVoted))
    } else {
        match choice_of_code(code) {
            None => (m, Err(VoteError::InvalidChoice)),
            Some(choice) => spec_vote(m, key, choice, caller),
        }
    }
}

/// The outcome of an owner's edit: the map afterwards and the result
/// returned. Only the owner may change description or activity; counters and
/// the voter set are untouched.
pub open spec fn spec_edit(
    m: Map<u64, ProposalView>,
    key: u64,
    description: Seq<char>,
    is_active: bool,
    caller: CallerId,
) -> (Map<u64, ProposalView>, Result<(), VoteError>) {
    if !m.contains_key(key) {
        (m, Err(VoteError::NoSuchProposal))
    } else if m[key].owner != caller {
        (m, Err(VoteError::AccessRejected))
    } else if spec_encode_proposal(edited(m[key], description, is_active)).len()
        <= PROPOSAL_MAX_SIZE {
        (m.insert(key, edited(m[key], description, is_active)), Ok(()))
    } else {
        (m, Err(VoteError::UpdateError))
    }
}

/// The proposals recorded in the primary sub-region of a durable region.
pub open spec fn region_proposals(r: Region) -> Map<u64, ProposalView> {
    decoded_proposals(region_part(r, PRIMARY_SUB_REGION))
}

/// Counting proposals counts distinct keys ever inserted: inserting under a
/// key already present leaves the count unchanged, inserting under a new key
/// grows it by exactly one.
pub proof fn lemma_insert_count(m: Map<u64, ProposalView>, key: u64, p: ProposalView)
    requires
        m.dom().finite(),
    ensures
        m.insert(key, p).dom().len() == m.dom().len() + (if m.contains_key(key) {
            0int
        } else {
            1int
        }),
{
    assert(m.insert(key, p).dom() =~= m.dom().insert(key));
    vstd::set::axiom_set_insert_len(m.dom(), key);
}

/// Voting twice with one caller on one proposal: the first vote is accepted
/// and grows exactly the matching counter by one, recording the caller; the
/// second vote, whatever its choice, is rejected as `AlreadyVoted` and
/// changes nothing.
pub proof fn lemma_vote_twice(
    m: Map<u64, ProposalView>,
    key: u64,
    c1: Choice,
    c2: Choice,
    caller: CallerId,
)
    requires
        m.contains_key(key),
        m[key].wf(),
        spec_encode_proposal(m[key]).len() <= PROPOSAL_MAX_SIZE,
        m[key].is_active,
        !m[key].voted.contains(caller),
        spec_encode_proposal(cast_vote(m[key], c1, caller)).len() <= PROPOSAL_MAX_SIZE,
    ensures
        spec_vote(m, key, c1, caller).1 == Ok::<(), VoteError>(()),
        ({
            let m1 = spec_vote(m, key, c1, caller).0;
            &&& m1[key].voted == m[key].voted.push(caller)
            &&& (c1 is Approve ==> m1[key].approve == m[key].approve + 1)
            &&& (c1 is Reject ==> m1[key].reject == m[key].reject + 1)
            &&& (c1 is Pass ==> m1[key].pass == m[key].pass + 1)
            &&& spec_vote(m1, key, c2, caller).1 == Err::<(), VoteError>(VoteError::AlreadyVoted)
            &&& spec_vote(m1, key, c2, caller).0 == m1
        }),
{
    lemma_auto_spec_u32_to_from_le_bytes();
    lemma_auto_spec_u64_to_from_le_bytes();
    lemma_encode_voters_len(m[key].voted);
    assert(spec_encode_proposal(m[key]).len() == 37 + encode_utf8(m[key].description).len() + 8
        * m[key].voted.len());
    assert(m[key].voted.len() <= 625);
    assert(m[key].voted.push(caller).contains(caller)) by {
        assert(m[key].voted.push(caller)[m[key].voted.len() as int] == caller);
    }
}

/// Whether a voter list already carries this caller.
fn contains_caller(v: &Vec<CallerId>, caller: CallerId) -> (b: bool)
    ensures
        b == v@.contains(caller),
{
    let mut i: usize = 0;
    while i < v.len()
        invariant
            i <= v@.len(),
            forall|j: int| 0 <= j < i ==> v@[j] != caller,
        decreases v@.len() - i,
    {
        if v[i].id == caller.id {
            proof {
                assert(v@[i as int] == caller);
            }
            return true;
        }
        i = i + 1;
    }
    proof {
        if v@.contains(caller) {
            let j = choose|j: int| 0 <= j < v@.len() && v@[j] == caller;
            assert(false);
        }
    }
    false
}

/// The proposal store together with the partitioner of the durable region it
/// lives in: the whole proposal-and-vote domain service.
pub struct ProposalService {
    partitioner: Partitioner,
    proposals: ProposalStore,
}

impl View for ProposalService {
    type V = Map<u64, ProposalView>;

    closed spec fn view(&self) -> Map<u64, ProposalView> {
        self.proposals@
    }
}

impl ProposalService {
    /// The service invariant: the store is well formed, exactly the primary
    /// sub-region handle is out with the store, and that handle came from
    /// this service's own partitioner.
    pub closed spec fn wf(self) -> bool {
        &&& self.proposals.wf()
        &&& partitioner_taken(self.partitioner) == Set::<u8>::empty().insert(PRIMARY_SUB_REGION)
        &&& self.proposals.origin() == (partitioner_token(self.partitioner), PRIMARY_SUB_REGION)
    }

    /// Attaches to a durable region, adopting every proposal recorded there;
    /// a fresh region yields an empty service.
    pub fn init(region: Region) -> (s: Self)
        requires
            region_wf(region),
            proposal_bytes_wf(region_part(region, PRIMARY_SUB_REGION)),
        ensures
            s.wf(),
            s@ == region_proposals(region),
    {
        let mut partitioner = partitioner_attach(region);
        let sub = partitioner_take(&mut partitioner, PRIMARY_SUB_REGION);
        let proposals = ProposalStore::attach(sub);
        ProposalService { partitioner, proposals }
    }

    /// Hands the durable region back; it records exactly this service's
    /// proposals, ready to be attached to again.
    pub fn detach(self) -> (r: Region)
        requires
            self.wf(),
        ensures
            region_wf(r),
            proposal_bytes_wf(region_part(r, PRIMARY_SUB_REGION)),
            region_proposals(r) == self@,
    {
        let ProposalService { mut partitioner, proposals } = self;
        let sub = proposals.detach();
        partitioner_put_back(&mut partitioner, PRIMARY_SUB_REGION, sub);
        proof {
            assert(partitioner_taken(partitioner) =~= Set::<u8>::empty());
        }
        partitioner_detach(partitioner)
    }

    /// Detaching the durable region and reattaching it, as a process restart
    /// does, preserves every stored proposal exactly.
    pub fn restart(self) -> (s: Self)
        requires
            self.wf(),
        ensures
            s.wf(),
            s@ == self@,
    {
        let region = self.detach();
        Self::init(region)
    }

    /// Point lookup of a proposal.
    pub fn get_proposal(&self, key: u64) -> (r: Option<Proposal>)
        requires
            self.wf(),
        ensures
            match r {
                Some(p) => self@.contains_key(key) && p@ == self@[key] && p@.wf(),
                None => !self@.contains_key(key),
            },
    {
        self.proposals.get(key)
    }

    /// The number of proposals stored.
    pub fn get_proposal_count(&self) -> (n: u64)
        requires
            self.wf(),
        ensures
            n == self@.dom().len(),
            self@.dom().finite(),
    {
        self.proposals.len()
    }

    /// All proposals, in ascending key order: a fresh snapshot, not a cursor.
    pub fn list_proposals(&self) -> (out: Vec<(u64, Proposal)>)
        requires
            self.wf(),
        ensures
            forall|i: int, j: int| 0 <= i < j < out@.len() ==> out@[i].0 < out@[j].0,
            forall|i: int|
                0 <= i < out@.len() ==> self@.contains_key(out@[i].0) && out@[i].1@
                    == self@[out@[i].0],
            forall|k: u64|
                self@.contains_key(k) ==> exists|i: int| 0 <= i < out@.len() && out@[i].0 == k,
    {
        self.proposals.iterate()
    }

    /// Deletes the proposal under the key, returning it, if any.
    pub fn remove_proposal(&mut self, key: u64) -> (r: Option<Proposal>)
        requires
            old(self).wf(),
        ensures
            final(self).wf(),
            final(self)@ == old(self)@.remove(key),
            match r {
                Some(q) => old(self)@.contains_key(key) && q@ == old(self)@[key],
                None => !old(self)@.contains_key(key),
            },
    {
        self.proposals.remove(key)
    }

    /// Creates a proposal under the caller-chosen key, or overwrites the one
    /// already there, returning the previous record; the caller becomes the
    /// owner. Rejects, leaving the map unchanged, exactly when the fresh
    /// record would exceed its size bound.
    pub fn create_proposal(&mut self, key: u64, proposal: CreateProposal, caller: CallerId) -> (r:
        Result<Option<Proposal>, StoreError>)
        requires
            old(self).wf(),
        ensures
            final(self).wf(),
            final(self)@.dom().finite(),
            ({
                let fresh = fresh_proposal(proposal.description@, proposal.is_active, caller);
                match r {
                    Ok(prev) => {
                        &&& spec_encode_proposal(fresh).len() <= PROPOSAL_MAX_SIZE
                        &&& final(self)@ == old(self)@.insert(key, fresh)
                        &&& forall|k2: u64|
                            k2 != key && old(self)@.contains_key(k2) ==> final(self)@[k2] == old(
                                self,
                            )@[k2]
                        &&& match prev {
                            Some(q) => old(self)@.contains_key(key) && q@ == old(self)@[key],
                            None => !old(self)@.contains_key(key),
                        }
                    },
                    Err(e) => {
                        &&& e == StoreError::RecordTooLarge
                        &&& spec_encode_proposal(fresh).len() > PROPOSAL_MAX_SIZE
                        &&& final(self)@ == old(self)@
                    },
                }
            }),
    {
        let value = Proposal {
            description: proposal.description,
            approve: 0,
            reject: 0,
            pass: 0,
            is_active: proposal.is_active,
            voted: Vec::new(),
            owner: caller,
        };
        self.proposals.insert(key, value)
    }

    /// Casts a ballot on a proposal. The checks run in order: the proposal
    /// must exist, must be active, and the caller must not have voted yet;
    /// then the grown record must still fit its size bound.
    pub fn vote(&mut self, key: u64, choice: Choice, caller: CallerId) -> (r: Result<
        (),
        VoteError,
    >)
        requires
            old(self).wf(),
        ensures
            final(self).wf(),
            final(self)@ == spec_vote(old(self)@, key, choice, caller).0,
            r == spec_vote(old(self)@, key, choice, caller).1,
    {
        let current = match self.proposals.get(key) {
            None => {
                return Err(VoteError::NoSuchProposal);
            },
            Some(p) => p,
        };
        if !current.is_active {
            return Err(VoteError::ProposalIsNotActive);
        }
        if contains_caller(&current.voted, caller) {
            return Err(VoteError::AlreadyVoted);
        }
        proof {
            lemma_auto_spec_u32_to_from_le_bytes();
            lemma_auto_spec_u64_to_from_le_bytes();
            lemma_encode_voters_len(current@.voted);
            assert(spec_encode_proposal(current@).len() == 37 + encode_utf8(
                current@.description,
            ).len() + 8 * current@.voted.len());
            assert(current@.voted.len() <= 625);
        }
        let mut updated = current;
        match choice {
            Choice::Approve => {
                updated.approve = updated.approve + 1;
            },
            Choice::Reject => {
                updated.reject = updated.reject + 1;
            },
            Choice::Pass => {
                updated.pass = updated.pass + 1;
            },
        }
        updated.voted.push(caller);
        proof {
            let w = updated@.voted;
            let v = old(self)@[key].voted;
            assert forall|i: int, j: int|
                0 <= i < w.len() && 0 <= j < w.len() && i != j implies w[i] != w[j] by {
                if i < v.len() && j < v.len() {
                    assert(v.no_duplicates());
                } else if i == v.len() {
                    assert(w[i] == caller);
                    assert(!v.contains(caller));
                } else {
                    assert(w[j] == caller);
                    assert(!v.contains(caller));
                }
            }
            assert(w.no_duplicates());
            assert(updated@ == cast_vote(old(self)@[key], choice, caller));
        }
        match self.proposals.insert(key, updated) {
            Ok(_prev) => Ok(()),
            Err(StoreError::RecordTooLarge) => Err(VoteError::UpdateError),
        }
    }

    /// Casts a ballot arriving as a raw numeric value: after the existence,
    /// activity and double-vote checks, a value standing for no choice is
    /// rejected as `InvalidChoice`.
    pub fn vote_coded(&mut self, key: u64, code: u64, caller: CallerId) -> (r: Result<
        (),
        VoteError,
    >)
        requires
            old(self).wf(),
        ensures
            final(self).wf(),
            final(self)@ == spec_vote_coded(old(self)@, key, code, caller).0,
            r == spec_vote_coded(old(self)@, key, code, caller).1,
    {
        let current = match self.proposals.get(key) {
            None => {
                return Err(VoteError::NoSuchProposal);
            },
            Some(p) => p,
        };
        if !current.is_active {
            return Err(VoteError::ProposalIsNotActive);
        }
        if contains_caller(&current.voted, caller) {
            return Err(VoteError::AlreadyVoted);
        }
        let choice = if code == 0 {
            Choice::Approve
        } else if code == 1 {
            Choice::Reject
        } else if code == 2 {
            Choice::Pass
        } else {
            return Err(VoteError::InvalidChoice);
        };
        self.vote(key, choice, caller)
    }

    /// Overwrites a proposal's description and activity flag; counters,
    /// voter set and owner are untouched. Only the owner may edit.
    pub fn edit_proposal(&mut self, key: u64, proposal: CreateProposal, caller: CallerId) -> (r:
        Result<(), VoteError>)
        requires
            old(self).wf(),
        ensures
            final(self).wf(),
            final(self)@ == spec_edit(
                old(self)@,
                key,
                proposal.description@,
                proposal.is_active,
                caller,
            ).0,
            r == spec_edit(old(self)@, key, proposal.description@, proposal.is_active, caller).1,
    {
        let current = match self.proposals.get(key) {
            None => {
                return Err(VoteError::NoSuchProposal);
            },
            Some(p) => p,
        };
        if current.owner.id != caller.id {
            proof {
                assert(current.owner != caller);
            }
            return Err(VoteError::AccessRejected);
        }
        let updated = Proposal {
            description: proposal.description,
            approve: current.approve,
            reject: current.reject,
            pass: current.pass,
            is_active: proposal.is_active,
            voted: current.voted,
            owner: current.owner,
        };
        proof {
            assert(updated@ == edited(
                old(self)@[key],
                proposal.description@,
                proposal.is_active,
            ));
        }
        match self.proposals.insert(key, updated) {
            Ok(_prev) => Ok(()),
            Err(StoreError::RecordTooLarge) => Err(VoteError::UpdateError),
        }
    }
}

} // verus!
