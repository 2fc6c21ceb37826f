use stable_gov::governance::ProposalService;
use stable_gov::proposal::{CallerId, Choice, CreateProposal, VoteError};
use stable_gov::storage::fresh_region;
use stable_gov::stores::StoreError;

const A: CallerId = CallerId { id: 1 };
const B: CallerId = CallerId { id: 2 };
const C: CallerId = CallerId { id: 3 };
const D: CallerId = CallerId { id: 4 };

fn new_service() -> ProposalService {
    ProposalService::init(fresh_region())
}

fn spec(description: &str, is_active: bool) -> CreateProposal {
    CreateProposal { description: String::from(description), is_active }
}

#[test]
fn scenario_fund_x() {
    let mut svc = new_service();
    assert!(svc.create_proposal(1, spec("Fund X", true), A).unwrap().is_none());

    assert_eq!(svc.vote(1, Choice::Approve, B), Ok(()));
    let p = svc.get_proposal(1).unwrap();
    assert_eq!(p.approve, 1);
    assert_eq!(p.voted, vec![B]);
    assert_eq!(p.owner, A);

    assert_eq!(svc.vote(1, Choice::Reject, B), Err(VoteError::AlreadyVoted));
    let p = svc.get_proposal(1).unwrap();
    assert_eq!((p.approve, p.reject, p.pass), (1, 0, 0));
    assert_eq!(p.voted, vec![B]);

    assert_eq!(svc.edit_proposal(1, spec("Defund X", true), C), Err(VoteError::AccessRejected));
    assert_eq!(svc.get_proposal(1).unwrap().description, "Fund X");

    assert_eq!(svc.edit_proposal(1, spec("Fund X", false), A), Ok(()));
    let p = svc.get_proposal(1).unwrap();
    assert!(!p.is_active);
    assert_eq!((p.approve, p.reject, p.pass), (1, 0, 0));
    assert_eq!(p.voted, vec![B]);

    assert_eq!(svc.vote(1, Choice::Pass, D), Err(VoteError::ProposalIsNotActive));
}

#[test]
fn vote_twice_same_caller() {
    let mut svc = new_service();
    svc.create_proposal(5, spec("twice", true), A).unwrap();
    assert_eq!(svc.vote(5, Choice::Reject, B), Ok(()));
    let p = svc.get_proposal(5).unwrap();
    assert_eq!((p.approve, p.reject, p.pass), (0, 1, 0));
    assert_eq!(p.voted, vec![B]);
    assert_eq!(svc.vote(5, Choice::Reject, B), Err(VoteError::AlreadyVoted));
    let p = svc.get_proposal(5).unwrap();
    assert_eq!((p.approve, p.reject, p.pass), (0, 1, 0));
    assert_eq!(p.voted, vec![B]);
}

#[test]
fn vote_on_inactive_proposal_fails() {
    let mut svc = new_service();
    svc.create_proposal(2, spec("closed from birth", false), A).unwrap();
    assert_eq!(svc.vote(2, Choice::Approve, B), Err(VoteError::ProposalIsNotActive));
    assert_eq!(svc.vote(2, Choice::Pass, C), Err(VoteError::ProposalIsNotActive));
    assert_eq!(svc.vote(2, Choice::Reject, A), Err(VoteError::ProposalIsNotActive));
}

#[test]
fn vote_on_missing_proposal_fails() {
    let mut svc = new_service();
    assert_eq!(svc.vote(42, Choice::Approve, A), Err(VoteError::NoSuchProposal));
}

#[test]
fn coded_vote_accepts_the_three_choices_only() {
    let mut svc = new_service();
    svc.create_proposal(1, spec("raw ballots", true), A).unwrap();
    assert_eq!(svc.vote_coded(1, 7, B), Err(VoteError::InvalidChoice));
    assert_eq!(svc.vote_coded(1, 0, B), Ok(()));
    assert_eq!(svc.vote_coded(1, 1, C), Ok(()));
    assert_eq!(svc.vote_coded(1, 2, D), Ok(()));
    let p = svc.get_proposal(1).unwrap();
    assert_eq!((p.approve, p.reject, p.pass), (1, 1, 1));
    // the existence check still runs first for a raw ballot
    assert_eq!(svc.vote_coded(9, 7, B), Err(VoteError::NoSuchProposal));
}

#[test]
fn oversized_proposal_is_rejected_atomically() {
    let mut svc = new_service();
    svc.create_proposal(1, spec("small", true), A).unwrap();
    // 37 bytes of framing + 5000 bytes of description exceed the 5000 bound
    let huge = "x".repeat(5000);
    assert!(matches!(
        svc.create_proposal(1, CreateProposal { description: huge, is_active: true }, B),
        Err(StoreError::RecordTooLarge)
    ));
    // the prior record under the key is unchanged
    let p = svc.get_proposal(1).unwrap();
    assert_eq!(p.description, "small");
    assert_eq!(p.owner, A);
    assert_eq!(svc.get_proposal_count(), 1);
}

#[test]
fn vote_that_overflows_the_bound_fails_with_update_error() {
    let mut svc = new_service();
    // 37 + 4956 = 4993 bytes fits; one more voter (8 bytes) would not
    let desc = "y".repeat(4956);
    svc.create_proposal(3, CreateProposal { description: desc, is_active: true }, A).unwrap();
    assert_eq!(svc.vote(3, Choice::Approve, B), Err(VoteError::UpdateError));
    let p = svc.get_proposal(3).unwrap();
    assert_eq!((p.approve, p.reject, p.pass), (0, 0, 0));
    assert!(p.voted.is_empty());
}

#[test]
fn count_does_not_double_count_overwrites() {
    let mut svc = new_service();
    assert_eq!(svc.get_proposal_count(), 0);
    svc.create_proposal(1, spec("one", true), A).unwrap();
    svc.create_proposal(2, spec("two", true), A).unwrap();
    assert_eq!(svc.get_proposal_count(), 2);
    let prev = svc.create_proposal(1, spec("one again", false), B).unwrap();
    assert_eq!(prev.unwrap().description, "one");
    assert_eq!(svc.get_proposal_count(), 2);
}

#[test]
fn writes_under_one_key_leave_other_keys_alone() {
    let mut svc = new_service();
    svc.create_proposal(1, spec("first", true), A).unwrap();
    svc.create_proposal(2, spec("second", true), A).unwrap();
    svc.vote(1, Choice::Approve, B).unwrap();
    svc.edit_proposal(1, spec("first, edited", false), A).unwrap();
    let p2 = svc.get_proposal(2).unwrap();
    assert_eq!(p2.description, "second");
    assert_eq!((p2.approve, p2.reject, p2.pass), (0, 0, 0));
    assert!(p2.voted.is_empty());
    assert!(p2.is_active);
}

#[test]
fn listing_returns_entries_in_ascending_key_order() {
    let mut svc = new_service();
    svc.create_proposal(30, spec("c", true), A).unwrap();
    svc.create_proposal(10, spec("a", true), A).unwrap();
    svc.create_proposal(20, spec("b", true), A).unwrap();
    let all = svc.list_proposals();
    let keys: Vec<u64> = all.iter().map(|(k, _)| *k).collect();
    assert_eq!(keys, vec![10, 20, 30]);
    assert_eq!(all[0].1.description, "a");
}

#[test]
fn removing_a_proposal_returns_it() {
    let mut svc = new_service();
    svc.create_proposal(8, spec("doomed", true), A).unwrap();
    let gone = svc.remove_proposal(8).unwrap();
    assert_eq!(gone.description, "doomed");
    assert!(svc.get_proposal(8).is_none());
    assert!(svc.remove_proposal(8).is_none());
    assert_eq!(svc.get_proposal_count(), 0);
}

#[test]
fn restart_preserves_proposals() {
    let mut svc = new_service();
    svc.create_proposal(1, spec("durable", true), A).unwrap();
    svc.vote(1, Choice::Pass, B).unwrap();
    svc.create_proposal(2, spec("also durable", false), C).unwrap();

    let svc = svc.restart();
    assert_eq!(svc.get_proposal_count(), 2);
    let p = svc.get_proposal(1).unwrap();
    assert_eq!(p.description, "durable");
    assert_eq!((p.approve, p.reject, p.pass), (0, 0, 1));
    assert_eq!(p.voted, vec![B]);
    assert_eq!(p.owner, A);
    let q = svc.get_proposal(2).unwrap();
    assert!(!q.is_active);
    assert_eq!(q.owner, C);
}

#[test]
fn reattaching_a_detached_region_preserves_proposals() {
    let mut svc = new_service();
    svc.create_proposal(11, spec("kept", true), A).unwrap();
    let region = svc.detach();
    let svc = ProposalService::init(region);
    let p = svc.get_proposal(11).unwrap();
    assert_eq!(p.description, "kept");
    assert_eq!(p.owner, A);
}
