use quadratic_voting::balances;
use quadratic_voting::dispatch::{DispatchError, Origin};
use quadratic_voting::runtime::{run_to_block, ExtBuilder};
use quadratic_voting::voting::{Error, Event};

#[test]
fn can_add_proposal() {
    let mut rt = ExtBuilder::build();
    let origin = Origin::Signed(1);
    assert!(rt.identity.try_add_as_social_graph_originator(origin.clone()).is_ok());
    assert!(rt.voting.add_proposal(&rt.identity, origin, b"mint a kitty".to_vec()).is_ok());
    assert_eq!(rt.voting.get_proposals()[0], b"mint a kitty".to_vec());
    assert_eq!(rt.voting.get_proposers()[0], 1);
}

#[test]
fn proposal_errors() {
    let mut rt = ExtBuilder::build();
    let origin = Origin::Signed(1);
    assert_eq!(
        rt.voting.add_proposal(&rt.identity, origin.clone(), b"".to_vec()),
        Err(DispatchError::Voting(Error::TriedToAddEmptyProposal))
    );
    assert_eq!(rt.voting.get_proposals().len(), 0);
    assert_eq!(
        rt.voting.add_proposal(&rt.identity, origin.clone(), b"ghq".to_vec()),
        Err(DispatchError::Voting(Error::NotInVoterSet))
    );
    assert_eq!(rt.voting.get_proposals().len(), 0);
    assert_eq!(
        rt.voting.add_proposal(&rt.identity, Origin::Root, b"ghq".to_vec()),
        Err(DispatchError::BadOrigin)
    );
    assert!(rt.identity.try_add_as_social_graph_originator(origin.clone()).is_ok());
    assert!(rt.voting.add_proposal(&rt.identity, origin.clone(), b"mint a kitty".to_vec()).is_ok());
}

#[test]
fn too_many_proposals() {
    let mut rt = ExtBuilder::build();
    let origin = Origin::Signed(1);
    assert!(rt.identity.try_add_as_social_graph_originator(origin.clone()).is_ok());
    let mut i: u32 = 0;
    while i < 10 {
        assert!(rt.voting.add_proposal(&rt.identity, origin.clone(), b"ghq".to_vec()).is_ok());
        i += 1;
    }
    assert_eq!(
        rt.voting.add_proposal(&rt.identity, origin.clone(), b"ghq".to_vec()),
        Err(DispatchError::Voting(Error::TooManyProposals))
    );
    assert_eq!(rt.voting.get_proposals().len(), 10);
}

#[test]
fn over_long_proposal_is_a_capacity_error() {
    let mut rt = ExtBuilder::build();
    let origin = Origin::Signed(1);
    assert!(rt.identity.try_add_as_social_graph_originator(origin.clone()).is_ok());
    let long_payload = vec![97u8; 1001];
    assert_eq!(
        rt.voting.add_proposal(&rt.identity, origin.clone(), long_payload),
        Err(DispatchError::Voting(Error::TooManyProposals))
    );
    assert_eq!(rt.voting.get_proposals().len(), 0);
    let just_fits = vec![97u8; 1000];
    assert!(rt.voting.add_proposal(&rt.identity, origin.clone(), just_fits).is_ok());
    assert_eq!(rt.voting.get_proposals().len(), 1);
}

#[test]
fn can_add_voting_power() {
    let mut rt = ExtBuilder::build();
    let origin = Origin::Signed(1);
    assert!(rt.identity.try_add_as_social_graph_originator(origin.clone()).is_ok());
    assert!(rt.voting.reserve_voting_power(&mut rt.balances, origin.clone(), 10_000_000u128).is_ok());
    assert_eq!(rt.voting.get_reserve(1), 10_000_000u128);
}

#[test]
fn add_voting_power_errors() {
    let mut rt = ExtBuilder::build();
    let origin = Origin::Signed(2);
    assert!(rt.identity.try_add_as_social_graph_originator(origin.clone()).is_ok());
    assert_eq!(
        rt.voting.reserve_voting_power(&mut rt.balances, origin.clone(), 0u128),
        Err(DispatchError::Voting(Error::InvalidReserveAmount))
    );
    assert_eq!(
        rt.voting.reserve_voting_power(&mut rt.balances, origin.clone(), 1_000_000_000_000_000u128),
        Err(DispatchError::Balances(balances::Error::InsufficientBalance))
    );
}

#[test]
fn can_release_voting_power() {
    let mut rt = ExtBuilder::build();
    let origin = Origin::Signed(1);
    assert!(rt.identity.try_add_as_social_graph_originator(origin.clone()).is_ok());
    assert!(rt.voting.reserve_voting_power(&mut rt.balances, origin.clone(), 10_000_000u128).is_ok());
    assert_eq!(rt.voting.get_reserve(1), 10_000_000u128);
    assert!(rt.voting.release_all_voting_power(&mut rt.balances, origin.clone()).is_ok());
    assert_eq!(rt.voting.get_reserve(1), 0u128);
}

#[test]
fn release_voting_power_errors() {
    let mut rt = ExtBuilder::build();
    let origin = Origin::Signed(1);
    assert_eq!(
        rt.voting.release_all_voting_power(&mut rt.balances, origin.clone()),
        Err(DispatchError::Voting(Error::NoVotingPowerToRelease))
    );
}

#[test]
fn release_failure_leaves_state_unchanged() {
    let mut rt = ExtBuilder::build();
    let origin = Origin::Signed(1);
    let free_before = rt.balances.free_balance(1);
    let reserved_before = rt.balances.reserved_balance(1);
    assert_eq!(
        rt.voting.release_all_voting_power(&mut rt.balances, origin.clone()),
        Err(DispatchError::Voting(Error::NoVotingPowerToRelease))
    );
    assert_eq!(rt.balances.free_balance(1), free_before);
    assert_eq!(rt.balances.reserved_balance(1), reserved_before);
    assert_eq!(rt.voting.get_reserve(1), 0u128);
    assert_eq!(rt.voting.events().len(), 0);
}

#[test]
fn reserve_is_an_additive_top_up() {
    let mut rt = ExtBuilder::build();
    let origin = Origin::Signed(1);
    assert!(rt.identity.try_add_as_social_graph_originator(origin.clone()).is_ok());
    assert!(rt.voting.reserve_voting_power(&mut rt.balances, origin.clone(), 100u128).is_ok());
    assert!(rt.voting.reserve_voting_power(&mut rt.balances, origin.clone(), 200u128).is_ok());
    assert_eq!(rt.voting.get_reserve(1), 300u128);
    assert_eq!(rt.balances.reserved_balance(1), 300u128);
    assert_eq!(rt.balances.free_balance(1), 1_000_000_000_000_000u128 - 300);
    assert!(rt.voting.release_all_voting_power(&mut rt.balances, origin.clone()).is_ok());
    assert_eq!(rt.balances.reserved_balance(1), 0u128);
    assert_eq!(rt.balances.free_balance(1), 1_000_000_000_000_000u128);
}

#[test]
fn can_vote() {
    let mut rt = ExtBuilder::build();
    let origin = Origin::Signed(1);
    let origin2 = Origin::Signed(2);
    assert!(rt.identity.try_add_as_social_graph_originator(origin.clone()).is_ok());
    assert!(rt.voting.reserve_voting_power(&mut rt.balances, origin.clone(), 1_000_000u128).is_ok());
    assert!(rt.identity.try_add_as_social_graph_originator(origin2.clone()).is_ok());
    assert!(rt.voting.reserve_voting_power(&mut rt.balances, origin2.clone(), 1_000_000u128).is_ok());
    assert!(rt.voting.add_proposal(&rt.identity, origin.clone(), b"mint a kitty".to_vec()).is_ok());
    assert!(rt.voting.vote_on_current_proposal(&rt.identity, origin.clone(), true).is_ok());
    assert!(rt.voting.vote_on_current_proposal(&rt.identity, origin2.clone(), false).is_ok());
    run_to_block(&mut rt, 10);
    assert_eq!(rt.voting.get_tally().0, 1_000);
    assert_eq!(rt.voting.get_tally().1, 1_000);
}

#[test]
fn vote_errors() {
    let mut rt = ExtBuilder::build();
    let origin = Origin::Signed(1);
    let origin2 = Origin::Signed(2);
    assert!(rt.identity.try_add_as_social_graph_originator(origin.clone()).is_ok());
    assert!(rt.voting.reserve_voting_power(&mut rt.balances, origin2.clone(), 1_000_000u128).is_ok());
    assert_eq!(
        rt.voting.vote_on_current_proposal(&rt.identity, origin2.clone(), true),
        Err(DispatchError::Voting(Error::NotInVoterSet))
    );
    assert_eq!(
        rt.voting.vote_on_current_proposal(&rt.identity, origin.clone(), true),
        Err(DispatchError::Voting(Error::VotedWithNoVotingPower))
    );
    assert!(rt.identity.try_add_as_social_graph_originator(origin2.clone()).is_ok());
    assert_eq!(
        rt.voting.vote_on_current_proposal(&rt.identity, origin2.clone(), true),
        Err(DispatchError::Voting(Error::NoProposalToVoteFor))
    );
}

#[test]
fn finalize_kitty_vote() {
    let mut rt = ExtBuilder::build();
    let origin1 = Origin::Signed(1);
    let origin2 = Origin::Signed(2);
    assert!(rt.identity.try_add_as_social_graph_originator(origin1.clone()).is_ok());
    assert!(rt.identity.try_add_as_social_graph_originator(origin2.clone()).is_ok());
    assert!(rt.voting.reserve_voting_power(&mut rt.balances, origin1.clone(), 1_000_000_000_000_000u128).is_ok());
    assert!(rt.voting.reserve_voting_power(&mut rt.balances, origin2.clone(), 1_000_000u128).is_ok());
    assert!(rt.voting.add_proposal(&rt.identity, origin1.clone(), b"be the kitty".to_vec()).is_ok());
    assert!(rt.voting.add_proposal(&rt.identity, origin1.clone(), b"mint a kitty".to_vec()).is_ok());
    // Check finalizing a failed proposal.
    assert!(rt.voting.vote_on_current_proposal(&rt.identity, origin1.clone(), false).is_ok());
    assert!(rt.voting.vote_on_current_proposal(&rt.identity, origin2.clone(), true).is_ok());
    run_to_block(&mut rt, 61);
    assert_eq!(rt.voting.get_proposals()[0], b"mint a kitty".to_vec());
    assert!(rt.voting.vote_on_current_proposal(&rt.identity, origin1.clone(), true).is_ok());
    assert!(rt.voting.vote_on_current_proposal(&rt.identity, origin2.clone(), false).is_ok());
    run_to_block(&mut rt, 121);
    // The approved sentinel proposal minted an item for its proposer.
    assert_eq!(rt.voting.get_proposals().len(), 0);
    assert_eq!(rt.kitties.get_kitties_owned(1).len(), 1);
}

#[test]
fn low_turnout_rejects_even_a_majority() {
    let mut rt = ExtBuilder::build();
    let origin1 = Origin::Signed(1);
    let origin2 = Origin::Signed(2);
    assert!(rt.identity.try_add_as_social_graph_originator(origin1.clone()).is_ok());
    assert!(rt.identity.try_add_as_social_graph_originator(origin2.clone()).is_ok());
    // floor(sqrt(1_000_000)) = 1000 of power per account.
    assert!(rt.voting.reserve_voting_power(&mut rt.balances, origin1.clone(), 1_000_000u128).is_ok());
    assert!(rt.voting.reserve_voting_power(&mut rt.balances, origin2.clone(), 1_000_000u128).is_ok());
    assert!(rt.voting.add_proposal(&rt.identity, origin1.clone(), b"mint a kitty".to_vec()).is_ok());
    assert!(rt.voting.vote_on_current_proposal(&rt.identity, origin1.clone(), true).is_ok());
    assert!(rt.voting.vote_on_current_proposal(&rt.identity, origin2.clone(), false).is_ok());
    assert_eq!(rt.voting.get_tally(), (1000, 1000));
    run_to_block(&mut rt, 61);
    // Turnout 2000 is under the threshold 10000: rejected, nothing minted.
    assert_eq!(rt.voting.get_proposals().len(), 0);
    assert_eq!(rt.kitties.get_kitties_owned(1).len(), 0);
    assert_eq!(rt.voting.get_tally(), (0, 0));
    assert!(matches!(
        rt.voting.events().last().unwrap(),
        Event::CurrentProposalRejected(_, (1000, 1000))
    ));
}

#[test]
fn finalize_on_empty_queue_is_a_no_op() {
    let mut rt = ExtBuilder::build();
    let r = rt.voting.finalize_current_vote(&mut rt.kitties);
    assert!(r.is_ok());
    assert_eq!(rt.voting.events().len(), 0);
    assert_eq!(rt.voting.get_tally(), (0, 0));
    // The periodic trigger on an empty queue stays silent too.
    run_to_block(&mut rt, 121);
    assert_eq!(rt.voting.events().len(), 0);
    assert_eq!(rt.finalize_failures.len(), 0);
}

#[test]
fn tally_is_zero_right_after_a_pop() {
    let mut rt = ExtBuilder::build();
    let origin = Origin::Signed(1);
    assert!(rt.identity.try_add_as_social_graph_originator(origin.clone()).is_ok());
    assert!(rt.voting.reserve_voting_power(&mut rt.balances, origin.clone(), 1_000_000u128).is_ok());
    assert!(rt.voting.add_proposal(&rt.identity, origin.clone(), b"ghq".to_vec()).is_ok());
    assert!(rt.voting.vote_on_current_proposal(&rt.identity, origin.clone(), true).is_ok());
    assert_eq!(rt.voting.get_tally(), (1000, 0));
    let r = rt.voting.finalize_current_vote(&mut rt.kitties);
    assert!(r.is_ok());
    assert_eq!(rt.voting.get_tally(), (0, 0));
    assert_eq!(rt.voting.get_proposals().len(), 0);
    assert_eq!(rt.voting.get_proposers().len(), 0);
}

#[test]
fn failed_privileged_action_is_recorded() {
    let mut rt = ExtBuilder::build();
    let origin = Origin::Signed(1);
    assert!(rt.identity.try_add_as_social_graph_originator(origin.clone()).is_ok());
    assert!(rt.voting.reserve_voting_power(&mut rt.balances, origin.clone(), 1_000_000_000_000_000u128).is_ok());
    assert!(rt.voting.add_proposal(&rt.identity, origin.clone(), b"mint a kitty".to_vec()).is_ok());
    assert!(rt.voting.add_proposal(&rt.identity, origin.clone(), b"mint a kitty".to_vec()).is_ok());
    assert!(rt.voting.vote_on_current_proposal(&rt.identity, origin.clone(), true).is_ok());
    run_to_block(&mut rt, 61);
    // The first approval minted the single item the cap allows.
    assert_eq!(rt.kitties.get_kitties_owned(1).len(), 1);
    assert_eq!(rt.finalize_failures.len(), 0);
    assert!(rt.voting.vote_on_current_proposal(&rt.identity, origin.clone(), true).is_ok());
    run_to_block(&mut rt, 121);
    // The second approval could not mint: the failure is surfaced on the
    // runtime's alerting path instead of being swallowed.
    assert_eq!(rt.kitties.get_kitties_owned(1).len(), 1);
    assert_eq!(rt.finalize_failures.len(), 1);
    assert!(matches!(
        rt.finalize_failures[0],
        DispatchError::Kitties(quadratic_voting::kitties::Error::TooManyOwned)
    ));
}

#[test]
fn proposal_queues_move_in_lock_step() {
    let mut rt = ExtBuilder::build();
    let origin = Origin::Signed(1);
    assert!(rt.identity.try_add_as_social_graph_originator(origin.clone()).is_ok());
    assert_eq!(rt.voting.get_proposals().len(), rt.voting.get_proposers().len());
    assert!(rt.voting.add_proposal(&rt.identity, origin.clone(), b"ghq".to_vec()).is_ok());
    assert_eq!(rt.voting.get_proposals().len(), rt.voting.get_proposers().len());
    assert!(rt.voting.add_proposal(&rt.identity, origin.clone(), b"mint a kitty".to_vec()).is_ok());
    assert_eq!(rt.voting.get_proposals().len(), rt.voting.get_proposers().len());
    let r = rt.voting.finalize_current_vote(&mut rt.kitties);
    assert!(r.is_ok());
    assert_eq!(rt.voting.get_proposals().len(), 1);
    assert_eq!(rt.voting.get_proposers().len(), 1);
}

#[test]
fn voting_emits_events() {
    let mut rt = ExtBuilder::build();
    let origin = Origin::Signed(1);
    assert!(rt.identity.try_add_as_social_graph_originator(origin.clone()).is_ok());
    assert!(rt.voting.reserve_voting_power(&mut rt.balances, origin.clone(), 1_000_000u128).is_ok());
    assert!(rt.voting.add_proposal(&rt.identity, origin.clone(), b"ghq".to_vec()).is_ok());
    assert!(rt.voting.vote_on_current_proposal(&rt.identity, origin.clone(), true).is_ok());
    let events = rt.voting.events();
    assert_eq!(events.len(), 3);
    assert!(matches!(events[0], Event::VotingPowerReserved(1, 1_000_000)));
    assert!(matches!(&events[1], Event::ProposalSubmitted(1, p) if p == &b"ghq".to_vec()));
    assert!(matches!(events[2], Event::VotedOnCurrentProposal(1, (1000, 0))));
}

#[test]
fn voting_queries_are_idempotent() {
    let mut rt = ExtBuilder::build();
    let origin = Origin::Signed(1);
    assert!(rt.identity.try_add_as_social_graph_originator(origin.clone()).is_ok());
    assert!(rt.voting.reserve_voting_power(&mut rt.balances, origin.clone(), 400u128).is_ok());
    assert!(rt.voting.add_proposal(&rt.identity, origin.clone(), b"ghq".to_vec()).is_ok());
    let mut i: u32 = 0;
    while i < 5 {
        assert_eq!(rt.voting.get_reserve(1), 400u128);
        assert_eq!(rt.voting.get_tally(), (0, 0));
        assert_eq!(rt.voting.get_proposals().len(), 1);
        assert_eq!(rt.voting.get_proposers()[0], 1);
        assert_eq!(rt.balances.free_balance(1), 1_000_000_000_000_000u128 - 400);
        assert_eq!(rt.balances.reserved_balance(1), 400u128);
        i += 1;
    }
    assert_eq!(rt.voting.events().len(), 2);
}
