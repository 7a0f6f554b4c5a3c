use std::collections::BTreeMap;

use tcr::{
    ChallengeDetail, DispatchError, Effect, Environment, Event, ListingDetail, Module, RawOrigin,
    Reservation, Trait, Vote,
};

struct Test;

impl Trait for Test {
    type AccountId = u64;
    type BlockNumber = u64;
    type Balance = u64;
    type ListingId = u32;

    fn min_deposit() -> u64 {
        100
    }

    fn apply_stage_len() -> u64 {
        10
    }

    fn commit_stage_len() -> u64 {
        10
    }
}

type Tcr = Module<Test>;
type Answer = Result<(), DispatchError>;

/// A ledger with a free and a reserved balance for each account.
struct Balances {
    accounts: BTreeMap<u64, (u64, u64)>,
}

impl Balances {
    fn free_balance(&self, who: u64) -> u64 {
        self.accounts.get(&who).map_or(0, |a| a.0)
    }

    fn reserved_balance(&self, who: u64) -> u64 {
        self.accounts.get(&who).map_or(0, |a| a.1)
    }

    fn reserve(&mut self, who: u64, amount: u64) -> bool {
        let account = self.accounts.entry(who).or_insert((0, 0));
        if account.0 < amount {
            return false;
        }
        account.0 -= amount;
        account.1 += amount;
        true
    }

    fn unreserve(&mut self, who: u64, amount: u64) {
        let account = self.accounts.entry(who).or_insert((0, 0));
        let moved = amount.min(account.1);
        account.1 -= moved;
        account.0 += moved;
    }

    fn slash(&mut self, who: u64, amount: u64) {
        let account = self.accounts.entry(who).or_insert((0, 0));
        let from_free = amount.min(account.0);
        account.0 -= from_free;
        account.1 -= (amount - from_free).min(account.1);
    }
}

/// A registry on a chain of its own.
struct Chain {
    tcr: Tcr,
    balances: Balances,
    block_number: u64,
    events: Vec<Event<u64, u64, u32>>,
}

fn new_chain() -> Chain {
    let mut accounts = BTreeMap::new();
    for who in 1..=4 {
        accounts.insert(who, (1000_000, 0));
    }
    Chain { tcr: Tcr::new(), balances: Balances { accounts }, block_number: 1, events: vec![] }
}

fn signed(who: u64) -> RawOrigin<u64> {
    RawOrigin::Signed(who)
}

impl Chain {
    fn env(&self) -> Environment<Test> {
        Environment::at(self.block_number)
    }

    fn propose(&mut self, origin: RawOrigin<u64>, id: u32, deposit: u64) -> Answer {
        let env = self.env();
        let wanted = self.tcr.propose_reservation(&env, origin.clone(), id, deposit)?;
        let reserved = self.balances.reserve(wanted.who, wanted.amount);
        let event = self.tcr.propose(&env, origin, id, deposit, reserved)?;
        self.events.push(event);
        Ok(())
    }

    fn challenge(&mut self, origin: RawOrigin<u64>, id: u32, deposit: u64) -> Answer {
        let env = self.env();
        let wanted = self.tcr.challenge_reservation(&env, origin.clone(), id, deposit)?;
        let reserved = self.balances.reserve(wanted.who, wanted.amount);
        let event = self.tcr.challenge(&env, origin, id, deposit, reserved)?;
        self.events.push(event);
        Ok(())
    }

    fn vote(&mut self, origin: RawOrigin<u64>, id: u32, aye: bool, deposit: u64) -> Answer {
        let wanted = self.tcr.vote_reservation(origin.clone(), id, deposit)?;
        let reserved = self.balances.reserve(wanted.who, wanted.amount);
        let event = self.tcr.vote(origin, id, aye, deposit, reserved)?;
        self.events.push(event);
        Ok(())
    }

    fn on_finalize(&mut self, now: u64) {
        for effect in self.tcr.on_finalize(now) {
            match effect {
                Effect::Emit(event) => self.events.push(event),
                Effect::Unreserve(who, amount) => self.balances.unreserve(who, amount),
                Effect::Slash(who, amount) => self.balances.slash(who, amount),
            }
        }
    }

    fn set_block_number(&mut self, block: u64) {
        self.block_number = block;
    }
}

#[test]
fn should_fail_low_deposit() {
    let mut chain = new_chain();
    let refusal = chain.propose(signed(1), 1, 99).unwrap_err();
    assert_eq!(refusal.message(), "deposit should be more than min_deposit");
    assert_eq!(refusal, DispatchError::DepositBelowMinimum);
    assert_eq!(chain.tcr.listings(1), ListingDetail::default());
    assert_eq!(chain.balances.reserved_balance(1), 0);
    assert_eq!(chain.events, vec![]);
}

#[test]
fn should_pass_propose() {
    let mut chain = new_chain();
    // Make the proposal
    assert_eq!(chain.propose(signed(1), 1, 100), Ok(()));

    // Ensure the proper balance has been reserved
    assert_eq!(chain.balances.free_balance(1), 999_900);
    assert_eq!(chain.balances.reserved_balance(1), 100);
}

#[test]
fn should_fail_challenge_same_owner() {
    let mut chain = new_chain();
    assert_eq!(chain.propose(signed(1), 1, 101), Ok(()));
    let before = chain.tcr.listings(1);
    let refusal = chain.challenge(signed(1), 1, 100).unwrap_err();
    assert_eq!(refusal.message(), "You cannot challenge your own listing.");
    assert_eq!(chain.tcr.listings(1), before);
    assert_eq!(chain.tcr.next_challenge_id(), 0);
    assert_eq!(chain.balances.reserved_balance(1), 101);
}

#[test]
fn should_pass_challenge() {
    let mut chain = new_chain();
    assert_eq!(chain.propose(signed(1), 1, 101), Ok(()));
    assert_eq!(chain.challenge(signed(2), 1, 101), Ok(()));
}

#[test]
fn promotion_works() {
    let mut chain = new_chain();
    assert_eq!(chain.propose(signed(1), 1, 101), Ok(()));
    chain.set_block_number(11);
    chain.on_finalize(11);
    assert!(chain.tcr.listings(1).in_registry);
}

#[test]
fn aye_vote_works_correctly() {
    let mut chain = new_chain();
    assert_eq!(chain.propose(signed(1), 1, 100), Ok(()));
    assert_eq!(chain.challenge(signed(2), 1, 300), Ok(()));
    assert_eq!(chain.vote(signed(1), 1, true, 50), Ok(()));

    // Ensure the challenges struct has been updated properly
    assert_eq!(chain.tcr.challenges(0).total_aye, 100 + 50);
    assert_eq!(chain.tcr.challenges(0).total_nay, 300);

    // Ensure the proper balances have been reserved
    assert_eq!(chain.balances.reserved_balance(1), 100 + 50);
    assert_eq!(chain.balances.reserved_balance(2), 300);
}

#[test]
fn nay_vote_works_correctly() {
    let mut chain = new_chain();
    assert_eq!(chain.propose(signed(1), 1, 100), Ok(()));
    assert_eq!(chain.challenge(signed(2), 1, 300), Ok(()));
    assert_eq!(chain.vote(signed(3), 1, false, 50), Ok(()));

    // Ensure challenges struct update properly
    assert_eq!(chain.tcr.challenges(0).total_aye, 100);
    assert_eq!(chain.tcr.challenges(0).total_nay, 300 + 50);

    // Ensure balances reserved properly
    assert_eq!(chain.balances.reserved_balance(1), 100);
    assert_eq!(chain.balances.reserved_balance(2), 300);
    assert_eq!(chain.balances.reserved_balance(3), 50);
}

#[test]
fn successfully_challenged_proposals_are_removed() {
    let mut chain = new_chain();
    assert_eq!(chain.propose(signed(1), 1, 100), Ok(()));
    assert_eq!(chain.challenge(signed(2), 1, 300), Ok(()));

    chain.on_finalize(11);

    assert!(!chain.tcr.registry_contains(1));
    assert_eq!(chain.tcr.listings(1), ListingDetail::default());
}

#[test]
fn successfully_challenged_listings_are_removed() {
    let mut chain = new_chain();

    // Propose
    assert_eq!(chain.propose(signed(1), 1, 100), Ok(()));

    // Promote
    chain.set_block_number(11);
    chain.on_finalize(11);

    // Challenge
    chain.set_block_number(12);
    assert_eq!(chain.challenge(signed(2), 1, 300), Ok(()));

    // Run on_finalize
    chain.on_finalize(22);

    assert!(!chain.tcr.registry_contains(1));
}

#[test]
fn unsuccessfully_challenged_listings_are_kept() {
    let mut chain = new_chain();
    // Propose
    assert_eq!(chain.propose(signed(1), 1, 100), Ok(()));

    // Promote
    chain.set_block_number(11);
    chain.on_finalize(11);

    // Challenge
    chain.set_block_number(12);
    assert_eq!(chain.challenge(signed(2), 1, 300), Ok(()));

    // Aye vote saves listing
    assert_eq!(chain.vote(signed(3), 1, true, 400), Ok(()));

    // Run on_finalize
    chain.on_finalize(22);

    // Ensure listing is still in the registry
    assert!(chain.tcr.registry_contains(1));
}

#[test]
fn a_proposal_is_an_application_until_it_expires() {
    let mut chain = new_chain();
    assert_eq!(chain.propose(signed(1), 1, 100), Ok(()));
    assert_eq!(
        chain.tcr.listings(1),
        ListingDetail {
            deposit: 100,
            owner: 1,
            application_expiry: Some(11),
            in_registry: false,
            challenge_id: None,
        }
    );
    assert_eq!(chain.tcr.challenge_expiry(11), vec![1]);
    assert!(!chain.tcr.registry_contains(1));
    for block in 1..=10 {
        chain.on_finalize(block);
        assert!(!chain.tcr.registry_contains(1));
    }
    chain.on_finalize(11);
    assert!(chain.tcr.registry_contains(1));
    assert_eq!(chain.tcr.challenge_expiry(11), vec![]);
    assert_eq!(chain.tcr.listings(1).application_expiry, None);
    assert_eq!(chain.balances.reserved_balance(1), 100);
    assert_eq!(chain.events, vec![Event::Proposed(1, 1, 100), Event::Accepted(1)]);
}

#[test]
fn a_challenge_opens_with_the_two_deposits() {
    let mut chain = new_chain();
    assert_eq!(chain.propose(signed(1), 1, 100), Ok(()));
    chain.set_block_number(4);
    assert_eq!(chain.challenge(signed(2), 1, 300), Ok(()));
    assert_eq!(
        chain.tcr.challenges(0),
        ChallengeDetail {
            listing_id: 1,
            deposit: 300,
            owner: 2,
            voting_expiry: 14,
            total_aye: 100,
            total_nay: 300,
            votes: vec![],
        }
    );
    assert_eq!(chain.tcr.listings(1).challenge_id, Some(0));
    assert_eq!(chain.tcr.listings(1).application_expiry, None);
    assert_eq!(chain.tcr.next_challenge_id(), 1);
    assert_eq!(chain.tcr.challenge_expiry(14), vec![1]);
    assert_eq!(chain.events[1], Event::Challenged(2, 1, 0, 300));
}

#[test]
fn a_challenged_application_is_not_updated_at_its_application_expiry() {
    let mut chain = new_chain();
    assert_eq!(chain.propose(signed(1), 1, 100), Ok(()));
    chain.set_block_number(5);
    assert_eq!(chain.challenge(signed(2), 1, 300), Ok(()));
    chain.on_finalize(11);
    assert_eq!(chain.tcr.listings(1).challenge_id, Some(0));
    assert_eq!(chain.tcr.challenges(0).total_nay, 300);
    assert_eq!(chain.events.len(), 2);
    // Votes are still taken.
    assert_eq!(chain.vote(signed(3), 1, true, 201), Ok(()));
    chain.on_finalize(15);
    assert!(chain.tcr.registry_contains(1));
    assert_eq!(
        chain.events[2..],
        [Event::Voted(3, 0, true, 201), Event::Resolved(1, true), Event::Accepted(1)]
    );
}

#[test]
fn resolved_challenges_are_no_longer_open() {
    let mut chain = new_chain();
    assert_eq!(chain.propose(signed(1), 1, 100), Ok(()));
    assert_eq!(chain.challenge(signed(2), 1, 300), Ok(()));
    chain.on_finalize(11);
    assert_eq!(chain.tcr.challenges(0), ChallengeDetail::default());
    assert_eq!(chain.tcr.next_challenge_id(), 1);
}

#[test]
fn a_rejected_proposal_costs_the_owner_the_deposit() {
    let mut chain = new_chain();
    assert_eq!(chain.propose(signed(1), 1, 100), Ok(()));
    assert_eq!(chain.challenge(signed(2), 1, 300), Ok(()));
    assert_eq!(chain.vote(signed(3), 1, true, 40), Ok(()));
    assert_eq!(chain.vote(signed(4), 1, false, 60), Ok(()));
    let effects = chain.tcr.on_finalize(11);
    assert_eq!(
        effects,
        vec![
            Effect::Emit(Event::Resolved(1, false)),
            Effect::Unreserve(1, 100),
            Effect::Slash(1, 100),
            Effect::Unreserve(2, 300),
            Effect::Emit(Event::Rejected(1)),
            Effect::Unreserve(3, 40),
            Effect::Slash(3, 40),
            Effect::Unreserve(4, 60),
        ]
    );
}

#[test]
fn a_failed_challenge_costs_the_challenger_the_deposit() {
    let mut chain = new_chain();
    assert_eq!(chain.propose(signed(1), 1, 100), Ok(()));
    assert_eq!(chain.challenge(signed(2), 1, 300), Ok(()));
    assert_eq!(chain.vote(signed(3), 1, true, 400), Ok(()));
    assert_eq!(chain.vote(signed(4), 1, false, 60), Ok(()));
    chain.on_finalize(11);
    assert_eq!(chain.balances.free_balance(1), 999_900);
    assert_eq!(chain.balances.reserved_balance(1), 100);
    assert_eq!(chain.balances.free_balance(2), 999_700);
    assert_eq!(chain.balances.reserved_balance(2), 0);
    assert_eq!(chain.balances.free_balance(3), 1000_000);
    assert_eq!(chain.balances.reserved_balance(3), 0);
    assert_eq!(chain.balances.free_balance(4), 999_940);
    assert_eq!(chain.balances.reserved_balance(4), 0);
    assert_eq!(chain.events[4..], [Event::Resolved(1, true), Event::Accepted(1)]);
}

#[test]
fn a_listing_that_passes_a_challenge_is_not_accepted_again() {
    let mut chain = new_chain();
    assert_eq!(chain.propose(signed(1), 1, 100), Ok(()));
    chain.on_finalize(11);
    chain.set_block_number(12);
    assert_eq!(chain.challenge(signed(2), 1, 100), Ok(()));
    assert_eq!(chain.vote(signed(3), 1, true, 1), Ok(()));
    let effects = chain.tcr.on_finalize(22);
    assert_eq!(
        effects,
        vec![
            Effect::Emit(Event::Resolved(1, true)),
            Effect::Unreserve(2, 100),
            Effect::Slash(2, 100),
            Effect::Unreserve(3, 1),
        ]
    );
    assert_eq!(chain.tcr.listings(1).challenge_id, None);
}

#[test]
fn a_tie_removes_the_listing() {
    let mut chain = new_chain();
    assert_eq!(chain.propose(signed(1), 1, 100), Ok(()));
    assert_eq!(chain.challenge(signed(2), 1, 300), Ok(()));
    assert_eq!(chain.vote(signed(3), 1, true, 200), Ok(()));
    chain.on_finalize(11);
    assert!(!chain.tcr.registry_contains(1));
    assert_eq!(chain.events[3..], [Event::Resolved(1, false), Event::Rejected(1)]);
}

#[test]
fn votes_are_recorded_in_order() {
    let mut chain = new_chain();
    assert_eq!(chain.propose(signed(1), 1, 100), Ok(()));
    assert_eq!(chain.challenge(signed(2), 1, 300), Ok(()));
    assert_eq!(chain.vote(signed(3), 1, true, 5), Ok(()));
    assert_eq!(chain.vote(signed(3), 1, false, 7), Ok(()));
    assert_eq!(
        chain.tcr.challenges(0).votes,
        vec![
            Vote { voter: 3, aye_or_nay: true, deposit: 5 },
            Vote { voter: 3, aye_or_nay: false, deposit: 7 },
        ]
    );
    assert_eq!(chain.tcr.challenges(0).total_aye, 105);
    assert_eq!(chain.tcr.challenges(0).total_nay, 307);
}

#[test]
fn everything_reserved_is_released_or_still_held() {
    let mut chain = new_chain();
    assert_eq!(chain.propose(signed(1), 1, 100), Ok(()));
    assert_eq!(chain.propose(signed(2), 2, 150), Ok(()));
    assert_eq!(chain.propose(signed(3), 3, 200), Ok(()));
    assert_eq!(chain.challenge(signed(3), 1, 100), Ok(()));
    assert_eq!(chain.challenge(signed(4), 2, 150), Ok(()));
    assert_eq!(chain.vote(signed(4), 1, true, 10), Ok(()));
    assert_eq!(chain.vote(signed(1), 2, false, 20), Ok(()));
    assert_eq!(chain.balances.reserved_balance(1), 120);
    assert_eq!(chain.balances.reserved_balance(2), 150);
    assert_eq!(chain.balances.reserved_balance(3), 300);
    assert_eq!(chain.balances.reserved_balance(4), 160);
    chain.on_finalize(11);
    // The first listing passed, the second did not, the third was not challenged.
    assert!(chain.tcr.registry_contains(1));
    assert!(!chain.tcr.registry_contains(2));
    assert!(chain.tcr.registry_contains(3));
    assert_eq!(chain.balances.reserved_balance(1), 100);
    assert_eq!(chain.balances.reserved_balance(2), 0);
    assert_eq!(chain.balances.reserved_balance(3), 200);
    assert_eq!(chain.balances.reserved_balance(4), 0);
    assert_eq!(chain.balances.free_balance(1), 999_900);
    assert_eq!(chain.balances.free_balance(2), 999_850);
    assert_eq!(chain.balances.free_balance(3), 999_700);
    assert_eq!(chain.balances.free_balance(4), 1000_000);
}

#[test]
fn a_listing_can_be_proposed_and_challenged_again() {
    let mut chain = new_chain();
    assert_eq!(chain.propose(signed(1), 1, 100), Ok(()));
    assert_eq!(chain.challenge(signed(2), 1, 100), Ok(()));
    chain.on_finalize(11);
    chain.set_block_number(12);
    assert_eq!(chain.propose(signed(3), 1, 120), Ok(()));
    assert_eq!(chain.challenge(signed(2), 1, 120), Ok(()));
    assert_eq!(chain.tcr.listings(1).challenge_id, Some(1));
    assert_eq!(chain.tcr.listings(1).owner, 3);
    assert_eq!(chain.tcr.challenges(1).owner, 2);
}

#[test]
fn blocks_without_updates_do_nothing() {
    let mut chain = new_chain();
    assert_eq!(chain.propose(signed(1), 1, 100), Ok(()));
    assert_eq!(chain.tcr.on_finalize(12), vec![]);
    assert_eq!(chain.tcr.listings(1).application_expiry, Some(11));
}

#[test]
fn reservations_name_the_signer_and_the_deposit() {
    let mut chain = new_chain();
    let env = chain.env();
    assert_eq!(
        chain.tcr.propose_reservation(&env, signed(1), 1, 100),
        Ok(Reservation { who: 1, amount: 100 })
    );
    assert_eq!(chain.propose(signed(1), 1, 100), Ok(()));
    assert_eq!(
        chain.tcr.challenge_reservation(&env, signed(2), 1, 300),
        Ok(Reservation { who: 2, amount: 300 })
    );
    assert_eq!(chain.challenge(signed(2), 1, 300), Ok(()));
    assert_eq!(
        chain.tcr.vote_reservation(signed(3), 1, 50),
        Ok(Reservation { who: 3, amount: 50 })
    );
}

#[test]
fn blocks_finalized_in_turn_miss_nothing() {
    let mut chain = new_chain();
    for block in 1..=40u64 {
        chain.set_block_number(block);
        if block <= 20 {
            assert_eq!(chain.propose(signed(1 + block % 2), block as u32, 100), Ok(()));
        }
        if block % 3 == 0 && block <= 20 {
            // Challenged before the application expires.
            assert_eq!(chain.challenge(signed(3), block as u32 - 2, 100), Ok(()));
        }
        chain.on_finalize(block);
        for id in 1..=20 {
            if let Some(expiry) = chain.tcr.listings(id).application_expiry {
                assert!(expiry > block);
            }
            if let Some(number) = chain.tcr.listings(id).challenge_id {
                assert!(chain.tcr.challenges(number).voting_expiry > block);
            }
        }
    }
    for id in 1..=20 {
        let rejected = id % 3 == 1 && id <= 16;
        assert_eq!(chain.tcr.registry_contains(id), !rejected);
    }
    assert_eq!(chain.balances.reserved_balance(3), 0);
    assert_eq!(chain.balances.free_balance(3), 1000_000);
}

#[test]
fn a_part_of_the_registry_answers_as_the_whole() {
    let mut chain = new_chain();
    assert_eq!(chain.propose(signed(1), 1, 100), Ok(()));
    assert_eq!(chain.propose(signed(1), 2, 100), Ok(()));
    assert_eq!(chain.challenge(signed(2), 1, 300), Ok(()));
    chain.set_block_number(2);
    assert_eq!(chain.propose(signed(1), 3, 100), Ok(()));
    let mut part = Tcr::new();
    part.next_challenge_id = chain.tcr.next_challenge_id();
    for id in [1, 2] {
        part.listings.insert(id, chain.tcr.listings(id));
    }
    part.challenges.insert(0, chain.tcr.challenges(0));
    part.listings_to_update.insert(11, chain.tcr.challenge_expiry(11));
    let effects = chain.tcr.on_finalize(11);
    assert_eq!(part.on_finalize(11), effects);
    assert_eq!(effects.len(), 6);
    for id in [1, 2] {
        assert_eq!(part.listings(id), chain.tcr.listings(id));
    }
    assert_eq!(part.challenges(0), chain.tcr.challenges(0));
    assert_eq!(chain.tcr.listings(3).application_expiry, Some(12));
}

fn accepted(chain: &Chain, id: u32) -> usize {
    chain.events.iter().filter(|event| **event == Event::Accepted(id)).count()
}

#[test]
fn an_unchallenged_proposal_is_promoted_once_whatever_else_happens() {
    let mut chain = new_chain();
    chain.propose(signed(1), 1, 101).unwrap();
    for block in 1..=40 {
        chain.set_block_number(block);
        match block {
            3 => chain.propose(signed(2), 2, 150).unwrap(),
            4 => chain.challenge(signed(3), 2, 150).unwrap(),
            5 => chain.vote(signed(4), 2, true, 20).unwrap(),
            6 => assert_eq!(
                chain.propose(signed(2), 1, 150),
                Err(DispatchError::ListingAlreadyExists)
            ),
            7 => assert_eq!(chain.challenge(signed(1), 1, 150), Err(DispatchError::OwnListing)),
            _ => {}
        }
        assert_eq!(chain.tcr.registry_contains(1), block > 11);
        chain.on_finalize(block);
        assert_eq!(chain.tcr.registry_contains(1), block >= 11);
        assert_eq!(accepted(&chain, 1), if block >= 11 { 1 } else { 0 });
        let listing = chain.tcr.listings(1);
        assert_eq!((listing.owner, listing.deposit, listing.challenge_id), (1, 101, None));
        assert_eq!(listing.application_expiry, if block >= 11 { None } else { Some(11) });
    }
    assert_eq!(accepted(&chain, 2), 1);
}

#[test]
fn an_unanswered_challenge_removes_the_listing_whatever_else_happens() {
    let mut chain = new_chain();
    chain.propose(signed(1), 1, 101).unwrap();
    chain.propose(signed(1), 2, 101).unwrap();
    chain.set_block_number(2);
    chain.challenge(signed(2), 1, 101).unwrap();
    for block in 2..=20 {
        chain.set_block_number(block);
        match block {
            5 => chain.challenge(signed(3), 2, 101).unwrap(),
            6 => chain.vote(signed(4), 2, true, 10).unwrap(),
            _ => {}
        }
        assert_eq!(chain.tcr.listings.contains_key(&1), block <= 12);
        assert_eq!(chain.tcr.challenges.contains_key(&0), block <= 12);
        chain.on_finalize(block);
    }
    let rejected = chain.events.iter().filter(|event| **event == Event::Rejected(1)).count();
    assert_eq!(rejected, 1);
    assert!(!chain.tcr.registry_contains(1));
    assert!(chain.tcr.registry_contains(2));
}

#[test]
fn challenge_numbers_are_not_given_again() {
    let mut chain = new_chain();
    chain.propose(signed(1), 1, 101).unwrap();
    chain.challenge(signed(2), 1, 101).unwrap();
    assert_eq!(chain.tcr.next_challenge_id(), 1);
    chain.on_finalize(11);
    assert!(!chain.tcr.challenges.contains_key(&0));
    assert_eq!(chain.tcr.next_challenge_id(), 1);
    chain.propose(signed(1), 1, 101).unwrap();
    chain.challenge(signed(2), 1, 101).unwrap();
    assert_eq!(chain.tcr.listings(1).challenge_id, Some(1));
    assert_eq!(chain.tcr.next_challenge_id(), 2);
}

#[test]
fn a_promotion_lists_one_item_and_can_be_repeated() {
    let mut chain = new_chain();
    chain.propose(signed(1), 1, 101).unwrap();
    chain.propose(signed(2), 2, 102).unwrap();
    let mut effects = vec![];
    let mut listing = chain.tcr.listings(1);
    chain.tcr.promote_application(1, &mut listing, &mut effects);
    let promoted = ListingDetail {
        deposit: 101,
        owner: 1,
        application_expiry: None,
        in_registry: true,
        challenge_id: None,
    };
    assert_eq!(listing, promoted);
    assert_eq!(chain.tcr.listings(1), promoted);
    assert!(chain.tcr.registry_contains(1));
    assert!(!chain.tcr.registry_contains(2));
    chain.tcr.promote_application(1, &mut listing, &mut effects);
    assert_eq!(listing, promoted);
    assert_eq!(chain.tcr.listings(1), promoted);
    assert_eq!(chain.tcr.listings(2).application_expiry, Some(11));
    assert_eq!(effects, vec![Effect::Emit(Event::Accepted(1)), Effect::Emit(Event::Accepted(1))]);
}

#[test]
fn a_settlement_follows_the_votes() {
    for (nay, good) in [(10, true), (11, false)] {
        let mut chain = new_chain();
        chain.propose(signed(1), 1, 101).unwrap();
        chain.challenge(signed(2), 1, 102).unwrap();
        chain.vote(signed(3), 1, true, 12).unwrap();
        chain.vote(signed(4), 1, false, nay).unwrap();
        let mut effects = vec![];
        let mut listing = chain.tcr.listings(1);
        chain.tcr.settle_challenge(1, &mut listing, &mut effects);
        assert_eq!(chain.tcr.registry_contains(1), good);
        assert_eq!(chain.tcr.listings.contains_key(&1), good);
        assert!(!chain.tcr.challenges.contains_key(&0));
        assert_eq!(listing.in_registry, good);
        let expected = if good {
            assert_eq!(chain.tcr.listings(1), listing);
            vec![
                Effect::Emit(Event::Resolved(1, true)),
                Effect::Unreserve(2, 102),
                Effect::Slash(2, 102),
                Effect::Emit(Event::Accepted(1)),
                Effect::Unreserve(3, 12),
                Effect::Unreserve(4, 10),
                Effect::Slash(4, 10),
            ]
        } else {
            vec![
                Effect::Emit(Event::Resolved(1, false)),
                Effect::Unreserve(1, 101),
                Effect::Slash(1, 101),
                Effect::Unreserve(2, 102),
                Effect::Emit(Event::Rejected(1)),
                Effect::Unreserve(3, 12),
                Effect::Slash(3, 12),
                Effect::Unreserve(4, 11),
            ]
        };
        assert_eq!(effects, expected);
    }
}

#[test]
fn a_settlement_takes_the_lesser_total() {
    for (aye, nay, lost) in [(50, 20, 122), (20, 50, 121)] {
        let mut chain = new_chain();
        chain.propose(signed(1), 1, 101).unwrap();
        chain.challenge(signed(2), 1, 102).unwrap();
        chain.vote(signed(3), 1, true, aye).unwrap();
        chain.vote(signed(4), 1, false, nay).unwrap();
        chain.on_finalize(11);
        let mut all = 0;
        for who in 1..=4 {
            all += chain.balances.free_balance(who) + chain.balances.reserved_balance(who);
        }
        assert_eq!(all, 4_000_000 - lost);
    }
}

#[test]
fn an_open_challenge_is_resolved_once_by_the_votes_it_has_then() {
    for (last, good) in [(52, true), (51, false)] {
        let mut chain = new_chain();
        chain.propose(signed(1), 1, 100).unwrap();
        chain.propose(signed(1), 2, 100).unwrap();
        chain.set_block_number(2);
        chain.challenge(signed(2), 1, 101).unwrap();
        let mut outcomes = vec![];
        for block in 2..=30 {
            chain.set_block_number(block);
            match block {
                4 => chain.vote(signed(3), 1, false, 50).unwrap(),
                6 => chain.challenge(signed(3), 2, 100).unwrap(),
                12 => chain.vote(signed(4), 1, true, last).unwrap(),
                _ => {}
            }
            let before = chain.tcr.listings(1);
            let open = chain.tcr.challenges.contains_key(&0);
            assert_eq!(open, block <= 12);
            if open {
                assert_eq!((before.owner, before.deposit, before.challenge_id), (1, 100, Some(0)));
                assert_eq!(chain.tcr.challenges(0).voting_expiry, 12);
            }
            let already = chain.events.len();
            chain.on_finalize(block);
            for event in &chain.events[already..] {
                if let Event::Resolved(1, outcome) = event {
                    outcomes.push((block, *outcome));
                }
            }
        }
        assert_eq!(outcomes, vec![(12, good)]);
        assert_eq!(chain.tcr.registry_contains(1), good);
        assert_eq!(chain.tcr.listings.contains_key(&1), good);
        assert!(!chain.tcr.registry_contains(2));
    }
}

#[test]
fn what_was_deposited_is_held_or_released() {
    let mut chain = new_chain();
    let mut released = BTreeMap::new();
    chain.propose(signed(1), 1, 110).unwrap();
    chain.challenge(signed(2), 1, 120).unwrap();
    chain.vote(signed(3), 1, true, 30).unwrap();
    chain.vote(signed(2), 1, false, 5).unwrap();
    assert_eq!(chain.vote(signed(9), 1, true, 7), Err(DispatchError::VoterCannotAfford));
    chain.propose(signed(2), 2, 140).unwrap();
    for effect in chain.tcr.on_finalize(11) {
        if let Effect::Unreserve(who, amount) = effect {
            *released.entry(who).or_insert(0) += amount;
        }
    }
    // Of account 1 the deposit of listing 1 is still held, of account 2 that of listing 2.
    assert_eq!(released.get(&1), None);
    assert_eq!(chain.tcr.listings(1).deposit, 110);
    assert_eq!(released.get(&2), Some(&125));
    assert_eq!(chain.tcr.listings(2).deposit, 140);
    assert_eq!(released.get(&3), Some(&30));
    assert_eq!(released.get(&9), None);
}

#[test]
fn a_part_of_the_registry_tells_what_is_put_down() {
    let mut chain = new_chain();
    chain.propose(signed(1), 1, 100).unwrap();
    let env = chain.env();
    let mut part = Tcr::new();
    part.propose(&env, signed(2), 2, 100, true).unwrap();
    chain.propose(signed(2), 2, 100).unwrap();
    assert_eq!(part.challenge_expiry(11), vec![2]);
    assert_eq!(chain.tcr.challenge_expiry(11), vec![1, 2]);
    let mut part = Tcr::new();
    part.listings.insert(1, chain.tcr.listings(1));
    part.challenge(&env, signed(2), 1, 100, true).unwrap();
    chain.challenge(signed(2), 1, 100).unwrap();
    assert_eq!(part.challenge_expiry(11), vec![1]);
    assert_eq!(chain.tcr.challenge_expiry(11), vec![1, 2, 1]);
    assert_eq!(chain.tcr.listings(2).challenge_id, None);
}
