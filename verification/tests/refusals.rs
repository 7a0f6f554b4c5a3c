use tcr::{
    ensure_signed, Amount, ChallengeId, DispatchError, Environment, Event, Height, Identity,
    ListingDetail, Module, Quantity, RawOrigin, StorageMap, Trait,
};

/// A registry whose accounts are no numbers, and whose block numbers are small.
struct Small;

#[derive(Debug, PartialEq)]
struct Name([u8; 4]);

impl Identity for Name {
    fn blank() -> Name {
        Name([0; 4])
    }

    fn blank_value() -> Name {
        Name([0; 4])
    }

    fn same(&self, other: &Name) -> bool {
        self.0 == other.0
    }

    fn duplicate(&self) -> Name {
        Name(self.0)
    }
}

impl Trait for Small {
    type AccountId = Name;
    type BlockNumber = u32;
    type Balance = u128;
    type ListingId = u64;

    fn min_deposit() -> u128 {
        3
    }

    fn apply_stage_len() -> u32 {
        20
    }

    fn commit_stage_len() -> u32 {
        30
    }
}

const ALICE: [u8; 4] = *b"alic";
const BOB: [u8; 4] = *b"bob ";

fn signed(name: [u8; 4]) -> RawOrigin<Name> {
    RawOrigin::Signed(Name(name))
}

fn proposed() -> Module<Small> {
    let mut tcr: Module<Small> = Module::new();
    let env = Environment::at(5);
    assert_eq!(
        tcr.propose(&env, signed(ALICE), 7, 10, true),
        Ok(Event::Proposed(Name(ALICE), 7, 10))
    );
    tcr
}

fn challenged() -> Module<Small> {
    let mut tcr = proposed();
    let env = Environment::at(6);
    assert_eq!(
        tcr.challenge(&env, signed(BOB), 7, 10, true),
        Ok(Event::Challenged(Name(BOB), 7, 0, 10))
    );
    tcr
}

#[test]
fn the_environment_holds_the_parameters() {
    let env: Environment<Small> = Environment::at(5);
    assert_eq!(env.now, 5);
    assert_eq!(env.min_deposit, 3);
    assert_eq!(env.apply_stage_len, 20);
    assert_eq!(env.commit_stage_len, 30);
}

#[test]
fn only_signed_requests_are_taken() {
    let mut tcr = challenged();
    let env = Environment::at(6);
    assert_eq!(
        tcr.propose(&env, RawOrigin::Root, 8, 10, true),
        Err(DispatchError::BadOrigin)
    );
    assert_eq!(
        tcr.challenge(&env, RawOrigin::Unsigned, 7, 10, true),
        Err(DispatchError::BadOrigin)
    );
    assert_eq!(tcr.vote(RawOrigin::Root, 7, true, 10, true), Err(DispatchError::BadOrigin));
    assert_eq!(ensure_signed(RawOrigin::Signed(4u64)), Ok(4));
    assert_eq!(ensure_signed(RawOrigin::<u64>::Unsigned), Err(DispatchError::BadOrigin));
    assert_eq!(DispatchError::BadOrigin.message(), "Bad origin");
}

#[test]
fn a_known_listing_cannot_be_proposed() {
    let mut tcr = proposed();
    let before = tcr.listings(7);
    let refusal = tcr.propose(&Environment::at(6), signed(BOB), 7, 50, true).unwrap_err();
    assert_eq!(refusal, DispatchError::ListingAlreadyExists);
    assert_eq!(refusal.message(), "Listing already exists");
    assert_eq!(tcr.listings(7), before);
}

#[test]
fn the_application_has_to_expire_in_some_block() {
    let mut tcr: Module<Small> = Module::new();
    let late = Environment::at(u32::MAX - 19);
    let refusal = tcr.propose(&late, signed(ALICE), 7, 10, true).unwrap_err();
    assert_eq!(refusal, DispatchError::ApplicationExpiryOverflow);
    assert_eq!(refusal.message(), "Overflow when setting application expiry.");
    let last = Environment::at(u32::MAX - 20);
    assert!(tcr.propose(&last, signed(ALICE), 7, 10, true).is_ok());
    assert_eq!(tcr.listings(7).application_expiry, Some(u32::MAX));
}

#[test]
fn a_proposer_has_to_afford_the_deposit() {
    let mut tcr: Module<Small> = Module::new();
    let refusal = tcr.propose(&Environment::at(5), signed(ALICE), 7, 10, false).unwrap_err();
    assert_eq!(refusal, DispatchError::ProposerCannotAfford);
    assert_eq!(refusal.message(), "Proposer can't afford deposit");
    assert_eq!(tcr.listings(7), ListingDetail::default());
    assert_eq!(tcr.challenge_expiry(25), vec![]);
}

#[test]
fn only_known_listings_can_be_challenged() {
    let mut tcr = proposed();
    let refusal = tcr.challenge(&Environment::at(6), signed(BOB), 8, 50, true).unwrap_err();
    assert_eq!(refusal, DispatchError::ListingNotFound);
    assert_eq!(refusal.message(), "Listing not found.");
}

#[test]
fn a_listing_has_one_challenge_at_a_time() {
    let mut tcr = challenged();
    let refusal = tcr.challenge(&Environment::at(6), signed(*b"carl"), 7, 50, true).unwrap_err();
    assert_eq!(refusal, DispatchError::AlreadyChallenged);
    assert_eq!(refusal.message(), "Listing is already challenged.");
    assert_eq!(tcr.next_challenge_id(), 1);
}

#[test]
fn a_challenge_needs_the_deposit_of_the_listing() {
    let mut tcr = proposed();
    let refusal = tcr.challenge(&Environment::at(6), signed(BOB), 7, 9, true).unwrap_err();
    assert_eq!(refusal, DispatchError::DepositBelowListing);
    assert_eq!(refusal.message(), "Not enough deposit to challenge.");
}

#[test]
fn the_voting_has_to_end_in_some_block() {
    let mut tcr = proposed();
    let late = Environment::at(u32::MAX - 29);
    let refusal = tcr.challenge(&late, signed(BOB), 7, 10, true).unwrap_err();
    assert_eq!(refusal, DispatchError::VotingExpiryOverflow);
    assert_eq!(refusal.message(), "Overflow when setting voting expiry.");
    assert!(tcr.challenge(&Environment::at(u32::MAX - 30), signed(BOB), 7, 10, true).is_ok());
    assert_eq!(tcr.challenges(0).voting_expiry, u32::MAX);
}

#[test]
fn a_challenger_has_to_afford_the_deposit() {
    let mut tcr = proposed();
    let before = tcr.listings(7);
    let refusal = tcr.challenge(&Environment::at(6), signed(BOB), 7, 10, false).unwrap_err();
    assert_eq!(refusal, DispatchError::ChallengerCannotAfford);
    assert_eq!(refusal.message(), "Challenger can't afford the deposit");
    assert_eq!(tcr.listings(7), before);
    assert_eq!(tcr.next_challenge_id(), 0);
}

#[test]
fn only_known_listings_can_be_voted_on() {
    let mut tcr = challenged();
    let refusal = tcr.vote(signed(ALICE), 8, true, 1, true).unwrap_err();
    assert_eq!(refusal, DispatchError::ListingDoesNotExist);
    assert_eq!(refusal.message(), "Listing does not exist.");
}

#[test]
fn only_challenged_listings_can_be_voted_on() {
    let mut tcr = proposed();
    let refusal = tcr.vote(signed(BOB), 7, true, 1, true).unwrap_err();
    assert_eq!(refusal, DispatchError::NotChallenged);
    assert_eq!(refusal.message(), "Listing is not challenged.");
}

#[test]
fn a_voter_has_to_afford_the_deposit() {
    let mut tcr = challenged();
    let refusal = tcr.vote(signed(ALICE), 7, true, 1, false).unwrap_err();
    assert_eq!(refusal, DispatchError::VoterCannotAfford);
    assert_eq!(refusal.message(), "Voter can't afford the deposit");
    assert_eq!(tcr.challenges(0).total_aye, 10);
    assert_eq!(tcr.challenges(0).votes, vec![]);
}

#[test]
fn early_refusals_do_not_depend_on_the_reservation() {
    let mut tcr: Module<Small> = Module::new();
    let env = Environment::at(5);
    assert_eq!(
        tcr.propose(&env, signed(ALICE), 7, 2, false),
        Err(DispatchError::DepositBelowMinimum)
    );
    assert_eq!(
        tcr.propose(&env, signed(ALICE), 7, 2, true),
        Err(DispatchError::DepositBelowMinimum)
    );
}

#[test]
fn block_numbers_are_added_up() {
    assert_eq!(5u32.later(&20), Some(25));
    assert_eq!(u32::MAX.later(&1), None);
    assert_eq!(5u64.later(&20), Some(25));
    assert_eq!(u64::MAX.later(&0), Some(u64::MAX));
    assert_eq!(u64::MAX.later(&1), None);
}

#[test]
fn amounts_are_compared_and_added_up() {
    assert_eq!(Amount::plus(&7u128, &8), 15);
    assert_eq!(Amount::plus(&7u64, &8), 15);
    assert_eq!(Amount::plus(&7u32, &8), 15);
    assert!(7u64.at_least(&7));
    assert!(!7u64.at_least(&8));
}

fn is_blank<Q: Quantity>(q: Q) -> bool {
    q.same(&Q::blank_value())
}

#[test]
fn blank_quantities_are_zero() {
    assert!(is_blank(0u32));
    assert!(is_blank(0u64));
    assert!(is_blank(0u128));
    assert!(!is_blank(1u128));
}

#[test]
fn a_map_gives_back_what_was_stored_last() {
    let mut map: StorageMap<ChallengeId, u8> = StorageMap::new();
    assert_eq!(map.get(&1), None);
    map.insert(1, 10);
    map.insert(2, 20);
    map.insert(1, 11);
    assert_eq!(map.get(&1), Some(&11));
    assert_eq!(map.get(&2), Some(&20));
    assert!(map.contains_key(&2));
    assert_eq!(map.take(&1), Some(11));
    assert_eq!(map.take(&1), None);
    assert!(!map.contains_key(&1));
    assert_eq!(map.get(&2), Some(&20));
}
