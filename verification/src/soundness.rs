//! What holds of the registry at all times, and that every request keeps it so.
use vstd::prelude::*;

use crate::numbers::Quantity;
use crate::state::State;
use crate::types::{
    AccountIdOf, BalanceOf, BlockNumberOf, ChallengeId, Environment, ListingIdOf, RawOrigin, Trait,
    Vote,
};

verus! {

/// What was staked on one side of a vote.
pub open spec fn staked<A, B: Quantity>(votes: Seq<Vote<A, B>>, aye: bool) -> nat
    decreases votes.len(),
{
    if votes.len() == 0 {
        0
    } else {
        let rest = staked(votes.drop_last(), aye);
        if votes.last().aye_or_nay == aye {
            rest + votes.last().deposit.value()
        } else {
            rest
        }
    }
}

impl<T: Trait> State<T> {
    /// `id` is put down for a status update in `block`.
    pub open spec fn scheduled(self, block: BlockNumberOf<T>, id: ListingIdOf<T>) -> bool {
        self.to_update(block).contains(id)
    }

    /// A listing is challenged, or it is an application, or it is in the registry. A challenged
    /// one is challenged by an open challenge of its own, and is no application any more.
    pub open spec fn listing_is_sound(self, id: ListingIdOf<T>) -> bool {
        let listing = self.listings[id];
        match listing.challenge_id {
            Some(number) => {
                &&& self.challenges.contains_key(number)
                &&& self.challenges[number].listing_id == id
                &&& listing.application_expiry is None
            },
            None => listing.in_registry == listing.application_expiry is None,
        }
    }

    /// An open challenge is the one challenge of a known listing, raised by somebody else than the
    /// owner, with no less at stake. Its totals are the two deposits and the votes.
    pub open spec fn challenge_is_sound(self, number: ChallengeId) -> bool {
        let challenge = self.challenges[number];
        let listing = self.listings[challenge.listing_id];
        &&& number < self.next_challenge_id
        &&& self.listings.contains_key(challenge.listing_id)
        &&& listing.challenge_id == Some(number)
        &&& listing.owner != challenge.owner
        &&& listing.deposit.value() <= challenge.deposit.value()
        &&& challenge.total_aye.value() == listing.deposit.value() + staked(challenge.votes, true)
        &&& challenge.total_nay.value() == challenge.deposit.value() + staked(
            challenge.votes,
            false,
        )
    }

    /// Listings and challenges belong together.
    pub open spec fn linked(self) -> bool {
        &&& self.listings.dom().finite()
        &&& self.challenges.dom().finite()
        &&& forall|id: ListingIdOf<T>| #[trigger]
            self.listings.contains_key(id) ==> self.listing_is_sound(id)
        &&& forall|number: ChallengeId| #[trigger]
            self.challenges.contains_key(number) ==> self.challenge_is_sound(number)
    }

    /// Every application and every open challenge is put down for the block in which it expires.
    pub open spec fn all_scheduled(self) -> bool {
        &&& forall|id: ListingIdOf<T>| #[trigger]
            self.listings.contains_key(id) && self.listings[id].application_expiry is Some
                ==> self.scheduled(self.listings[id].application_expiry->0, id)
        &&& forall|number: ChallengeId| #[trigger]
            self.challenges.contains_key(number) ==> self.scheduled(
                self.challenges[number].voting_expiry,
                self.challenges[number].listing_id,
            )
    }

    /// What holds of the registry at all times.
    pub open spec fn well_formed(self) -> bool {
        self.linked() && self.all_scheduled()
    }
}

/// Putting a listing down for an update leaves everything else that was put down in place.
proof fn lemma_scheduling<T: Trait>(s: State<T>, block: BlockNumberOf<T>, id: ListingIdOf<T>)
    ensures
        s.scheduling(block, id).scheduled(block, id),
        forall|b: BlockNumberOf<T>, i: ListingIdOf<T>| #[trigger]
            s.scheduled(b, i) ==> s.scheduling(block, id).scheduled(b, i),
{
    let after = s.scheduling(block, id);
    let ids = s.to_update(block);
    assert(after.to_update(block) == ids.push(id));
    assert(ids.push(id)[ids.len() as int] == id);
    assert forall|b: BlockNumberOf<T>, i: ListingIdOf<T>| #[trigger]
        s.scheduled(b, i) implies after.scheduled(b, i) by {
        if b == block {
            let j = choose|j: int| 0 <= j < ids.len() && ids[j] == i;
            assert(ids.push(id)[j] == i);
        }
    }
}

/// The registry starts well formed.
pub proof fn initial_is_well_formed<T: Trait>()
    ensures
        State::<T>::initial().well_formed(),
{
}

/// A proposal keeps the registry well formed, whatever its answer.
pub proof fn propose_keeps_well_formed<T: Trait>(
    s: State<T>,
    env: Environment<T>,
    origin: RawOrigin<AccountIdOf<T>>,
    id: ListingIdOf<T>,
    deposit: BalanceOf<T>,
    reserved: bool,
)
    requires
        s.well_formed(),
    ensures
        s.propose(env, origin, id, deposit, reserved).0.well_formed(),
{
    let after = s.propose(env, origin, id, deposit, reserved).0;
    if reserved && s.propose_refusal(env, origin, id, deposit) is None {
        let expiry = crate::numbers::later(env.now, env.apply_stage_len)->0;
        lemma_listing_stored(
            s,
            State { listings: after.listings, ..s },
            after,
            expiry,
            id,
        );
        assert forall|n: ChallengeId| #[trigger]
            after.challenges.contains_key(n) implies after.challenge_is_sound(n) by {
            assert(s.challenges.contains_key(n));
        }
    }
}

/// Where one listing is stored and put down for an update, all others stay put down as they were.
proof fn lemma_listing_stored<T: Trait>(
    before: State<T>,
    stored: State<T>,
    after: State<T>,
    block: BlockNumberOf<T>,
    id: ListingIdOf<T>,
)
    requires
        before.well_formed(),
        stored.listings_to_update == before.listings_to_update,
        after == stored.scheduling(block, id),
        forall|i: ListingIdOf<T>|
            i != id ==> (#[trigger] after.listings.contains_key(i) ==> before.listings.contains_key(i)
                && after.listings[i] == before.listings[i]),
    ensures
        after.scheduled(block, id),
        forall|b: BlockNumberOf<T>, i: ListingIdOf<T>| #[trigger]
            before.scheduled(b, i) ==> after.scheduled(b, i),
        forall|i: ListingIdOf<T>| #[trigger]
            after.listings.contains_key(i) && i != id && after.listings[i].application_expiry is Some
                ==> after.scheduled(after.listings[i].application_expiry->0, i),
{
    lemma_scheduling(stored, block, id);
    assert forall|b: BlockNumberOf<T>, i: ListingIdOf<T>| #[trigger]
        before.scheduled(b, i) implies after.scheduled(b, i) by {
        assert(stored.scheduled(b, i));
    }
    assert forall|i: ListingIdOf<T>| #[trigger]
        after.listings.contains_key(i) && i != id && after.listings[i].application_expiry is Some implies after.scheduled(
    after.listings[i].application_expiry->0, i) by {
        assert(before.scheduled(before.listings[i].application_expiry->0, i));
    }
}

/// A challenge keeps the registry well formed, whatever its answer.
pub proof fn challenge_keeps_well_formed<T: Trait>(
    s: State<T>,
    env: Environment<T>,
    origin: RawOrigin<AccountIdOf<T>>,
    id: ListingIdOf<T>,
    deposit: BalanceOf<T>,
    reserved: bool,
)
    requires
        s.well_formed(),
        reserved && s.challenge_refusal(env, origin, id, deposit) is None ==> s.next_challenge_id
            < ChallengeId::MAX,
    ensures
        s.challenge(env, origin, id, deposit, reserved).0.well_formed(),
{
    let after = s.challenge(env, origin, id, deposit, reserved).0;
    if reserved && s.challenge_refusal(env, origin, id, deposit) is None {
        let expiry = crate::numbers::later(env.now, env.commit_stage_len)->0;
        lemma_listing_stored(
            s,
            State {
                listings: after.listings,
                challenges: after.challenges,
                next_challenge_id: after.next_challenge_id,
                ..s
            },
            after,
            expiry,
            id,
        );
        assert(s.listing_is_sound(id));
        assert forall|i: ListingIdOf<T>| #[trigger]
            after.listings.contains_key(i) implies after.listing_is_sound(i) by {
            if i != id {
                assert(s.listing_is_sound(i));
            }
        }
        assert forall|n: ChallengeId| #[trigger]
            after.challenges.contains_key(n) implies after.challenge_is_sound(n) by {
            if n != s.next_challenge_id {
                assert(s.challenge_is_sound(n));
            }
        }
    }
}

/// A vote keeps the registry well formed, whatever its answer, as long as the total it adds to
/// can hold it.
pub proof fn vote_keeps_well_formed<T: Trait>(
    s: State<T>,
    origin: RawOrigin<AccountIdOf<T>>,
    id: ListingIdOf<T>,
    aye: bool,
    deposit: BalanceOf<T>,
    reserved: bool,
)
    requires
        s.well_formed(),
        reserved && s.vote_refusal(origin, id) is None ==> s.vote_total(id, aye).value()
            + deposit.value() <= BalanceOf::<T>::limit(),
    ensures
        s.vote(origin, id, aye, deposit, reserved).0.well_formed(),
{
    let after = s.vote(origin, id, aye, deposit, reserved).0;
    if reserved && s.vote_refusal(origin, id) is None {
        let number = s.listings[id].challenge_id->0;
        assert(s.listing_is_sound(id));
        assert(s.challenge_is_sound(number));
        let cast = Vote { voter: origin->Signed_0, aye_or_nay: aye, deposit };
        assert(s.challenges[number].votes.push(cast).drop_last() =~= s.challenges[number].votes);
        BalanceOf::<T>::lemma_of(s.vote_total(id, aye).value() + deposit.value());
        assert forall|i: ListingIdOf<T>| #[trigger]
            after.listings.contains_key(i) implies after.listing_is_sound(i) by {
            assert(s.listing_is_sound(i));
        }
        assert forall|n: ChallengeId| #[trigger]
            after.challenges.contains_key(n) implies after.challenge_is_sound(n) by {
            assert(s.challenge_is_sound(n));
        }
        assert forall|i: ListingIdOf<T>| #[trigger]
            after.listings.contains_key(i) && after.listings[i].application_expiry is Some implies after.scheduled(
        after.listings[i].application_expiry->0, i) by {
            assert(s.scheduled(s.listings[i].application_expiry->0, i));
        }
        assert forall|n: ChallengeId| #[trigger]
            after.challenges.contains_key(n) implies after.scheduled(
            after.challenges[n].voting_expiry,
            after.challenges[n].listing_id,
        ) by {
            assert(s.scheduled(s.challenges[n].voting_expiry, s.challenges[n].listing_id));
        }
    }
}

} // verus!
