//! What the promotion of one application and the settlement of one challenge do by themselves.
use vstd::prelude::*;

use crate::state::State;
use crate::types::{
    AccountIdOf, BalanceOf, BlockNumberOf, ChallengeId, Effect, Environment, ListingDetailOf,
    ListingIdOf, RawOrigin, Trait, Vote,
};

verus! {

/// A promotion adds the promoted item to the registry, drops none and adds no other.
pub proof fn promotion_lists_one_item<T: Trait>(
    s: State<T>,
    id: ListingIdOf<T>,
    listing: ListingDetailOf<T>,
    item: ListingIdOf<T>,
)
    ensures
        s.promoting(id, listing).registry_contains(item) == (item == id || s.registry_contains(
            item,
        )),
{
}

/// Promoting an item again, with its listing as the first promotion left it, changes nothing.
pub proof fn promoting_twice_is_promoting_once<T: Trait>(
    s: State<T>,
    id: ListingIdOf<T>,
    listing: ListingDetailOf<T>,
)
    ensures
        ({
            let promoted = s.promoting(id, listing);
            promoted.promoting(id, promoted.listings[id]) == promoted
        }),
{
    let promoted = s.promoting(id, listing);
    assert(promoted.promoting(id, promoted.listings[id]) =~= promoted);
}

/// The promotion of a listing as it is known keeps the registry well formed.
pub proof fn promotion_keeps_well_formed<T: Trait>(s: State<T>, id: ListingIdOf<T>)
    requires
        s.well_formed(),
        s.listings.contains_key(id),
    ensures
        s.promoting(id, s.listings[id]).well_formed(),
{
    let after = s.promoting(id, s.listings[id]);
    assert(after.listings.dom() =~= s.listings.dom());
    assert forall|i: ListingIdOf<T>| #[trigger]
        after.listings.contains_key(i) implies after.listing_is_sound(i) && (
    after.listings[i].application_expiry is Some ==> after.scheduled(
        after.listings[i].application_expiry->0,
        i,
    )) by {
        assert(s.listings.contains_key(i));
        assert(s.listing_is_sound(i));
        if after.listings[i].application_expiry is Some {
            assert(s.scheduled(s.listings[i].application_expiry->0, i));
        }
    }
    assert forall|n: ChallengeId| #[trigger]
        after.challenges.contains_key(n) implies after.challenge_is_sound(n) && after.scheduled(
        after.challenges[n].voting_expiry,
        after.challenges[n].listing_id,
    ) by {
        assert(s.challenge_is_sound(n));
        assert(s.scheduled(s.challenges[n].voting_expiry, s.challenges[n].listing_id));
    }
}

/// The settlement of the open challenge of a listing as it is known keeps the registry well
/// formed.
pub proof fn settlement_keeps_well_formed<T: Trait>(s: State<T>, id: ListingIdOf<T>)
    requires
        s.well_formed(),
        s.listings.contains_key(id),
        s.listings[id].challenge_id is Some,
    ensures
        s.settling(id, s.listings[id], s.challenge_of(id)).well_formed(),
{
    let number = s.challenge_of(id);
    let after = s.settling(id, s.listings[id], number);
    assert(s.listing_is_sound(id));
    assert(s.challenge_is_sound(number));
    assert(after.challenges.dom() =~= s.challenges.dom().remove(number));
    if crate::state::passes(s.challenges[number]) {
        assert(after.listings.dom() =~= s.listings.dom());
    } else {
        assert(after.listings.dom() =~= s.listings.dom().remove(id));
    }
    assert forall|i: ListingIdOf<T>| #[trigger]
        after.listings.contains_key(i) implies after.listing_is_sound(i) && (
    after.listings[i].application_expiry is Some ==> after.scheduled(
        after.listings[i].application_expiry->0,
        i,
    )) by {
        assert(s.listings.contains_key(i));
        assert(s.listing_is_sound(i));
        if after.listings[i].application_expiry is Some {
            assert(s.scheduled(s.listings[i].application_expiry->0, i));
        }
    }
    assert forall|n: ChallengeId| #[trigger]
        after.challenges.contains_key(n) implies after.challenge_is_sound(n) && after.scheduled(
        after.challenges[n].voting_expiry,
        after.challenges[n].listing_id,
    ) by {
        assert(s.challenges.contains_key(n));
        assert(s.challenge_is_sound(n));
        assert(s.scheduled(s.challenges[n].voting_expiry, s.challenges[n].listing_id));
    }
}

/// What becomes of one vote: its stake is released, and then taken if it was on the losing side.
pub open spec fn vote_effect<A, B, L>(vote: Vote<A, B>, listing_is_good: bool) -> Seq<
    Effect<A, B, L>,
> {
    let released = seq![Effect::Unreserve(vote.voter, vote.deposit)];
    if vote.aye_or_nay != listing_is_good {
        released.push(Effect::Slash(vote.voter, vote.deposit))
    } else {
        released
    }
}

/// The votes before one, that vote, and those after it are settled one after the other.
proof fn lemma_votes_around<A, B, L>(votes: Seq<Vote<A, B>>, listing_is_good: bool, i: int)
    requires
        0 <= i < votes.len(),
    ensures
        crate::state::vote_effects::<A, B, L>(votes, listing_is_good)
            == crate::state::vote_effects::<A, B, L>(votes.take(i), listing_is_good)
            + vote_effect::<A, B, L>(votes[i], listing_is_good) + crate::state::vote_effects::<
            A,
            B,
            L,
        >(votes.skip(i + 1), listing_is_good),
    decreases votes.len(),
{
    let front = votes.drop_last();
    if i == votes.len() - 1 {
        assert(votes.take(i) =~= front);
        assert(votes.skip(i + 1) =~= Seq::empty());
    } else {
        lemma_votes_around::<A, B, L>(front, listing_is_good, i);
        assert(front.take(i) =~= votes.take(i));
        assert(votes.skip(i + 1).drop_last() =~= front.skip(i + 1));
        assert(votes.skip(i + 1).last() == votes.last());
    }
}

/// When a challenge is settled, every vote in it is released, and it is then taken if and only if
/// it does not agree with the registry as the settlement leaves it: an aye where the item is not
/// in the registry, a nay where it is. The votes are settled in the order in which they were cast.
pub proof fn votes_are_settled_by_the_outcome<T: Trait>(s: State<T>, id: ListingIdOf<T>, i: int)
    requires
        s.listings.contains_key(id),
        s.listings[id].challenge_id is Some,
        s.challenges.contains_key(s.challenge_of(id)),
        s.challenges[s.challenge_of(id)].listing_id == id,
        0 <= i < s.challenges[s.challenge_of(id)].votes.len(),
    ensures
        ({
            let listing = s.listings[id];
            let challenge = s.challenges[s.challenge_of(id)];
            let listed = s.settling(id, listing, s.challenge_of(id)).registry_contains(id);
            State::<T>::settlement(listing, challenge) == State::<T>::verdict(listing, challenge)
                + crate::state::vote_effects(challenge.votes.take(i), listed) + vote_effect(
                challenge.votes[i],
                listed,
            ) + crate::state::vote_effects(challenge.votes.skip(i + 1), listed)
        }),
{
    let challenge = s.challenges[s.challenge_of(id)];
    lemma_votes_around::<AccountIdOf<T>, BalanceOf<T>, ListingIdOf<T>>(
        challenge.votes,
        crate::state::passes(challenge),
        i,
    );
}

/// An open challenge that nobody has voted on does not pass, because the challenger staked no less
/// than the owner: its settlement, and with it the end of the block in which it expires, removes
/// the listing.
pub proof fn challenges_without_votes_succeed<T: Trait>(s: State<T>, number: ChallengeId)
    requires
        s.well_formed(),
        s.challenges.contains_key(number),
        s.challenges[number].votes.len() == 0,
    ensures
        ({
            let challenge = s.challenges[number];
            let id = challenge.listing_id;
            let settled = s.settling(id, s.listings[id], number);
            let finalized = s.on_finalize(challenge.voting_expiry).0;
            &&& !crate::state::passes(challenge)
            &&& !settled.listings.contains_key(id) && !settled.registry_contains(id)
            &&& !finalized.listings.contains_key(id) && !finalized.registry_contains(id)
        }),
{
    let challenge = s.challenges[number];
    assert(s.challenge_is_sound(number));
    crate::laws::expired_challenges_are_resolved(s, challenge.voting_expiry, challenge.listing_id);
}

impl<T: Trait> State<T> {
    /// A listing whose application is still running is neither in the registry nor challenged.
    pub open spec fn applications_are_undecided(self) -> bool {
        forall|id: ListingIdOf<T>| #[trigger]
            self.listings.contains_key(id) && self.listings[id].application_expiry is Some
                ==> !self.listings[id].in_registry && self.listings[id].challenge_id is None
    }
}

/// In a well-formed registry a running application is neither in the registry nor challenged.
pub proof fn running_applications_are_undecided<T: Trait>(s: State<T>)
    requires
        s.well_formed(),
    ensures
        s.applications_are_undecided(),
{
    assert forall|id: ListingIdOf<T>| #[trigger]
        s.listings.contains_key(id) && s.listings[id].application_expiry is Some implies !s.listings[id].in_registry
        && s.listings[id].challenge_id is None by {
        assert(s.listing_is_sound(id));
    }
}

/// The promotion of any listing, and the settlement of a challenge on a listing as it is known,
/// leave every running application neither in the registry nor challenged.
pub proof fn updates_leave_applications_undecided<T: Trait>(
    s: State<T>,
    id: ListingIdOf<T>,
    listing: ListingDetailOf<T>,
)
    requires
        s.applications_are_undecided(),
    ensures
        s.promoting(id, listing).applications_are_undecided(),
        s.promoting(id, listing).listings[id].application_expiry is None,
        s.listings.contains_key(id) && s.listings[id].challenge_id is Some ==> s.settling(
            id,
            s.listings[id],
            s.challenge_of(id),
        ).applications_are_undecided(),
{
    let promoted = s.promoting(id, listing);
    assert forall|i: ListingIdOf<T>| #[trigger]
        promoted.listings.contains_key(i) && promoted.listings[i].application_expiry is Some implies !promoted.listings[i].in_registry
        && promoted.listings[i].challenge_id is None by {
        assert(s.listings.contains_key(i));
    }
    let settled = s.settling(id, s.listings[id], s.challenge_of(id));
    if s.listings.contains_key(id) && s.listings[id].challenge_id is Some {
        assert forall|i: ListingIdOf<T>| #[trigger]
            settled.listings.contains_key(i) && settled.listings[i].application_expiry is Some implies !settled.listings[i].in_registry
            && settled.listings[i].challenge_id is None by {
            assert(s.listings.contains_key(i));
        }
    }
}

/// No request brings a running application into the registry or leaves it challenged.
pub proof fn requests_leave_applications_undecided<T: Trait>(
    s: State<T>,
    env: Environment<T>,
    origin: RawOrigin<AccountIdOf<T>>,
    id: ListingIdOf<T>,
    aye: bool,
    deposit: BalanceOf<T>,
    reserved: bool,
)
    requires
        s.applications_are_undecided(),
    ensures
        s.propose(env, origin, id, deposit, reserved).0.applications_are_undecided(),
        s.challenge(env, origin, id, deposit, reserved).0.applications_are_undecided(),
        s.vote(origin, id, aye, deposit, reserved).0.applications_are_undecided(),
{
    let proposed = s.propose(env, origin, id, deposit, reserved).0;
    assert forall|i: ListingIdOf<T>| #[trigger]
        proposed.listings.contains_key(i) && proposed.listings[i].application_expiry is Some implies !proposed.listings[i].in_registry
        && proposed.listings[i].challenge_id is None by {
        if i != id {
            assert(s.listings.contains_key(i));
        }
    }
    let challenged = s.challenge(env, origin, id, deposit, reserved).0;
    assert forall|i: ListingIdOf<T>| #[trigger]
        challenged.listings.contains_key(i) && challenged.listings[i].application_expiry is Some implies !challenged.listings[i].in_registry
        && challenged.listings[i].challenge_id is None by {
        assert(s.listings.contains_key(i));
    }
    let voted = s.vote(origin, id, aye, deposit, reserved).0;
    assert(voted.listings == s.listings);
}

proof fn lemma_updating_all_leaves_undecided<T: Trait>(
    s: State<T>,
    now: BlockNumberOf<T>,
    ids: Seq<ListingIdOf<T>>,
)
    requires
        s.applications_are_undecided(),
    ensures
        s.updating_all(now, ids).0.applications_are_undecided(),
    decreases ids.len(),
{
    if ids.len() > 0 {
        lemma_updating_all_leaves_undecided(s, now, ids.drop_last());
        let between = s.updating_all(now, ids.drop_last()).0;
        updates_leave_applications_undecided(between, ids.last(), between.listings[ids.last()]);
    }
}

/// The end of a block leaves every running application neither in the registry nor challenged.
pub proof fn on_finalize_leaves_applications_undecided<T: Trait>(
    s: State<T>,
    now: BlockNumberOf<T>,
)
    requires
        s.applications_are_undecided(),
    ensures
        s.on_finalize(now).0.applications_are_undecided(),
{
    let start = crate::finalization::unscheduled(s, now);
    assert(start.applications_are_undecided());
    lemma_updating_all_leaves_undecided(start, now, s.to_update(now));
}

} // verus!
