//! What users of the registry can rely on.
use vstd::prelude::*;

use crate::numbers::Quantity;
use crate::state::State;
use crate::types::{
    AccountIdOf, BalanceOf, BlockNumberOf, ChallengeId, DispatchError, Environment, EventOf,
    ListingIdOf, RawOrigin, Trait,
};

verus! {

/// A refused request changes nothing.
pub proof fn refused_requests_change_nothing<T: Trait>(
    s: State<T>,
    env: Environment<T>,
    origin: RawOrigin<AccountIdOf<T>>,
    id: ListingIdOf<T>,
    aye: bool,
    deposit: BalanceOf<T>,
    reserved: bool,
)
    ensures
        s.propose(env, origin, id, deposit, reserved).1 is Err ==> s.propose(
            env,
            origin,
            id,
            deposit,
            reserved,
        ).0 == s,
        s.challenge(env, origin, id, deposit, reserved).1 is Err ==> s.challenge(
            env,
            origin,
            id,
            deposit,
            reserved,
        ).0 == s,
        s.vote(origin, id, aye, deposit, reserved).1 is Err ==> s.vote(
            origin,
            id,
            aye,
            deposit,
            reserved,
        ).0 == s,
{
}

/// A request that nothing stands against is carried out if and only if its deposit was reserved,
/// and one that something stands against is refused for that, whether or not it was.
pub proof fn requests_need_their_deposit<T: Trait>(
    s: State<T>,
    env: Environment<T>,
    origin: RawOrigin<AccountIdOf<T>>,
    id: ListingIdOf<T>,
    aye: bool,
    deposit: BalanceOf<T>,
    reserved: bool,
)
    ensures
        match s.propose_refusal(env, origin, id, deposit) {
            Some(refusal) => s.propose(env, origin, id, deposit, reserved).1 == Err::<
                EventOf<T>,
                DispatchError,
            >(refusal),
            None => s.propose(env, origin, id, deposit, reserved).1 is Ok <==> reserved,
        },
        match s.challenge_refusal(env, origin, id, deposit) {
            Some(refusal) => s.challenge(env, origin, id, deposit, reserved).1 == Err::<
                EventOf<T>,
                DispatchError,
            >(refusal),
            None => s.challenge(env, origin, id, deposit, reserved).1 is Ok <==> reserved,
        },
        match s.vote_refusal(origin, id) {
            Some(refusal) => s.vote(origin, id, aye, deposit, reserved).1 == Err::<
                EventOf<T>,
                DispatchError,
            >(refusal),
            None => s.vote(origin, id, aye, deposit, reserved).1 is Ok <==> reserved,
        },
{
}

/// No request puts an item into the registry or takes one out: that happens at the end of a block
/// alone.
pub proof fn requests_leave_the_registry_alone<T: Trait>(
    s: State<T>,
    env: Environment<T>,
    origin: RawOrigin<AccountIdOf<T>>,
    id: ListingIdOf<T>,
    aye: bool,
    deposit: BalanceOf<T>,
    reserved: bool,
    item: ListingIdOf<T>,
)
    ensures
        s.propose(env, origin, id, deposit, reserved).0.registry_contains(item)
            == s.registry_contains(item),
        s.challenge(env, origin, id, deposit, reserved).0.registry_contains(item)
            == s.registry_contains(item),
        s.vote(origin, id, aye, deposit, reserved).0.registry_contains(item)
            == s.registry_contains(item),
{
}

/// An application that expires in block `now` without having been challenged is in the registry
/// afterwards, with its owner and its deposit.
pub proof fn unchallenged_applications_are_promoted<T: Trait>(
    s: State<T>,
    now: BlockNumberOf<T>,
    id: ListingIdOf<T>,
)
    requires
        s.well_formed(),
        s.listings.contains_key(id),
        s.listings[id].application_expiry == Some(now),
    ensures
        !s.registry_contains(id),
        s.on_finalize(now).0.registry_contains(id),
        s.on_finalize(now).0.listings[id].owner == s.listings[id].owner,
        s.on_finalize(now).0.listings[id].deposit == s.listings[id].deposit,
        s.on_finalize(now).0.listings[id].challenge_id is None,
        s.on_finalize(now).0.listings[id].application_expiry is None,
{
    crate::finalization::on_finalize_updates_what_expires(s, now);
    assert(s.listing_is_sound(id));
    assert(s.on_finalize(now).0.known(id) == s.known_after(now, id));
}

/// A challenged listing is not updated before the block in which the vote is counted, also where
/// it was put down for an earlier block as an application.
pub proof fn challenged_listings_wait_for_the_vote<T: Trait>(
    s: State<T>,
    now: BlockNumberOf<T>,
    id: ListingIdOf<T>,
)
    requires
        s.well_formed(),
        s.listings.contains_key(id),
        s.listings[id].challenge_id is Some,
        s.challenges[s.challenge_of(id)].voting_expiry != now,
    ensures
        s.on_finalize(now).0.known(id) == s.known(id),
        s.on_finalize(now).0.challenges.contains_key(s.challenge_of(id)),
        s.on_finalize(now).0.challenges[s.challenge_of(id)] == s.challenges[s.challenge_of(id)],
{
    crate::finalization::on_finalize_updates_what_expires(s, now);
    assert(s.listing_is_sound(id));
    assert(s.on_finalize(now).0.known(id) == s.known_after(now, id));
    assert(!s.counted_at(now, s.challenge_of(id)));
    assert(s.on_finalize(now).0.challenges.contains_key(s.challenge_of(id)));
}

/// A challenge is resolved in the block in which it expires: the item is in the registry
/// afterwards if more was staked for it than against it, and forgotten otherwise. Either way the
/// challenge is no longer open.
pub proof fn expired_challenges_are_resolved<T: Trait>(
    s: State<T>,
    now: BlockNumberOf<T>,
    id: ListingIdOf<T>,
)
    requires
        s.well_formed(),
        s.listings.contains_key(id),
        s.listings[id].challenge_id is Some,
        s.challenges[s.challenge_of(id)].voting_expiry == now,
    ensures
        ({
            let challenge = s.challenges[s.challenge_of(id)];
            let after = s.on_finalize(now).0;
            if challenge.total_aye.value() > challenge.total_nay.value() {
                after.registry_contains(id) && after.listings[id].challenge_id is None
                    && after.listings[id].owner == s.listings[id].owner
                    && after.listings[id].deposit == s.listings[id].deposit
            } else {
                !after.listings.contains_key(id)
            }
        }),
        !s.on_finalize(now).0.challenges.contains_key(s.challenge_of(id)),
{
    crate::finalization::on_finalize_updates_what_expires(s, now);
    assert(s.listing_is_sound(id));
    assert(s.on_finalize(now).0.known(id) == s.known_after(now, id));
    assert(s.counted_at(now, s.challenge_of(id)));
}

/// A listing that nothing is due for in block `now` stays as it is.
pub proof fn other_listings_stay<T: Trait>(
    s: State<T>,
    now: BlockNumberOf<T>,
    id: ListingIdOf<T>,
)
    requires
        s.well_formed(),
        s.listings.contains_key(id),
        s.listings[id].application_expiry != Some(now),
        s.listings[id].challenge_id is None,
    ensures
        s.on_finalize(now).0.known(id) == s.known(id),
{
    crate::finalization::on_finalize_updates_what_expires(s, now);
    assert(s.on_finalize(now).0.known(id) == s.known_after(now, id));
}

/// A new challenge gets a number that no open challenge has, and the next one gets the number after
/// it.
pub proof fn challenge_numbers_are_fresh<T: Trait>(
    s: State<T>,
    env: Environment<T>,
    origin: RawOrigin<AccountIdOf<T>>,
    id: ListingIdOf<T>,
    deposit: BalanceOf<T>,
)
    requires
        s.well_formed(),
        s.challenge_refusal(env, origin, id, deposit) is None,
        s.next_challenge_id < ChallengeId::MAX,
    ensures
        ({
            let after = s.challenge(env, origin, id, deposit, true).0;
            &&& !s.challenges.contains_key(s.next_challenge_id)
            &&& after.listings[id].challenge_id == Some(s.next_challenge_id)
            &&& after.next_challenge_id == s.next_challenge_id + 1
        }),
{
    if s.challenges.contains_key(s.next_challenge_id) {
        assert(s.challenge_is_sound(s.next_challenge_id));
    }
}

/// Nothing expires before block number `block`.
pub open spec fn nothing_overdue<T: Trait>(s: State<T>, block: nat) -> bool {
    &&& forall|id: ListingIdOf<T>| #[trigger]
        s.listings.contains_key(id) && s.listings[id].application_expiry is Some ==> (
        s.listings[id].application_expiry->0).value() >= block
    &&& forall|number: ChallengeId| #[trigger]
        s.challenges.contains_key(number) ==> s.challenges[number].voting_expiry.value() >= block
}

/// Requests in a block make nothing expire before that block.
pub proof fn requests_leave_nothing_overdue<T: Trait>(
    s: State<T>,
    env: Environment<T>,
    origin: RawOrigin<AccountIdOf<T>>,
    id: ListingIdOf<T>,
    aye: bool,
    deposit: BalanceOf<T>,
    reserved: bool,
)
    requires
        s.well_formed(),
        nothing_overdue(s, env.now.value()),
    ensures
        nothing_overdue(s.propose(env, origin, id, deposit, reserved).0, env.now.value()),
        nothing_overdue(s.challenge(env, origin, id, deposit, reserved).0, env.now.value()),
        nothing_overdue(s.vote(origin, id, aye, deposit, reserved).0, env.now.value()),
{
    if env.now.value() + env.apply_stage_len.value() <= BlockNumberOf::<T>::limit() {
        BlockNumberOf::<T>::lemma_of(env.now.value() + env.apply_stage_len.value());
    }
    if env.now.value() + env.commit_stage_len.value() <= BlockNumberOf::<T>::limit() {
        BlockNumberOf::<T>::lemma_of(env.now.value() + env.commit_stage_len.value());
    }
    let proposed = s.propose(env, origin, id, deposit, reserved).0;
    assert forall|i: ListingIdOf<T>| #[trigger]
        proposed.listings.contains_key(i) && proposed.listings[i].application_expiry is Some implies (
    proposed.listings[i].application_expiry->0).value() >= env.now.value() by {
        if i != id {
            assert(s.listings.contains_key(i));
        }
    }
    assert(nothing_overdue(proposed, env.now.value()));
    let challenged = s.challenge(env, origin, id, deposit, reserved).0;
    assert forall|i: ListingIdOf<T>| #[trigger]
        challenged.listings.contains_key(i) && challenged.listings[i].application_expiry is Some implies (
    challenged.listings[i].application_expiry->0).value() >= env.now.value() by {
        assert(s.listings.contains_key(i));
    }
    assert forall|n: ChallengeId| #[trigger]
        challenged.challenges.contains_key(n) implies challenged.challenges[n].voting_expiry.value()
        >= env.now.value() by {
        if n != s.next_challenge_id {
            assert(s.challenges.contains_key(n));
        }
    }
    assert(nothing_overdue(challenged, env.now.value()));
    let voted = s.vote(origin, id, aye, deposit, reserved).0;
    if reserved && s.vote_refusal(origin, id) is None {
        assert(s.listing_is_sound(id));
        assert forall|n: ChallengeId| #[trigger]
            voted.challenges.contains_key(n) implies voted.challenges[n].voting_expiry.value()
            >= env.now.value() by {
            assert(s.challenges.contains_key(n));
        }
        assert forall|i: ListingIdOf<T>| #[trigger]
            voted.listings.contains_key(i) && voted.listings[i].application_expiry is Some implies (
        voted.listings[i].application_expiry->0).value() >= env.now.value() by {
            assert(s.listings.contains_key(i));
        }
    }
    assert(nothing_overdue(voted, env.now.value()));
}

/// Where every block is finalized in its turn, no application and no challenge is ever missed:
/// after block `now` everything that is still pending expires in a later block.
pub proof fn finalized_blocks_leave_nothing_overdue<T: Trait>(s: State<T>, now: BlockNumberOf<T>)
    requires
        s.well_formed(),
        nothing_overdue(s, now.value()),
    ensures
        nothing_overdue(s.on_finalize(now).0, now.value() + 1),
{
    let after = s.on_finalize(now).0;
    crate::finalization::on_finalize_updates_what_expires(s, now);
    now.lemma_value();
    assert forall|id: ListingIdOf<T>| #[trigger]
        after.listings.contains_key(id) && after.listings[id].application_expiry is Some implies (
    after.listings[id].application_expiry->0).value() >= now.value() + 1 by {
        assert(after.known(id) == s.known_after(now, id));
        assert(s.listings.contains_key(id));
        assert(s.listing_is_sound(id));
        let expiry = after.listings[id].application_expiry->0;
        expiry.lemma_value();
    }
    assert forall|number: ChallengeId| #[trigger]
        after.challenges.contains_key(number) implies after.challenges[number].voting_expiry.value()
        >= now.value() + 1 by {
        assert(s.challenges.contains_key(number) && !s.counted_at(now, number));
        after.challenges[number].voting_expiry.lemma_value();
    }
}

} // verus!
