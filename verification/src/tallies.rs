//! Sums over lists of effects, lists of votes and finite sets of keys.
use vstd::prelude::*;

use crate::state::State;
use crate::types::{ChallengeViewOf, Effect, EffectOf, Event, ListingDetailOf, Trait, Vote};

verus! {

/// The sum of the weights of all effects in a list.
pub open spec fn tally<E>(effects: Seq<E>, weight: spec_fn(E) -> nat) -> nat
    decreases effects.len(),
{
    if effects.len() == 0 {
        0
    } else {
        tally(effects.drop_last(), weight) + weight(effects.last())
    }
}

pub(crate) proof fn lemma_tally_push<E>(effects: Seq<E>, effect: E, weight: spec_fn(E) -> nat)
    ensures
        tally(effects.push(effect), weight) == tally(effects, weight) + weight(effect),
{
    assert(effects.push(effect).drop_last() =~= effects);
}

pub(crate) proof fn lemma_tally_concat<E>(a: Seq<E>, b: Seq<E>, weight: spec_fn(E) -> nat)
    ensures
        tally(a + b, weight) == tally(a, weight) + tally(b, weight),
    decreases b.len(),
{
    if b.len() == 0 {
        assert(a + b =~= a);
    } else {
        lemma_tally_concat(a, b.drop_last(), weight);
        assert((a + b).drop_last() =~= a + b.drop_last());
        assert((a + b).last() == b.last());
    }
}

/// The sum of `f` over a finite set of keys.
pub open spec fn total<K>(keys: Set<K>, f: spec_fn(K) -> nat) -> nat
    decreases keys.len(),
    when keys.finite()
{
    if keys.len() == 0 {
        0
    } else {
        let key = keys.choose();
        f(key) + total(keys.remove(key), f)
    }
}

pub(crate) proof fn lemma_total_remove<K>(keys: Set<K>, key: K, f: spec_fn(K) -> nat)
    requires
        keys.finite(),
        keys.contains(key),
    ensures
        total(keys, f) == f(key) + total(keys.remove(key), f),
    decreases keys.len(),
{
    let first = keys.choose();
    assert(keys.contains(first));
    if first != key {
        lemma_total_remove(keys.remove(first), key, f);
        lemma_total_remove(keys.remove(key), first, f);
        assert(keys.remove(first).remove(key) =~= keys.remove(key).remove(first));
    }
}

pub(crate) proof fn lemma_total_insert<K>(keys: Set<K>, key: K, f: spec_fn(K) -> nat)
    requires
        keys.finite(),
        !keys.contains(key),
    ensures
        total(keys.insert(key), f) == f(key) + total(keys, f),
{
    lemma_total_remove(keys.insert(key), key, f);
    assert(keys.insert(key).remove(key) =~= keys);
}

pub(crate) proof fn lemma_total_same<K>(keys: Set<K>, f: spec_fn(K) -> nat, g: spec_fn(K) -> nat)
    requires
        keys.finite(),
        forall|key: K| #[trigger] keys.contains(key) ==> f(key) == g(key),
    ensures
        total(keys, f) == total(keys, g),
    decreases keys.len(),
{
    if keys.len() > 0 {
        let key = keys.choose();
        assert(keys.contains(key));
        assert forall|k: K| #[trigger] keys.remove(key).contains(k) implies f(k) == g(k) by {
            assert(keys.contains(k));
        }
        lemma_total_same(keys.remove(key), f, g);
    }
}

pub(crate) proof fn lemma_total_at_most<K>(keys: Set<K>, f: spec_fn(K) -> nat, g: spec_fn(K) -> nat)
    requires
        keys.finite(),
        forall|key: K| #[trigger] keys.contains(key) ==> f(key) <= g(key),
    ensures
        total(keys, f) <= total(keys, g),
    decreases keys.len(),
{
    if keys.len() > 0 {
        let key = keys.choose();
        assert(keys.contains(key));
        assert forall|k: K| #[trigger] keys.remove(key).contains(k) implies f(k) <= g(k) by {
            assert(keys.contains(k));
        }
        lemma_total_at_most(keys.remove(key), f, g);
    }
}

/// Keys at which `f` is zero do not count.
pub(crate) proof fn lemma_total_support<K>(some: Set<K>, all: Set<K>, f: spec_fn(K) -> nat)
    requires
        all.finite(),
        some.subset_of(all),
        forall|key: K| #[trigger] all.contains(key) && !some.contains(key) ==> f(key) == 0,
    ensures
        some.finite(),
        total(some, f) == total(all, f),
    decreases all.len(),
{
    if all.len() == 0 {
        assert(all =~= Set::empty());
        assert(some =~= all);
    } else {
        let key = all.choose();
        assert(all.contains(key));
        lemma_total_support(some.remove(key), all.remove(key), f);
        if some.contains(key) {
            assert(some =~= some.remove(key).insert(key));
            lemma_total_remove(some, key, f);
        } else {
            assert(some =~= some.remove(key));
        }
    }
}

/// The weights of what the votes of a resolved challenge release and take.
pub open spec fn vote_weight<A, B, L>(
    vote: Vote<A, B>,
    listing_is_good: bool,
    weight: spec_fn(Effect<A, B, L>) -> nat,
) -> nat {
    weight(Effect::Unreserve(vote.voter, vote.deposit)) + if vote.aye_or_nay != listing_is_good {
        weight(Effect::Slash(vote.voter, vote.deposit))
    } else {
        0
    }
}

pub(crate) proof fn lemma_vote_effects_step<A, B, L>(
    votes: Seq<Vote<A, B>>,
    listing_is_good: bool,
    weight: spec_fn(Effect<A, B, L>) -> nat,
)
    requires
        votes.len() > 0,
    ensures
        tally(crate::state::vote_effects(votes, listing_is_good), weight) == tally(
            crate::state::vote_effects(votes.drop_last(), listing_is_good),
            weight,
        ) + vote_weight(votes.last(), listing_is_good, weight),
{
    let vote = votes.last();
    let front = crate::state::vote_effects::<A, B, L>(votes.drop_last(), listing_is_good);
    lemma_tally_push(front, Effect::Unreserve(vote.voter, vote.deposit), weight);
    lemma_tally_push(
        front.push(Effect::Unreserve(vote.voter, vote.deposit)),
        Effect::Slash(vote.voter, vote.deposit),
        weight,
    );
}

/// The weights of what the resolution of a challenge announces, releases and takes apart from the
/// votes.
pub open spec fn verdict_weight<T: Trait>(
    listing: ListingDetailOf<T>,
    challenge: ChallengeViewOf<T>,
    weight: spec_fn(EffectOf<T>) -> nat,
) -> nat {
    let id = challenge.listing_id;
    if crate::state::passes(challenge) {
        weight(Effect::Emit(Event::Resolved(id, true))) + weight(
            Effect::Unreserve(challenge.owner, challenge.deposit),
        ) + weight(Effect::Slash(challenge.owner, challenge.deposit)) + if listing.in_registry {
            0
        } else {
            weight(Effect::Emit(Event::Accepted(id)))
        }
    } else {
        weight(Effect::Emit(Event::Resolved(id, false))) + weight(
            Effect::Unreserve(listing.owner, listing.deposit),
        ) + weight(Effect::Slash(listing.owner, listing.deposit)) + weight(
            Effect::Unreserve(challenge.owner, challenge.deposit),
        ) + weight(Effect::Emit(Event::Rejected(id)))
    }
}

pub(crate) proof fn lemma_settlement_tally<T: Trait>(
    listing: ListingDetailOf<T>,
    challenge: ChallengeViewOf<T>,
    weight: spec_fn(EffectOf<T>) -> nat,
)
    ensures
        tally(State::<T>::settlement(listing, challenge), weight) == verdict_weight::<T>(
            listing,
            challenge,
            weight,
        ) + tally(
            crate::state::vote_effects(challenge.votes, crate::state::passes(challenge)),
            weight,
        ),
{
    let id = challenge.listing_id;
    let votes = crate::state::vote_effects(challenge.votes, crate::state::passes(challenge));
    let none = Seq::<EffectOf<T>>::empty();
    if crate::state::passes(challenge) {
        let e1 = none.push(Effect::Emit(Event::Resolved(id, true)));
        let e2 = e1.push(Effect::Unreserve(challenge.owner, challenge.deposit));
        let e3 = e2.push(Effect::Slash(challenge.owner, challenge.deposit));
        let e4 = e3.push(Effect::Emit(Event::Accepted(id)));
        lemma_tally_push(none, e1.last(), weight);
        lemma_tally_push(e1, e2.last(), weight);
        lemma_tally_push(e2, e3.last(), weight);
        lemma_tally_push(e3, e4.last(), weight);
        lemma_tally_concat(e3, votes, weight);
        lemma_tally_concat(e4, votes, weight);
        if listing.in_registry {
            assert(State::<T>::settlement(listing, challenge) =~= e3 + votes);
        } else {
            assert(State::<T>::settlement(listing, challenge) =~= e4 + votes);
        }
    } else {
        let e1 = none.push(Effect::Emit(Event::Resolved(id, false)));
        let e2 = e1.push(Effect::Unreserve(listing.owner, listing.deposit));
        let e3 = e2.push(Effect::Slash(listing.owner, listing.deposit));
        let e4 = e3.push(Effect::Unreserve(challenge.owner, challenge.deposit));
        let e5 = e4.push(Effect::Emit(Event::Rejected(id)));
        lemma_tally_push(none, e1.last(), weight);
        lemma_tally_push(e1, e2.last(), weight);
        lemma_tally_push(e2, e3.last(), weight);
        lemma_tally_push(e3, e4.last(), weight);
        lemma_tally_push(e4, e5.last(), weight);
        lemma_tally_concat(e5, votes, weight);
        assert(State::<T>::settlement(listing, challenge) =~= e5 + votes);
    }
}

} // verus!
