//! What the end of a block announces.
use vstd::prelude::*;

use crate::state::State;
use crate::types::{BlockNumberOf, Effect, EffectOf, Event, ListingIdOf, Trait, Vote};

verus! {

/// How often an effect occurs in a list.
pub open spec fn times<E>(effects: Seq<E>, effect: E) -> nat {
    crate::tallies::tally(effects, being(effect))
}

/// One for `effect`, nothing for any other.
pub open spec fn being<E>(effect: E) -> spec_fn(E) -> nat {
    |e: E| once(e == effect)
}

/// Once if the condition holds, never otherwise.
pub open spec fn once(condition: bool) -> nat {
    if condition {
        1
    } else {
        0
    }
}

impl<T: Trait> State<T> {
    /// The weight of what the update of a listing in block `now` brings about.
    pub open spec fn update_weight(
        self,
        now: BlockNumberOf<T>,
        id: ListingIdOf<T>,
        weight: spec_fn(EffectOf<T>) -> nat,
    ) -> nat {
        crate::tallies::tally(self.updating(now, id).1, weight)
    }

    /// [`State::update_weight`] as a function of the listing.
    pub open spec fn update_weights(
        self,
        now: BlockNumberOf<T>,
        weight: spec_fn(EffectOf<T>) -> nat,
    ) -> spec_fn(ListingIdOf<T>) -> nat {
        |id: ListingIdOf<T>| self.update_weight(now, id, weight)
    }
}

/// What a list of updates brings about is what the update of each listing that occurs in it
/// brings about, once.
pub(crate) proof fn lemma_updating_all_tally<T: Trait>(
    before: State<T>,
    now: BlockNumberOf<T>,
    ids: Seq<ListingIdOf<T>>,
    weight: spec_fn(EffectOf<T>) -> nat,
)
    requires
        before.linked(),
    ensures
        ids.to_set().finite(),
        crate::tallies::tally(before.updating_all(now, ids).1, weight) == crate::tallies::total(
            ids.to_set(),
            before.update_weights(now, weight),
        ),
    decreases ids.len(),
{
    if ids.len() == 0 {
        assert(ids.to_set() =~= Set::empty());
    } else {
        let front = ids.drop_last();
        let id = ids.last();
        lemma_updating_all_tally(before, now, front, weight);
        crate::finalization::lemma_updating_all(before, now, front);
        let (between, effects) = before.updating_all(now, front);
        crate::finalization::lemma_updated_once_more(before, now, front, between, id);
        let more = between.updating(now, id).1;
        crate::tallies::lemma_tally_concat(effects, more, weight);
        assert(ids =~= front.push(id));
        assert(ids.to_set() =~= front.to_set().insert(id)) by {
            assert forall|i: ListingIdOf<T>| #[trigger]
                ids.to_set().contains(i) == front.to_set().insert(id).contains(i) by {
                if front.contains(i) {
                    let j = choose|j: int| 0 <= j < front.len() && front[j] == i;
                    assert(ids[j] == i);
                }
                assert(ids[ids.len() - 1] == id);
            }
        }
        if front.contains(id) {
            assert(front.to_set().insert(id) =~= front.to_set());
        } else {
            crate::tallies::lemma_total_insert(
                front.to_set(),
                id,
                before.update_weights(now, weight),
            );
            assert(more == before.updating(now, id).1);
        }
    }
}

/// A sum with at most one summand that is not zero.
proof fn lemma_total_single<K>(keys: Set<K>, key: K, f: spec_fn(K) -> nat)
    requires
        keys.finite(),
        forall|k: K| #[trigger] keys.contains(k) && k != key ==> f(k) == 0,
    ensures
        crate::tallies::total(keys, f) == (if keys.contains(key) {
            f(key)
        } else {
            0
        }),
    decreases keys.len(),
{
    if keys.len() > 0 {
        let first = keys.choose();
        assert(keys.contains(first));
        lemma_total_single(keys.remove(first), key, f);
    } else {
        assert(keys =~= Set::empty());
    }
}

/// Votes announce nothing.
proof fn lemma_votes_are_silent<A, B, L>(
    votes: Seq<Vote<A, B>>,
    listing_is_good: bool,
    event: Event<A, B, L>,
)
    ensures
        times(
            crate::state::vote_effects::<A, B, L>(votes, listing_is_good),
            Effect::Emit(event),
        ) == 0,
    decreases votes.len(),
{
    if votes.len() > 0 {
        lemma_votes_are_silent(votes.drop_last(), listing_is_good, event);
        crate::tallies::lemma_vote_effects_step(
            votes,
            listing_is_good,
            being(Effect::Emit(event)),
        );
    }
}

/// At the end of a block, acceptance is announced for exactly the items that were not in the
/// registry before and are afterwards, rejection for exactly the listings that were known before
/// and are forgotten afterwards, and the outcome of exactly the challenges that expire in the
/// block; each of it once.
pub proof fn announcements_tell_what_happened<T: Trait>(
    s: State<T>,
    now: BlockNumberOf<T>,
    id: ListingIdOf<T>,
)
    requires
        s.well_formed(),
    ensures
        ({
            let (after, effects) = s.on_finalize(now);
            let passed = crate::state::passes(s.challenges[s.challenge_of(id)]);
            &&& times(effects, Effect::Emit(Event::Accepted(id))) == once(
                !s.registry_contains(id) && after.registry_contains(id),
            )
            &&& times(effects, Effect::Emit(Event::Rejected(id))) == once(
                s.listings.contains_key(id) && !after.listings.contains_key(id),
            )
            &&& times(effects, Effect::Emit(Event::Resolved(id, true))) == once(
                s.settled_at(now, id) && passed,
            )
            &&& times(effects, Effect::Emit(Event::Resolved(id, false))) == once(
                s.settled_at(now, id) && !passed,
            )
        }),
{
    let (after, effects) = s.on_finalize(now);
    let passed = crate::state::passes(s.challenges[s.challenge_of(id)]);
    crate::finalization::on_finalize_updates_what_expires(s, now);
    assert(after.known(id) == s.known_after(now, id));
    if s.listings.contains_key(id) {
        assert(s.listing_is_sound(id));
    }
    lemma_announced(s, now, id, Event::Accepted(id));
    lemma_announced(s, now, id, Event::Rejected(id));
    lemma_announced(s, now, id, Event::Resolved(id, true));
    lemma_announced(s, now, id, Event::Resolved(id, false));
}

/// The event is about the status of this listing.
pub open spec fn is_about<A, B, L>(event: Event<A, B, L>, id: L) -> bool {
    match event {
        Event::Accepted(i) => i == id,
        Event::Rejected(i) => i == id,
        Event::Resolved(i, _) => i == id,
        _ => false,
    }
}

/// How often the update of a listing announces an event about it.
spec fn announced<T: Trait>(
    s: State<T>,
    now: BlockNumberOf<T>,
    id: ListingIdOf<T>,
    event: Event<T::AccountId, T::Balance, T::ListingId>,
) -> nat {
    let passed = crate::state::passes(s.challenges[s.challenge_of(id)]);
    if s.promoted_at(now, id) {
        once(event is Accepted)
    } else if s.settled_at(now, id) {
        match event {
            Event::Accepted(_) => once(passed && !s.listings[id].in_registry),
            Event::Rejected(_) => once(!passed),
            Event::Resolved(_, good) => once(passed == good),
            _ => 0,
        }
    } else {
        0
    }
}

/// An event about a listing is announced by the update of that listing alone.
proof fn lemma_announced<T: Trait>(
    s: State<T>,
    now: BlockNumberOf<T>,
    id: ListingIdOf<T>,
    event: Event<T::AccountId, T::Balance, T::ListingId>,
)
    requires
        s.well_formed(),
        is_about(event, id),
    ensures
        times(s.on_finalize(now).1, Effect::Emit(event)) == announced(s, now, id, event),
{
    let start = crate::finalization::unscheduled(s, now);
    let ids = s.to_update(now);
    let weight = being(Effect::Emit(event));
    crate::finalization::lemma_unscheduled(s, now);
    crate::finalization::lemma_due_is_scheduled(s, now);
    lemma_updating_all_tally(start, now, ids, weight);
    assert forall|i: ListingIdOf<T>| #[trigger]
        start.update_weight(now, i, weight) == (if i == id {
            announced(s, now, id, event)
        } else {
            0
        }) by {
        if start.promoted_at(now, i) {
            let accepted: EffectOf<T> = Effect::Emit(Event::Accepted(i));
            assert(seq![accepted] =~= Seq::empty().push(accepted));
            crate::tallies::lemma_tally_push(Seq::empty(), accepted, weight);
        } else if start.settled_at(now, i) {
            assert(s.listing_is_sound(i));
            let challenge = s.challenges[s.challenge_of(i)];
            crate::tallies::lemma_settlement_tally::<T>(s.listings[i], challenge, weight);
            lemma_votes_are_silent(challenge.votes, crate::state::passes(challenge), event);
        }
    }
    let weights = start.update_weights(now, weight);
    assert forall|i: ListingIdOf<T>| #[trigger]
        ids.to_set().contains(i) && i != id implies weights(i) == 0 by {
        assert(start.update_weight(now, i, weight) == 0);
    }
    lemma_total_single(ids.to_set(), id, weights);
    assert(weights(id) == start.update_weight(now, id, weight));
}

} // verus!
