//! What the end of a block does to each listing and each challenge, told without the order in
//! which they are updated.
use vstd::prelude::*;

use crate::state::State;
use crate::types::{
    BlockNumberOf, ChallengeId, EffectOf, ListingDetail, ListingDetailOf, ListingIdOf, Trait,
};

verus! {

impl<T: Trait> State<T> {
    /// What is known of a listing.
    pub open spec fn known(self, id: ListingIdOf<T>) -> Option<ListingDetailOf<T>> {
        if self.listings.contains_key(id) {
            Some(self.listings[id])
        } else {
            None
        }
    }

    /// The challenge that is open on a listing.
    pub open spec fn challenge_of(self, id: ListingIdOf<T>) -> ChallengeId {
        self.listings[id].challenge_id->0
    }

    /// What the end of block `now` makes of a listing. An unchallenged application that expires
    /// then enters the registry. A listing whose challenge expires then is in the registry
    /// afterwards if it passed the challenge, and forgotten if it did not. Any other listing stays
    /// as it is.
    pub open spec fn known_after(self, now: BlockNumberOf<T>, id: ListingIdOf<T>) -> Option<
        ListingDetailOf<T>,
    > {
        if self.promoted_at(now, id) {
            Some(
                ListingDetail {
                    application_expiry: None,
                    in_registry: true,
                    ..self.listings[id]
                },
            )
        } else if self.settled_at(now, id) {
            if crate::state::passes(self.challenges[self.challenge_of(id)]) {
                Some(
                    ListingDetail {
                        in_registry: true,
                        challenge_id: None,
                        ..self.listings[id]
                    },
                )
            } else {
                None
            }
        } else {
            self.known(id)
        }
    }

    /// The challenge with this number is open and its vote is counted in block `now`.
    pub open spec fn counted_at(self, now: BlockNumberOf<T>, number: ChallengeId) -> bool {
        self.challenges.contains_key(number) && self.challenges[number].voting_expiry == now
    }
}

/// What the updates of `ids` have made of `before`: exactly the listings among `ids` are updated,
/// and their challenges resolved.
pub open spec fn updated<T: Trait>(
    before: State<T>,
    now: BlockNumberOf<T>,
    ids: Seq<ListingIdOf<T>>,
    after: State<T>,
) -> bool {
    &&& forall|id: ListingIdOf<T>| #[trigger]
        after.known(id) == (if ids.contains(id) {
            before.known_after(now, id)
        } else {
            before.known(id)
        })
    &&& forall|number: ChallengeId| #[trigger]
        after.challenges.contains_key(number) <==> before.challenges.contains_key(number) && !(
        before.counted_at(now, number) && ids.contains(before.challenges[number].listing_id))
    &&& forall|number: ChallengeId| #[trigger]
        after.challenges.contains_key(number) ==> after.challenges[number]
            == before.challenges[number]
    &&& after.next_challenge_id == before.next_challenge_id
    &&& after.listings_to_update == before.listings_to_update
}

/// One more listing is updated.
pub(crate) proof fn lemma_updated_once_more<T: Trait>(
    before: State<T>,
    now: BlockNumberOf<T>,
    ids: Seq<ListingIdOf<T>>,
    between: State<T>,
    id: ListingIdOf<T>,
)
    requires
        before.linked(),
        updated(before, now, ids, between),
    ensures
        updated(before, now, ids.push(id), between.updating(now, id).0),
        ids.contains(id) ==> between.updating(now, id) == (between, Seq::<EffectOf<T>>::empty()),
        !ids.contains(id) ==> {
            &&& between.promoted_at(now, id) == before.promoted_at(now, id)
            &&& between.settled_at(now, id) == before.settled_at(now, id)
            &&& before.listings.contains_key(id) ==> between.listings[id] == before.listings[id]
            &&& before.settled_at(now, id) ==> between.challenges[before.challenge_of(id)]
                == before.challenges[before.challenge_of(id)]
        },
{
    let after = between.updating(now, id).0;
    let more = ids.push(id);
    assert forall|i: ListingIdOf<T>| #[trigger] more.contains(i) == (ids.contains(i) || i == id) by {
        if ids.contains(i) {
            let j = choose|j: int| 0 <= j < ids.len() && ids[j] == i;
            assert(more[j] == i);
        }
        assert(more[ids.len() as int] == id);
    }
    assert(between.known(id) == (if ids.contains(id) {
        before.known_after(now, id)
    } else {
        before.known(id)
    }));
    if before.listings.contains_key(id) {
        assert(before.listing_is_sound(id));
        if before.listings[id].challenge_id is Some {
            let number = before.challenge_of(id);
            assert(before.challenge_is_sound(number));
            assert(between.challenges.contains_key(number) <==> !(before.counted_at(now, number)
                && ids.contains(id)));
        }
    }
    assert forall|i: ListingIdOf<T>| #[trigger]
        after.known(i) == (if more.contains(i) {
            before.known_after(now, i)
        } else {
            before.known(i)
        }) by {
        assert(more.contains(i) == (ids.contains(i) || i == id));
        assert(between.known(i) == (if ids.contains(i) {
            before.known_after(now, i)
        } else {
            before.known(i)
        }));
    }
    assert forall|number: ChallengeId| #[trigger]
        after.challenges.contains_key(number) <==> before.challenges.contains_key(number) && !(
        before.counted_at(now, number) && more.contains(before.challenges[number].listing_id)) by {
        assert(between.challenges.contains_key(number) <==> before.challenges.contains_key(number)
            && !(before.counted_at(now, number) && ids.contains(
            before.challenges[number].listing_id,
        )));
        if before.challenges.contains_key(number) {
            assert(before.challenge_is_sound(number));
            let other = before.challenges[number].listing_id;
            assert(more.contains(other) == (ids.contains(other) || other == id));
        }
    }
    assert forall|number: ChallengeId| #[trigger]
        after.challenges.contains_key(number) implies after.challenges[number]
        == before.challenges[number] by {
        assert(between.challenges.contains_key(number));
    }
}

/// The updates of any list of listings come to the update of each listing that occurs in it.
pub(crate) proof fn lemma_updating_all<T: Trait>(
    before: State<T>,
    now: BlockNumberOf<T>,
    ids: Seq<ListingIdOf<T>>,
)
    requires
        before.linked(),
    ensures
        updated(before, now, ids, before.updating_all(now, ids).0),
    decreases ids.len(),
{
    if ids.len() > 0 {
        lemma_updating_all(before, now, ids.drop_last());
        let between = before.updating_all(now, ids.drop_last()).0;
        lemma_updated_once_more(before, now, ids.drop_last(), between, ids.last());
        assert(ids.drop_last().push(ids.last()) =~= ids);
    }
}

/// Only what is put down for a block can expire in it.
pub(crate) proof fn lemma_due_is_scheduled<T: Trait>(s: State<T>, now: BlockNumberOf<T>)
    requires
        s.well_formed(),
    ensures
        forall|id: ListingIdOf<T>| #[trigger]
            s.promoted_at(now, id) ==> s.to_update(now).contains(id),
        forall|id: ListingIdOf<T>| #[trigger]
            s.settled_at(now, id) ==> s.to_update(now).contains(id),
        forall|number: ChallengeId| #[trigger]
            s.counted_at(now, number) ==> s.to_update(now).contains(
                s.challenges[number].listing_id,
            ),
{
    assert forall|number: ChallengeId| #[trigger] s.counted_at(now, number) implies s.to_update(
        now,
    ).contains(s.challenges[number].listing_id) by {
        assert(s.challenges.contains_key(number));
        assert(s.scheduled(now, s.challenges[number].listing_id));
    }
    assert forall|id: ListingIdOf<T>| #[trigger] s.promoted_at(now, id) implies s.to_update(
        now,
    ).contains(id) by {
        assert(s.listings.contains_key(id));
        assert(s.scheduled(now, id));
    }
    assert forall|id: ListingIdOf<T>| #[trigger] s.settled_at(now, id) implies s.to_update(
        now,
    ).contains(id) by {
        assert(s.listing_is_sound(id));
        assert(s.counted_at(now, s.challenge_of(id)));
    }
}

/// The registry as it is when the updates of block `now` begin.
pub open spec fn unscheduled<T: Trait>(s: State<T>, now: BlockNumberOf<T>) -> State<T> {
    State { listings_to_update: s.listings_to_update.remove(now), ..s }
}

pub(crate) proof fn lemma_unscheduled<T: Trait>(s: State<T>, now: BlockNumberOf<T>)
    requires
        s.linked(),
    ensures
        unscheduled(s, now).linked(),
        forall|id: ListingIdOf<T>| #[trigger]
            unscheduled(s, now).known_after(now, id) == s.known_after(now, id),
{
    let start = unscheduled(s, now);
    assert forall|id: ListingIdOf<T>| #[trigger]
        start.listings.contains_key(id) implies start.listing_is_sound(id) by {
        assert(s.listing_is_sound(id));
    }
    assert forall|number: ChallengeId| #[trigger]
        start.challenges.contains_key(number) implies start.challenge_is_sound(number) by {
        assert(s.challenge_is_sound(number));
    }
}

/// At the end of block `now` every listing becomes what it has to become, whatever the order of
/// the updates, and exactly the challenges that expire in the block are no longer open.
pub proof fn on_finalize_updates_what_expires<T: Trait>(s: State<T>, now: BlockNumberOf<T>)
    requires
        s.well_formed(),
    ensures
        forall|id: ListingIdOf<T>| #[trigger]
            s.on_finalize(now).0.known(id) == s.known_after(now, id),
        forall|number: ChallengeId| #[trigger]
            s.on_finalize(now).0.challenges.contains_key(number) <==> s.challenges.contains_key(
                number,
            ) && !s.counted_at(now, number),
        forall|number: ChallengeId| #[trigger]
            s.on_finalize(now).0.challenges.contains_key(number) ==> s.on_finalize(
                now,
            ).0.challenges[number] == s.challenges[number],
        s.on_finalize(now).0.next_challenge_id == s.next_challenge_id,
        s.on_finalize(now).0.listings_to_update == s.listings_to_update.remove(now),
{
    let start = unscheduled(s, now);
    let after = s.on_finalize(now).0;
    let ids = s.to_update(now);
    lemma_unscheduled(s, now);
    lemma_updating_all(start, now, ids);
    lemma_due_is_scheduled(s, now);
    assert forall|id: ListingIdOf<T>| #[trigger] after.known(id) == s.known_after(now, id) by {
        assert(start.known_after(now, id) == s.known_after(now, id));
        if !ids.contains(id) {
            assert(after.known(id) == start.known(id));
        }
    }
    assert forall|number: ChallengeId| #[trigger]
        after.challenges.contains_key(number) <==> s.challenges.contains_key(number)
            && !s.counted_at(now, number) by {
        assert(start.counted_at(now, number) == s.counted_at(now, number));
    }
}

/// The end of a block keeps the registry well formed.
pub proof fn on_finalize_keeps_well_formed<T: Trait>(s: State<T>, now: BlockNumberOf<T>)
    requires
        s.well_formed(),
    ensures
        s.on_finalize(now).0.well_formed(),
{
    let after = s.on_finalize(now).0;
    on_finalize_updates_what_expires(s, now);
    assert forall|id: ListingIdOf<T>| #[trigger]
        after.listings.contains_key(id) implies s.listings.contains_key(id) by {
        assert(after.known(id) == s.known_after(now, id));
    }
    assert(after.listings.dom().subset_of(s.listings.dom()));
    vstd::set_lib::lemma_set_subset_finite(s.listings.dom(), after.listings.dom());
    assert(after.challenges.dom().subset_of(s.challenges.dom()));
    vstd::set_lib::lemma_set_subset_finite(s.challenges.dom(), after.challenges.dom());
    assert forall|id: ListingIdOf<T>| #[trigger]
        after.listings.contains_key(id) implies after.listing_is_sound(id) && (
    after.listings[id].application_expiry is Some ==> after.scheduled(
        after.listings[id].application_expiry->0,
        id,
    )) by {
        assert(after.known(id) == s.known_after(now, id));
        assert(s.listing_is_sound(id));
        if s.listings[id].challenge_id is Some {
            let number = s.challenge_of(id);
            assert(s.challenges.contains_key(number));
            assert(after.challenges.contains_key(number) <==> !s.counted_at(now, number));
        }
        if after.listings[id].application_expiry is Some {
            assert(s.scheduled(s.listings[id].application_expiry->0, id));
        }
    }
    assert forall|number: ChallengeId| #[trigger]
        after.challenges.contains_key(number) implies after.challenge_is_sound(number)
        && after.scheduled(
        after.challenges[number].voting_expiry,
        after.challenges[number].listing_id,
    ) by {
        assert(s.challenge_is_sound(number));
        assert(s.scheduled(s.challenges[number].voting_expiry, s.challenges[number].listing_id));
        let id = s.challenges[number].listing_id;
        assert(s.listing_is_sound(id));
        assert(after.known(id) == s.known_after(now, id));
    }
}

} // verus!
