//! Requests and updates look at little of the registry: a part of it answers as the whole does.
use vstd::prelude::*;

use crate::state::State;
use crate::types::{
    AccountIdOf, BalanceOf, BlockNumberOf, ChallengeId, Environment, ListingIdOf, RawOrigin, Trait,
};

verus! {

/// `part` knows of a listing, and of its challenge, what `whole` does.
pub open spec fn agree_on<T: Trait>(
    part: State<T>,
    whole: State<T>,
    id: ListingIdOf<T>,
) -> bool {
    &&& part.known(id) == whole.known(id)
    &&& whole.listings.contains_key(id) && whole.listings[id].challenge_id is Some ==> {
        let number = whole.challenge_of(id);
        &&& part.challenges.contains_key(number) == whole.challenges.contains_key(number)
        &&& part.challenge_detail(number) == whole.challenge_detail(number)
    }
}

/// A request is answered from the listing it is about, the challenge of that, and the number of
/// the next challenge; and it does the same to them whatever else the registry holds. What it puts
/// down for a block comes after what the whole has put down for that block already: a part that has
/// nothing put down for it tells what is to be added.
pub proof fn requests_look_at_one_listing<T: Trait>(
    part: State<T>,
    whole: State<T>,
    env: Environment<T>,
    origin: RawOrigin<AccountIdOf<T>>,
    id: ListingIdOf<T>,
    aye: bool,
    deposit: BalanceOf<T>,
    reserved: bool,
    block: BlockNumberOf<T>,
)
    requires
        agree_on(part, whole, id),
        part.next_challenge_id == whole.next_challenge_id,
    ensures
        ({
            let (p, answer) = part.propose(env, origin, id, deposit, reserved);
            let (w, expected) = whole.propose(env, origin, id, deposit, reserved);
            &&& answer == expected
            &&& agree_on(p, w, id)
            &&& part.to_update(block).len() == 0 ==> w.to_update(block) == whole.to_update(block)
                + p.to_update(block)
        }),
        ({
            let (p, answer) = part.challenge(env, origin, id, deposit, reserved);
            let (w, expected) = whole.challenge(env, origin, id, deposit, reserved);
            &&& answer == expected
            &&& agree_on(p, w, id)
            &&& p.next_challenge_id == w.next_challenge_id
            &&& part.to_update(block).len() == 0 ==> w.to_update(block) == whole.to_update(block)
                + p.to_update(block)
        }),
        ({
            let (p, answer) = part.vote(origin, id, aye, deposit, reserved);
            let (w, expected) = whole.vote(origin, id, aye, deposit, reserved);
            &&& answer == expected
            &&& agree_on(p, w, id)
            &&& part.to_update(block).len() == 0 ==> w.to_update(block) == whole.to_update(block)
                + p.to_update(block)
        }),
{
    if part.to_update(block).len() == 0 {
        let ids = whole.to_update(block);
        let proposed = part.propose(env, origin, id, deposit, reserved).0;
        assert(whole.propose(env, origin, id, deposit, reserved).0.to_update(block) =~= ids
            + proposed.to_update(block));
        let challenged = part.challenge(env, origin, id, deposit, reserved).0;
        assert(whole.challenge(env, origin, id, deposit, reserved).0.to_update(block) =~= ids
            + challenged.to_update(block));
        let voted = part.vote(origin, id, aye, deposit, reserved).0;
        assert(whole.vote(origin, id, aye, deposit, reserved).0.to_update(block) =~= ids
            + voted.to_update(block));
    }
}

/// A request changes nothing but the listing it is about, the challenge of that, the number of the
/// next challenge and what is put down for updates.
pub proof fn requests_change_one_listing<T: Trait>(
    s: State<T>,
    env: Environment<T>,
    origin: RawOrigin<AccountIdOf<T>>,
    id: ListingIdOf<T>,
    aye: bool,
    deposit: BalanceOf<T>,
    reserved: bool,
    other: ListingIdOf<T>,
    number: ChallengeId,
)
    requires
        other != id,
        number != s.next_challenge_id,
        s.listings.contains_key(id) ==> s.listings[id].challenge_id != Some(number),
    ensures
        ({
            let after = s.propose(env, origin, id, deposit, reserved).0;
            &&& after.known(other) == s.known(other)
            &&& after.challenges == s.challenges
            &&& after.next_challenge_id == s.next_challenge_id
        }),
        ({
            let after = s.challenge(env, origin, id, deposit, reserved).0;
            &&& after.known(other) == s.known(other)
            &&& after.challenges.contains_key(number) == s.challenges.contains_key(number)
            &&& after.challenge_detail(number) == s.challenge_detail(number)
        }),
        ({
            let after = s.vote(origin, id, aye, deposit, reserved).0;
            &&& after.listings == s.listings
            &&& after.challenges.contains_key(number) == s.challenges.contains_key(number)
            &&& after.challenge_detail(number) == s.challenge_detail(number)
            &&& after.next_challenge_id == s.next_challenge_id
            &&& after.listings_to_update == s.listings_to_update
        }),
{
}

proof fn lemma_same_effects<T: Trait>(
    part: State<T>,
    whole: State<T>,
    now: BlockNumberOf<T>,
    ids: Seq<ListingIdOf<T>>,
)
    requires
        part.linked(),
        whole.linked(),
        forall|id: ListingIdOf<T>| #[trigger] ids.contains(id) ==> agree_on(part, whole, id),
    ensures
        part.updating_all(now, ids).1 == whole.updating_all(now, ids).1,
    decreases ids.len(),
{
    if ids.len() > 0 {
        let front = ids.drop_last();
        let id = ids.last();
        assert forall|i: ListingIdOf<T>| #[trigger] front.contains(i) implies agree_on(
            part,
            whole,
            i,
        ) by {
            let j = choose|j: int| 0 <= j < front.len() && front[j] == i;
            assert(ids[j] == i);
            assert(ids.contains(i));
        }
        assert(ids[ids.len() - 1] == id);
        assert(ids.contains(id));
        assert(agree_on(part, whole, id));
        lemma_same_effects(part, whole, now, front);
        crate::finalization::lemma_updating_all(part, now, front);
        crate::finalization::lemma_updating_all(whole, now, front);
        let p = part.updating_all(now, front).0;
        let w = whole.updating_all(now, front).0;
        crate::finalization::lemma_updated_once_more(part, now, front, p, id);
        crate::finalization::lemma_updated_once_more(whole, now, front, w, id);
    }
}

/// The end of a block looks at the listings that are put down for it and their challenges alone:
/// a part of the registry that holds these brings about the same, and does the same to them. The
/// whole stays as it is elsewhere.
pub proof fn updates_look_at_what_is_put_down<T: Trait>(
    part: State<T>,
    whole: State<T>,
    now: BlockNumberOf<T>,
)
    requires
        part.linked(),
        whole.linked(),
        part.to_update(now) == whole.to_update(now),
        forall|id: ListingIdOf<T>| #[trigger]
            whole.to_update(now).contains(id) ==> agree_on(part, whole, id),
    ensures
        part.on_finalize(now).1 == whole.on_finalize(now).1,
        forall|id: ListingIdOf<T>| #[trigger]
            whole.to_update(now).contains(id) ==> part.on_finalize(now).0.known(id)
                == whole.on_finalize(now).0.known(id),
        forall|id: ListingIdOf<T>| #[trigger]
            whole.to_update(now).contains(id) && whole.listings.contains_key(id)
                && whole.listings[id].challenge_id is Some ==> part.on_finalize(
                now,
            ).0.challenges.contains_key(whole.challenge_of(id)) == whole.on_finalize(
                now,
            ).0.challenges.contains_key(whole.challenge_of(id)),
        forall|id: ListingIdOf<T>| #[trigger]
            whole.on_finalize(now).0.known(id) != whole.known(id) ==> whole.to_update(
                now,
            ).contains(id),
        forall|number: ChallengeId| #[trigger]
            whole.challenges.contains_key(number) && !whole.on_finalize(
                now,
            ).0.challenges.contains_key(number) ==> whole.to_update(now).contains(
                whole.challenges[number].listing_id,
            ),
        forall|number: ChallengeId| #[trigger]
            whole.on_finalize(now).0.challenges.contains_key(number)
                ==> whole.challenges.contains_key(number) && whole.on_finalize(
                now,
            ).0.challenges[number] == whole.challenges[number],
{
    let ids = whole.to_update(now);
    let p = crate::finalization::unscheduled(part, now);
    let w = crate::finalization::unscheduled(whole, now);
    crate::finalization::lemma_unscheduled(part, now);
    crate::finalization::lemma_unscheduled(whole, now);
    assert forall|id: ListingIdOf<T>| #[trigger] ids.contains(id) implies agree_on(p, w, id) by {
        assert(agree_on(part, whole, id));
    }
    lemma_same_effects(p, w, now, ids);
    crate::finalization::lemma_updating_all(p, now, ids);
    crate::finalization::lemma_updating_all(w, now, ids);
    assert forall|id: ListingIdOf<T>| #[trigger] ids.contains(id) implies part.on_finalize(
        now,
    ).0.known(id) == whole.on_finalize(now).0.known(id) by {
        assert(agree_on(p, w, id));
        assert(p.updating_all(now, ids).0.known(id) == p.known_after(now, id));
        assert(w.updating_all(now, ids).0.known(id) == w.known_after(now, id));
    }
    assert forall|id: ListingIdOf<T>| #[trigger]
        ids.contains(id) && whole.listings.contains_key(id)
            && whole.listings[id].challenge_id is Some implies part.on_finalize(
        now,
    ).0.challenges.contains_key(whole.challenge_of(id)) == whole.on_finalize(
        now,
    ).0.challenges.contains_key(whole.challenge_of(id)) by {
        assert(agree_on(p, w, id));
        assert(part.listings.contains_key(id));
        assert(part.listing_is_sound(id));
        assert(whole.listing_is_sound(id));
    }
}

} // verus!
