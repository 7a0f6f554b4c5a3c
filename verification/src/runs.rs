//! What holds over many requests and blocks.
use vstd::prelude::*;

use crate::numbers::Quantity;
use crate::state::State;
use crate::types::{
    AccountIdOf, BalanceOf, BlockNumberOf, ChallengeId, ChallengeViewOf, DispatchError, Effect,
    EffectOf, Environment, Event, EventOf, ListingDetail, ListingIdOf, RawOrigin, Trait, Vote,
};

verus! {

/// Something that happens to the registry: a request, or the end of a block.
#[verifier::reject_recursive_types(T)]
pub enum Step<T: Trait> {
    Propose {
        env: Environment<T>,
        origin: RawOrigin<AccountIdOf<T>>,
        id: ListingIdOf<T>,
        deposit: BalanceOf<T>,
        reserved: bool,
    },
    Challenge {
        env: Environment<T>,
        origin: RawOrigin<AccountIdOf<T>>,
        id: ListingIdOf<T>,
        deposit: BalanceOf<T>,
        reserved: bool,
    },
    Vote {
        origin: RawOrigin<AccountIdOf<T>>,
        id: ListingIdOf<T>,
        aye: bool,
        deposit: BalanceOf<T>,
        reserved: bool,
    },
    Finalize { now: BlockNumberOf<T> },
}

/// What the answer to a request announces: its event, or nothing where it is refused.
pub open spec fn announcement<T: Trait>(answer: Result<EventOf<T>, DispatchError>) -> Seq<
    EffectOf<T>,
> {
    match answer {
        Ok(event) => seq![Effect::Emit(event)],
        Err(_) => Seq::empty(),
    }
}

impl<T: Trait> State<T> {
    /// The registry after a step, and what the step brings about.
    pub open spec fn step(self, step: Step<T>) -> (Self, Seq<EffectOf<T>>) {
        match step {
            Step::Propose { env, origin, id, deposit, reserved } => {
                let (after, answer) = self.propose(env, origin, id, deposit, reserved);
                (after, announcement::<T>(answer))
            },
            Step::Challenge { env, origin, id, deposit, reserved } => {
                let (after, answer) = self.challenge(env, origin, id, deposit, reserved);
                (after, announcement::<T>(answer))
            },
            Step::Vote { origin, id, aye, deposit, reserved } => {
                let (after, answer) = self.vote(origin, id, aye, deposit, reserved);
                (after, announcement::<T>(answer))
            },
            Step::Finalize { now } => self.on_finalize(now),
        }
    }

    /// The numbers that a step needs can be held: there is a number left for a challenge that is
    /// carried out, and the total that such a vote adds to can hold it.
    pub open spec fn has_room_for(self, step: Step<T>) -> bool {
        match step {
            Step::Challenge { env, origin, id, deposit, reserved } => reserved
                && self.challenge_refusal(env, origin, id, deposit) is None
                ==> self.next_challenge_id < ChallengeId::MAX,
            Step::Vote { origin, id, aye, deposit, reserved } => reserved && self.vote_refusal(
                origin,
                id,
            ) is None ==> self.vote_total(id, aye).value() + deposit.value() <= BalanceOf::<
                T,
            >::limit(),
            _ => true,
        }
    }

    /// The registry after some steps, and all that they bring about.
    pub open spec fn run(self, steps: Seq<Step<T>>) -> (Self, Seq<EffectOf<T>>)
        decreases steps.len(),
    {
        if steps.len() == 0 {
            (self, Seq::empty())
        } else {
            let (before, effects) = self.run(steps.drop_last());
            let (after, more) = before.step(steps.last());
            (after, effects + more)
        }
    }

    /// [`State::has_room_for`] each of some steps, when its turn comes.
    pub open spec fn has_room_for_all(self, steps: Seq<Step<T>>) -> bool
        decreases steps.len(),
    {
        steps.len() > 0 ==> self.has_room_for_all(steps.drop_last()) && self.run(
            steps.drop_last(),
        ).0.has_room_for(steps.last())
    }

    /// The step is a challenge of `id`, and it is carried out.
    pub open spec fn is_challenged_by(self, step: Step<T>, id: ListingIdOf<T>) -> bool {
        match step {
            Step::Challenge { env, origin, id: item, deposit, reserved } => item == id
                && self.challenge(env, origin, item, deposit, reserved).1 is Ok,
            _ => false,
        }
    }

    /// None of some steps challenges `id`.
    pub open spec fn is_not_challenged(self, steps: Seq<Step<T>>, id: ListingIdOf<T>) -> bool
        decreases steps.len(),
    {
        steps.len() > 0 ==> self.is_not_challenged(steps.drop_last(), id) && !self.run(
            steps.drop_last(),
        ).0.is_challenged_by(steps.last(), id)
    }

    /// The step is a vote on `id`, and it is carried out.
    pub open spec fn is_voted_on_by(self, step: Step<T>, id: ListingIdOf<T>) -> bool {
        match step {
            Step::Vote { origin, id: item, aye, deposit, reserved } => item == id && self.vote(
                origin,
                item,
                aye,
                deposit,
                reserved,
            ).1 is Ok,
            _ => false,
        }
    }

    /// None of some steps is a vote on `id`.
    pub open spec fn is_not_voted_on(self, steps: Seq<Step<T>>, id: ListingIdOf<T>) -> bool
        decreases steps.len(),
    {
        steps.len() > 0 ==> self.is_not_voted_on(steps.drop_last(), id) && !self.run(
            steps.drop_last(),
        ).0.is_voted_on_by(steps.last(), id)
    }
}

/// Every step keeps the registry well formed, and none lowers the number that the next challenge
/// gets.
proof fn lemma_step<T: Trait>(s: State<T>, step: Step<T>)
    requires
        s.has_room_for(step),
    ensures
        s.well_formed() ==> s.step(step).0.well_formed(),
        s.step(step).0.next_challenge_id >= s.next_challenge_id,
{
    match step {
        Step::Propose { env, origin, id, deposit, reserved } => {
            if s.well_formed() {
                crate::soundness::propose_keeps_well_formed(
                    s,
                    env,
                    origin,
                    id,
                    deposit,
                    reserved,
                );
            }
        },
        Step::Challenge { env, origin, id, deposit, reserved } => {
            if s.well_formed() {
                crate::soundness::challenge_keeps_well_formed(
                    s,
                    env,
                    origin,
                    id,
                    deposit,
                    reserved,
                );
            }
        },
        Step::Vote { origin, id, aye, deposit, reserved } => {
            if s.well_formed() {
                crate::soundness::vote_keeps_well_formed(s, origin, id, aye, deposit, reserved);
            }
        },
        Step::Finalize { now } => {
            if s.well_formed() {
                crate::finalization::on_finalize_keeps_well_formed(s, now);
            }
            lemma_updates_give_no_number(
                crate::finalization::unscheduled(s, now),
                now,
                s.to_update(now),
            );
        },
    }
}

proof fn lemma_updates_give_no_number<T: Trait>(
    s: State<T>,
    now: BlockNumberOf<T>,
    ids: Seq<ListingIdOf<T>>,
)
    ensures
        s.updating_all(now, ids).0.next_challenge_id == s.next_challenge_id,
    decreases ids.len(),
{
    if ids.len() > 0 {
        lemma_updates_give_no_number(s, now, ids.drop_last());
    }
}

/// However many requests are made and blocks finalized, the registry stays well formed.
pub proof fn runs_keep_well_formed<T: Trait>(s: State<T>, steps: Seq<Step<T>>)
    requires
        s.well_formed(),
        s.has_room_for_all(steps),
    ensures
        s.run(steps).0.well_formed(),
    decreases steps.len(),
{
    if steps.len() > 0 {
        runs_keep_well_formed(s, steps.drop_last());
        lemma_step(s.run(steps.drop_last()).0, steps.last());
    }
}

/// No request and no block lowers the number that the next challenge gets.
pub proof fn challenge_numbers_never_fall<T: Trait>(s: State<T>, steps: Seq<Step<T>>)
    requires
        s.has_room_for_all(steps),
    ensures
        s.run(steps).0.next_challenge_id >= s.next_challenge_id,
    decreases steps.len(),
{
    if steps.len() > 0 {
        challenge_numbers_never_fall(s, steps.drop_last());
        lemma_step(s.run(steps.drop_last()).0, steps.last());
    }
}

/// A challenge number is given once: whatever happens after a challenge, the number that a later
/// one gets is greater.
pub proof fn challenge_numbers_are_given_once<T: Trait>(
    s: State<T>,
    env: Environment<T>,
    origin: RawOrigin<AccountIdOf<T>>,
    id: ListingIdOf<T>,
    deposit: BalanceOf<T>,
    steps: Seq<Step<T>>,
)
    requires
        s.challenge_refusal(env, origin, id, deposit) is None,
        s.next_challenge_id < ChallengeId::MAX,
        s.challenge(env, origin, id, deposit, true).0.has_room_for_all(steps),
    ensures
        ({
            let (challenged, answer) = s.challenge(env, origin, id, deposit, true);
            &&& answer matches Ok(Event::Challenged(_, _, number, _)) && number
                == s.next_challenge_id
            &&& challenged.run(steps).0.next_challenge_id > s.next_challenge_id
        }),
{
    challenge_numbers_never_fall(s.challenge(env, origin, id, deposit, true).0, steps);
}

/// Some steps and then some more.
pub proof fn runs_follow_one_another<T: Trait>(
    s: State<T>,
    first: Seq<Step<T>>,
    second: Seq<Step<T>>,
)
    ensures
        ({
            let (between, effects) = s.run(first);
            let (after, more) = between.run(second);
            s.run(first + second) == (after, effects + more)
        }),
    decreases second.len(),
{
    if second.len() == 0 {
        assert(first + second =~= first);
        assert(s.run(first).1 + Seq::<EffectOf<T>>::empty() =~= s.run(first).1);
    } else {
        runs_follow_one_another(s, first, second.drop_last());
        assert((first + second).drop_last() =~= first + second.drop_last());
        let (between, effects) = s.run(first);
        let (last, more) = between.run(second.drop_last());
        assert((effects + more) + last.step(second.last()).1 =~= effects + (more + last.step(
            second.last(),
        ).1));
    }
}

/// What a request announces is its own event.
proof fn lemma_announcement<T: Trait>(
    answer: Result<EventOf<T>, DispatchError>,
    event: EventOf<T>,
)
    requires
        answer != Ok::<EventOf<T>, DispatchError>(event),
    ensures
        crate::announcements::times(announcement::<T>(answer), Effect::Emit(event)) == 0,
{
    let weight = crate::announcements::being(Effect::Emit(event));
    if answer is Ok {
        let told: EffectOf<T> = Effect::Emit(answer->Ok_0);
        assert(announcement::<T>(answer) =~= Seq::empty().push(told));
        crate::tallies::lemma_tally_push(Seq::empty(), told, weight);
    }
}

/// A step that does not challenge an unchallenged listing, and is not the end of the block in
/// which its application expires, leaves it as it is and does not announce its acceptance.
proof fn lemma_step_beside_unchallenged<T: Trait>(s: State<T>, step: Step<T>, id: ListingIdOf<T>)
    requires
        s.well_formed(),
        s.has_room_for(step),
        s.listings.contains_key(id),
        s.listings[id].challenge_id is None,
        !s.is_challenged_by(step, id),
        step matches Step::Finalize { now } ==> s.listings[id].application_expiry != Some(now),
    ensures
        s.step(step).0.known(id) == s.known(id),
        crate::announcements::times(s.step(step).1, Effect::Emit(Event::Accepted(id))) == 0,
{
    match step {
        Step::Propose { env, origin, id: item, deposit, reserved } => {
            let answer = s.propose(env, origin, item, deposit, reserved).1;
            lemma_announcement::<T>(answer, Event::Accepted(id));
        },
        Step::Challenge { env, origin, id: item, deposit, reserved } => {
            let answer = s.challenge(env, origin, item, deposit, reserved).1;
            lemma_announcement::<T>(answer, Event::Accepted(id));
        },
        Step::Vote { origin, id: item, aye, deposit, reserved } => {
            let answer = s.vote(origin, item, aye, deposit, reserved).1;
            lemma_announcement::<T>(answer, Event::Accepted(id));
        },
        Step::Finalize { now } => {
            crate::laws::other_listings_stay(s, now, id);
            crate::announcements::announcements_tell_what_happened(s, now, id);
        },
    }
}

/// An unchallenged listing stays as it is, through any steps that do not challenge it and among
/// which its application does not expire.
proof fn lemma_run_beside_unchallenged<T: Trait>(
    s: State<T>,
    steps: Seq<Step<T>>,
    id: ListingIdOf<T>,
)
    requires
        s.well_formed(),
        s.has_room_for_all(steps),
        s.listings.contains_key(id),
        s.listings[id].challenge_id is None,
        s.is_not_challenged(steps, id),
        s.listings[id].application_expiry is Some ==> !steps.contains(
            (Step::Finalize { now: s.listings[id].application_expiry->0 }),
        ),
    ensures
        s.run(steps).0.known(id) == s.known(id),
        crate::announcements::times(s.run(steps).1, Effect::Emit(Event::Accepted(id))) == 0,
    decreases steps.len(),
{
    if steps.len() > 0 {
        let front = steps.drop_last();
        assert forall|step: Step<T>| #[trigger] front.contains(step) implies steps.contains(
            step,
        ) by {
            let j = choose|j: int| 0 <= j < front.len() && front[j] == step;
            assert(steps[j] == step);
        }
        lemma_run_beside_unchallenged(s, front, id);
        runs_keep_well_formed(s, front);
        let (between, effects) = s.run(front);
        assert(steps[steps.len() - 1] == steps.last());
        lemma_step_beside_unchallenged(between, steps.last(), id);
        crate::tallies::lemma_tally_concat(
            effects,
            between.step(steps.last()).1,
            crate::announcements::being(Effect::Emit(Event::Accepted(id))),
        );
    }
}

/// A proposal that is never challenged is promoted exactly once, at the end of the block in which
/// its application expires, whatever else happens before and after. Until then it is an
/// application and not in the registry; from then on it is in the registry, and its listing does
/// not change any more. Its acceptance is announced once, in that block.
pub proof fn unchallenged_proposals_are_promoted_once<T: Trait>(
    s: State<T>,
    env: Environment<T>,
    origin: RawOrigin<AccountIdOf<T>>,
    id: ListingIdOf<T>,
    deposit: BalanceOf<T>,
    expiry: BlockNumberOf<T>,
    before: Seq<Step<T>>,
    after: Seq<Step<T>>,
)
    requires
        s.well_formed(),
        s.propose_refusal(env, origin, id, deposit) is None,
        expiry.value() == env.now.value() + env.apply_stage_len.value(),
        !before.contains((Step::Finalize { now: expiry })),
        ({
            let proposed = s.propose(env, origin, id, deposit, true).0;
            let promoted = proposed.run(before).0.on_finalize(expiry).0;
            &&& proposed.has_room_for_all(before) && proposed.is_not_challenged(before, id)
            &&& promoted.has_room_for_all(after) && promoted.is_not_challenged(after, id)
        }),
    ensures
        ({
            let accepted: EffectOf<T> = Effect::Emit(Event::Accepted(id));
            let proposed = s.propose(env, origin, id, deposit, true).0;
            let (waiting, early) = proposed.run(before);
            let (promoted, due) = waiting.on_finalize(expiry);
            let (later, late) = promoted.run(after);
            &&& waiting.known(id) == proposed.known(id) && !waiting.registry_contains(id)
            &&& promoted.registry_contains(id)
            &&& later.known(id) == promoted.known(id) && later.registry_contains(id)
            &&& crate::announcements::times(early, accepted) == 0
            &&& crate::announcements::times(due, accepted) == 1
            &&& crate::announcements::times(late, accepted) == 0
            &&& proposed.run(before.push(Step::Finalize { now: expiry }) + after) == (
                later,
                early + due + late,
            )
            &&& crate::announcements::times(early + due + late, accepted) == 1
        }),
{
    let accepted: EffectOf<T> = Effect::Emit(Event::Accepted(id));
    let weight = crate::announcements::being(accepted);
    let proposed = s.propose(env, origin, id, deposit, true).0;
    let (waiting, early) = proposed.run(before);
    let (promoted, due) = waiting.on_finalize(expiry);
    let (later, late) = promoted.run(after);
    expiry.lemma_value();
    crate::soundness::propose_keeps_well_formed(s, env, origin, id, deposit, true);
    lemma_run_beside_unchallenged(proposed, before, id);
    runs_keep_well_formed(proposed, before);
    crate::laws::unchallenged_applications_are_promoted(waiting, expiry, id);
    crate::announcements::announcements_tell_what_happened(waiting, expiry, id);
    crate::finalization::on_finalize_keeps_well_formed(waiting, expiry);
    lemma_run_beside_unchallenged(promoted, after, id);
    let steps = before.push(Step::Finalize { now: expiry });
    assert(steps.drop_last() =~= before);
    assert(proposed.run(steps) == (promoted, early + due));
    runs_follow_one_another(proposed, steps, after);
    crate::tallies::lemma_tally_concat(early, due, weight);
    crate::tallies::lemma_tally_concat(early + due, late, weight);
}

/// `later` is the challenge that `earlier` was, with any votes that were cast since.
pub open spec fn continues<T: Trait>(
    earlier: ChallengeViewOf<T>,
    later: ChallengeViewOf<T>,
) -> bool {
    &&& later.listing_id == earlier.listing_id
    &&& later.deposit == earlier.deposit
    &&& later.owner == earlier.owner
    &&& later.voting_expiry == earlier.voting_expiry
    &&& earlier.votes.is_prefix_of(later.votes)
}

/// A step that is not the end of the block in which the vote is counted leaves a challenged
/// listing as it is and its challenge open, and announces neither a rejection nor an outcome. A
/// step that is no vote on the listing leaves the challenge as it is.
proof fn lemma_step_beside_challenged<T: Trait>(s: State<T>, step: Step<T>, id: ListingIdOf<T>)
    requires
        s.well_formed(),
        s.has_room_for(step),
        s.listings.contains_key(id),
        s.listings[id].challenge_id is Some,
        step matches Step::Finalize { now } ==> s.challenges[s.challenge_of(id)].voting_expiry
            != now,
    ensures
        ({
            let after = s.step(step).0;
            let number = s.challenge_of(id);
            &&& after.known(id) == s.known(id)
            &&& after.challenges.contains_key(number)
            &&& continues::<T>(s.challenges[number], after.challenges[number])
            &&& !s.is_voted_on_by(step, id) ==> after.challenges[number] == s.challenges[number]
        }),
        crate::announcements::times(s.step(step).1, Effect::Emit(Event::Rejected(id))) == 0,
        crate::announcements::times(s.step(step).1, Effect::Emit(Event::Resolved(id, true))) == 0,
        crate::announcements::times(s.step(step).1, Effect::Emit(Event::Resolved(id, false))) == 0,
{
    let number = s.challenge_of(id);
    assert(s.listing_is_sound(id));
    assert(s.challenge_is_sound(number));
    let votes = s.challenges[number].votes;
    assert(votes =~= votes.subrange(0, votes.len() as int));
    match step {
        Step::Propose { env, origin, id: item, deposit, reserved } => {
            lemma_requests_resolve_nothing::<T>(
                s.propose(env, origin, item, deposit, reserved).1,
                id,
            );
        },
        Step::Challenge { env, origin, id: item, deposit, reserved } => {
            lemma_requests_resolve_nothing::<T>(
                s.challenge(env, origin, item, deposit, reserved).1,
                id,
            );
        },
        Step::Vote { origin, id: item, aye, deposit, reserved } => {
            lemma_requests_resolve_nothing::<T>(
                s.vote(origin, item, aye, deposit, reserved).1,
                id,
            );
            if s.listings.contains_key(item) {
                assert(s.listing_is_sound(item));
            }
            let cast = votes.push(Vote { voter: origin->Signed_0, aye_or_nay: aye, deposit });
            assert(votes =~= cast.subrange(0, votes.len() as int));
        },
        Step::Finalize { now } => {
            crate::laws::challenged_listings_wait_for_the_vote(s, now, id);
            crate::announcements::announcements_tell_what_happened(s, now, id);
        },
    }
}

/// The answer to a request announces neither a rejection nor an outcome.
proof fn lemma_requests_resolve_nothing<T: Trait>(
    answer: Result<EventOf<T>, DispatchError>,
    id: ListingIdOf<T>,
)
    requires
        answer matches Ok(event) ==> !crate::announcements::is_about(event, id),
    ensures
        crate::announcements::times(
            announcement::<T>(answer),
            Effect::Emit(Event::Rejected(id)),
        ) == 0,
        crate::announcements::times(
            announcement::<T>(answer),
            Effect::Emit(Event::Resolved(id, true)),
        ) == 0,
        crate::announcements::times(
            announcement::<T>(answer),
            Effect::Emit(Event::Resolved(id, false)),
        ) == 0,
{
    lemma_announcement::<T>(answer, Event::Rejected(id));
    lemma_announcement::<T>(answer, Event::Resolved(id, true));
    lemma_announcement::<T>(answer, Event::Resolved(id, false));
}

/// A challenged listing stays as it is and its challenge open, through any steps among which the
/// vote is not counted. Where none of them is a vote on the listing, the challenge stays as it is.
proof fn lemma_run_beside_challenged<T: Trait>(
    s: State<T>,
    steps: Seq<Step<T>>,
    id: ListingIdOf<T>,
)
    requires
        s.well_formed(),
        s.has_room_for_all(steps),
        s.listings.contains_key(id),
        s.listings[id].challenge_id is Some,
        !steps.contains(
            (Step::Finalize { now: s.challenges[s.challenge_of(id)].voting_expiry }),
        ),
    ensures
        ({
            let after = s.run(steps).0;
            let number = s.challenge_of(id);
            &&& after.known(id) == s.known(id)
            &&& after.challenges.contains_key(number)
            &&& continues::<T>(s.challenges[number], after.challenges[number])
            &&& s.is_not_voted_on(steps, id) ==> after.challenges[number]
                == s.challenges[number]
        }),
        crate::announcements::times(s.run(steps).1, Effect::Emit(Event::Rejected(id))) == 0,
        crate::announcements::times(s.run(steps).1, Effect::Emit(Event::Resolved(id, true))) == 0,
        crate::announcements::times(s.run(steps).1, Effect::Emit(Event::Resolved(id, false))) == 0,
    decreases steps.len(),
{
    let number = s.challenge_of(id);
    let votes = s.challenges[number].votes;
    assert(s.listing_is_sound(id));
    assert(votes =~= votes.subrange(0, votes.len() as int));
    if steps.len() > 0 {
        let front = steps.drop_last();
        assert forall|step: Step<T>| #[trigger] front.contains(step) implies steps.contains(
            step,
        ) by {
            let j = choose|j: int| 0 <= j < front.len() && front[j] == step;
            assert(steps[j] == step);
        }
        lemma_run_beside_challenged(s, front, id);
        runs_keep_well_formed(s, front);
        let (between, effects) = s.run(front);
        assert(steps[steps.len() - 1] == steps.last());
        lemma_step_beside_challenged(between, steps.last(), id);
        let (after, more) = between.step(steps.last());
        let later = after.challenges[number].votes;
        assert(votes =~= later.subrange(0, votes.len() as int)) by {
            let middle = between.challenges[number].votes;
            assert(votes == middle.subrange(0, votes.len() as int));
            assert(middle == later.subrange(0, middle.len() as int));
        }
        crate::tallies::lemma_tally_concat(
            effects,
            more,
            crate::announcements::being(Effect::Emit(Event::Rejected(id))),
        );
        crate::tallies::lemma_tally_concat(
            effects,
            more,
            crate::announcements::being(Effect::Emit(Event::Resolved(id, true))),
        );
        crate::tallies::lemma_tally_concat(
            effects,
            more,
            crate::announcements::being(Effect::Emit(Event::Resolved(id, false))),
        );
    }
}

proof fn lemma_step_opens_no_old_challenge<T: Trait>(
    s: State<T>,
    step: Step<T>,
    number: ChallengeId,
)
    requires
        s.well_formed(),
        s.has_room_for(step),
        number < s.next_challenge_id,
        !s.challenges.contains_key(number),
    ensures
        !s.step(step).0.challenges.contains_key(number),
{
    match step {
        Step::Vote { origin, id, aye, deposit, reserved } => {
            if s.listings.contains_key(id) {
                assert(s.listing_is_sound(id));
            }
        },
        Step::Finalize { now } => {
            crate::finalization::on_finalize_updates_what_expires(s, now);
        },
        _ => {},
    }
}

/// A challenge that was open once and is not any more is never open again.
pub proof fn closed_challenges_stay_closed<T: Trait>(
    s: State<T>,
    steps: Seq<Step<T>>,
    number: ChallengeId,
)
    requires
        s.well_formed(),
        s.has_room_for_all(steps),
        number < s.next_challenge_id,
        !s.challenges.contains_key(number),
    ensures
        !s.run(steps).0.challenges.contains_key(number),
    decreases steps.len(),
{
    if steps.len() > 0 {
        let front = steps.drop_last();
        closed_challenges_stay_closed(s, front, number);
        runs_keep_well_formed(s, front);
        challenge_numbers_never_fall(s, front);
        lemma_step_opens_no_old_challenge(s.run(front).0, steps.last(), number);
    }
}

/// An open challenge is resolved exactly once, at the end of the block in which it expires,
/// whatever else happens before and after. Until then the listing stays as it is, and the
/// challenge open and the same but for the votes that are added to it. Then the outcome follows
/// from the challenge as it has become: the item is in the registry if more was staked for it than
/// against it, and forgotten otherwise. That outcome is announced once, in that block, and none
/// before. The challenge is never open again.
pub proof fn open_challenges_are_resolved_once<T: Trait>(
    s: State<T>,
    number: ChallengeId,
    before: Seq<Step<T>>,
    after: Seq<Step<T>>,
)
    requires
        s.well_formed(),
        s.challenges.contains_key(number),
        s.has_room_for_all(before),
        !before.contains((Step::Finalize { now: s.challenges[number].voting_expiry })),
        s.run(before).0.on_finalize(s.challenges[number].voting_expiry).0.has_room_for_all(after),
    ensures
        ({
            let expiry = s.challenges[number].voting_expiry;
            let id = s.challenges[number].listing_id;
            let (waiting, early) = s.run(before);
            let (resolved, due) = waiting.on_finalize(expiry);
            let (later, late) = resolved.run(after);
            let passed = crate::state::passes(waiting.challenges[number]);
            &&& waiting.known(id) == s.known(id)
            &&& waiting.challenges.contains_key(number)
            &&& continues::<T>(s.challenges[number], waiting.challenges[number])
            &&& resolved.known(id) == (if passed {
                Some(ListingDetail { in_registry: true, challenge_id: None, ..s.listings[id] })
            } else {
                None
            })
            &&& resolved.registry_contains(id) == passed
            &&& forall|good: bool| #[trigger]
                crate::announcements::times(early, Effect::Emit(Event::Resolved(id, good))) == 0
            &&& forall|good: bool| #[trigger]
                crate::announcements::times(due, Effect::Emit(Event::Resolved(id, good)))
                    == crate::announcements::once(good == passed)
            &&& !resolved.challenges.contains_key(number)
            &&& !later.challenges.contains_key(number)
            &&& s.run(before.push(Step::Finalize { now: expiry }) + after) == (
                later,
                early + due + late,
            )
        }),
{
    let expiry = s.challenges[number].voting_expiry;
    let id = s.challenges[number].listing_id;
    let (waiting, early) = s.run(before);
    let (resolved, due) = waiting.on_finalize(expiry);
    let (later, late) = resolved.run(after);
    assert(s.challenge_is_sound(number));
    lemma_run_beside_challenged(s, before, id);
    runs_keep_well_formed(s, before);
    assert(waiting.listings.contains_key(id));
    assert(waiting.listings[id] == s.listings[id]);
    assert(waiting.listing_is_sound(id));
    assert(waiting.challenge_is_sound(number));
    assert(waiting.settled_at(expiry, id));
    crate::finalization::on_finalize_updates_what_expires(waiting, expiry);
    assert(resolved.known(id) == waiting.known_after(expiry, id));
    crate::laws::expired_challenges_are_resolved(waiting, expiry, id);
    crate::announcements::announcements_tell_what_happened(waiting, expiry, id);
    crate::finalization::on_finalize_keeps_well_formed(waiting, expiry);
    closed_challenges_stay_closed(resolved, after, number);
    let passed = crate::state::passes(waiting.challenges[number]);
    assert forall|good: bool| #[trigger]
        crate::announcements::times(early, Effect::Emit(Event::Resolved(id, good))) == 0 by {
        assert(good == true || good == false);
    }
    assert forall|good: bool| #[trigger]
        crate::announcements::times(due, Effect::Emit(Event::Resolved(id, good)))
            == crate::announcements::once(good == passed) by {
        assert(good == true || good == false);
    }
    let steps = before.push(Step::Finalize { now: expiry });
    assert(steps.drop_last() =~= before);
    assert(s.run(steps) == (resolved, early + due));
    runs_follow_one_another(s, steps, after);
}

/// A challenge that nobody votes on removes the listing at the end of the block in which the vote
/// is counted, whatever else happens before: an application as well as an item of the registry.
/// Until then the listing and the challenge stay as they are. The rejection is announced once, in
/// that block.
pub proof fn unanswered_challenges_remove_the_listing<T: Trait>(
    s: State<T>,
    env: Environment<T>,
    origin: RawOrigin<AccountIdOf<T>>,
    id: ListingIdOf<T>,
    deposit: BalanceOf<T>,
    expiry: BlockNumberOf<T>,
    before: Seq<Step<T>>,
)
    requires
        s.well_formed(),
        s.challenge_refusal(env, origin, id, deposit) is None,
        s.next_challenge_id < ChallengeId::MAX,
        expiry.value() == env.now.value() + env.commit_stage_len.value(),
        !before.contains((Step::Finalize { now: expiry })),
        s.challenge(env, origin, id, deposit, true).0.has_room_for_all(before),
        s.challenge(env, origin, id, deposit, true).0.is_not_voted_on(before, id),
    ensures
        ({
            let rejected: EffectOf<T> = Effect::Emit(Event::Rejected(id));
            let number = s.next_challenge_id;
            let challenged = s.challenge(env, origin, id, deposit, true).0;
            let (waiting, early) = challenged.run(before);
            let (settled, due) = waiting.on_finalize(expiry);
            &&& waiting.known(id) == challenged.known(id)
            &&& waiting.challenges.contains_key(number)
            &&& waiting.challenges[number] == challenged.challenges[number]
            &&& !settled.listings.contains_key(id) && !settled.registry_contains(id)
            &&& !settled.challenges.contains_key(number)
            &&& crate::announcements::times(early, rejected) == 0
            &&& crate::announcements::times(due, rejected) == 1
        }),
{
    let number = s.next_challenge_id;
    let challenged = s.challenge(env, origin, id, deposit, true).0;
    let waiting = challenged.run(before).0;
    expiry.lemma_value();
    crate::soundness::challenge_keeps_well_formed(s, env, origin, id, deposit, true);
    lemma_run_beside_challenged(challenged, before, id);
    runs_keep_well_formed(challenged, before);
    crate::transitions::challenges_without_votes_succeed(waiting, number);
    crate::laws::expired_challenges_are_resolved(waiting, expiry, id);
    crate::announcements::announcements_tell_what_happened(waiting, expiry, id);
}

impl<T: Trait> State<T> {
    /// The deposit that a step makes the registry hold of `who`: that of a request of this
    /// account, if it is carried out.
    pub open spec fn deposit_by(self, step: Step<T>, who: AccountIdOf<T>) -> nat {
        match step {
            Step::Propose { env, origin, id, deposit, reserved } => crate::deposits::counted(
                self.propose(env, origin, id, deposit, reserved).1 is Ok && origin
                    == RawOrigin::Signed(who),
                deposit,
            ),
            Step::Challenge { env, origin, id, deposit, reserved } => crate::deposits::counted(
                self.challenge(env, origin, id, deposit, reserved).1 is Ok && origin
                    == RawOrigin::Signed(who),
                deposit,
            ),
            Step::Vote { origin, id, aye, deposit, reserved } => crate::deposits::counted(
                self.vote(origin, id, aye, deposit, reserved).1 is Ok && origin
                    == RawOrigin::Signed(who),
                deposit,
            ),
            Step::Finalize { .. } => 0,
        }
    }

    /// The deposits of all requests of `who` among some steps that are carried out.
    pub open spec fn deposits_by(self, steps: Seq<Step<T>>, who: AccountIdOf<T>) -> nat
        decreases steps.len(),
    {
        if steps.len() == 0 {
            0
        } else {
            self.deposits_by(steps.drop_last(), who) + self.run(steps.drop_last()).0.deposit_by(
                steps.last(),
                who,
            )
        }
    }
}

/// The answer to a request moves no money.
proof fn lemma_requests_move_nothing<T: Trait>(
    answer: Result<EventOf<T>, DispatchError>,
    who: AccountIdOf<T>,
)
    ensures
        crate::deposits::released(announcement::<T>(answer), who) == 0,
        crate::deposits::taken(announcement::<T>(answer), who) == 0,
{
    if answer is Ok {
        let told: EffectOf<T> = Effect::Emit(answer->Ok_0);
        assert(announcement::<T>(answer) =~= Seq::empty().push(told));
        crate::tallies::lemma_tally_push(Seq::empty(), told, crate::deposits::releasing(who));
        crate::tallies::lemma_tally_push(Seq::empty(), told, crate::deposits::taking(who));
    }
}

/// What one step makes the registry hold, and what it releases and takes.
proof fn lemma_step_money<T: Trait>(s: State<T>, step: Step<T>, who: AccountIdOf<T>)
    requires
        s.well_formed(),
        s.has_room_for(step),
    ensures
        s.held(who) + s.deposit_by(step, who) == s.step(step).0.held(who)
            + crate::deposits::released(s.step(step).1, who),
        crate::deposits::taken(s.step(step).1, who) <= crate::deposits::released(
            s.step(step).1,
            who,
        ),
{
    match step {
        Step::Propose { env, origin, id, deposit, reserved } => {
            crate::deposits::proposals_are_held(s, env, origin, id, deposit, reserved, who);
            lemma_requests_move_nothing::<T>(s.propose(env, origin, id, deposit, reserved).1, who);
        },
        Step::Challenge { env, origin, id, deposit, reserved } => {
            crate::deposits::challenges_are_held(s, env, origin, id, deposit, reserved, who);
            lemma_requests_move_nothing::<T>(
                s.challenge(env, origin, id, deposit, reserved).1,
                who,
            );
        },
        Step::Vote { origin, id, aye, deposit, reserved } => {
            crate::deposits::votes_are_held(s, origin, id, aye, deposit, reserved, who);
            lemma_requests_move_nothing::<T>(s.vote(origin, id, aye, deposit, reserved).1, who);
        },
        Step::Finalize { now } => {
            crate::deposits::on_finalize_releases_what_is_no_longer_held(s, now, who);
            crate::deposits::on_finalize_takes_the_losing_stakes(s, now, who);
        },
    }
}

/// The books balance over any requests and blocks: what the registry held of an account and what
/// it was given since is what it still holds and what it has released. And no more is taken from
/// an account than was released to it.
pub proof fn deposits_are_held_or_released<T: Trait>(
    s: State<T>,
    steps: Seq<Step<T>>,
    who: AccountIdOf<T>,
)
    requires
        s.well_formed(),
        s.has_room_for_all(steps),
    ensures
        s.held(who) + s.deposits_by(steps, who) == s.run(steps).0.held(who)
            + crate::deposits::released(s.run(steps).1, who),
        crate::deposits::taken(s.run(steps).1, who) <= crate::deposits::released(
            s.run(steps).1,
            who,
        ),
    decreases steps.len(),
{
    if steps.len() > 0 {
        let front = steps.drop_last();
        deposits_are_held_or_released(s, front, who);
        runs_keep_well_formed(s, front);
        let (between, effects) = s.run(front);
        lemma_step_money(between, steps.last(), who);
        let more = between.step(steps.last()).1;
        crate::tallies::lemma_tally_concat(effects, more, crate::deposits::releasing(who));
        crate::tallies::lemma_tally_concat(effects, more, crate::deposits::taking(who));
    }
}

/// From the first request on, no account is ever released more than was reserved of it.
pub proof fn no_more_is_released_than_was_reserved<T: Trait>(
    steps: Seq<Step<T>>,
    who: AccountIdOf<T>,
)
    requires
        State::<T>::initial().has_room_for_all(steps),
    ensures
        crate::deposits::released(State::<T>::initial().run(steps).1, who)
            <= State::<T>::initial().deposits_by(steps, who),
{
    let s = State::<T>::initial();
    crate::soundness::initial_is_well_formed::<T>();
    deposits_are_held_or_released(s, steps, who);
    assert(s.listings.dom() =~= Set::empty());
    assert(s.challenges.dom() =~= Set::empty());
    assert(s.held(who) == 0);
}

} // verus!
