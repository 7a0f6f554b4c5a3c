//! What the registry holds of each account's money, and what becomes of it.
use vstd::prelude::*;

use crate::numbers::Quantity;
use crate::state::State;
use crate::types::{
    AccountIdOf, BalanceOf, BlockNumberOf, ChallengeId, ChallengeViewOf, Effect, EffectOf,
    Environment, ListingDetailOf, ListingIdOf, RawOrigin, Trait, Vote,
};

verus! {

/// `amount` if the condition holds, nothing otherwise.
pub open spec fn counted<B: Quantity>(condition: bool, amount: B) -> nat {
    if condition {
        amount.value()
    } else {
        0
    }
}

/// What an account has staked in votes.
pub open spec fn votes_of<A, B: Quantity>(votes: Seq<Vote<A, B>>, who: A) -> nat
    decreases votes.len(),
{
    if votes.len() == 0 {
        0
    } else {
        votes_of(votes.drop_last(), who) + counted(votes.last().voter == who, votes.last().deposit)
    }
}

/// What an account has staked in votes on one side.
pub open spec fn votes_on_side<A, B: Quantity>(votes: Seq<Vote<A, B>>, who: A, aye: bool) -> nat
    decreases votes.len(),
{
    if votes.len() == 0 {
        0
    } else {
        votes_on_side(votes.drop_last(), who, aye) + counted(
            votes.last().voter == who && votes.last().aye_or_nay == aye,
            votes.last().deposit,
        )
    }
}

/// What an account has staked on one side of a challenge: the owner's deposit is on the listing's
/// side, the challenger's against it.
pub open spec fn stake<T: Trait>(
    listing: ListingDetailOf<T>,
    challenge: ChallengeViewOf<T>,
    who: AccountIdOf<T>,
    aye: bool,
) -> nat {
    counted(aye && listing.owner == who, listing.deposit) + counted(
        !aye && challenge.owner == who,
        challenge.deposit,
    ) + votes_on_side(challenge.votes, who, aye)
}

/// The weight of an effect by what it releases to `who`.
pub open spec fn releasing<A, B: Quantity, L>(who: A) -> spec_fn(Effect<A, B, L>) -> nat {
    |e: Effect<A, B, L>|
        match e {
            Effect::Unreserve(account, amount) => counted(account == who, amount),
            _ => 0,
        }
}

/// The weight of an effect by what it takes from `who`.
pub open spec fn taking<A, B: Quantity, L>(who: A) -> spec_fn(Effect<A, B, L>) -> nat {
    |e: Effect<A, B, L>|
        match e {
            Effect::Slash(account, amount) => counted(account == who, amount),
            _ => 0,
        }
}

/// What is released to `who`.
pub open spec fn released<A, B: Quantity, L>(effects: Seq<Effect<A, B, L>>, who: A) -> nat {
    crate::tallies::tally(effects, releasing(who))
}

/// What is taken from `who`.
pub open spec fn taken<A, B: Quantity, L>(effects: Seq<Effect<A, B, L>>, who: A) -> nat {
    crate::tallies::tally(effects, taking(who))
}

impl<T: Trait> State<T> {
    /// The deposit held for a listing, if `who` owns it.
    pub open spec fn listing_deposits(self, who: AccountIdOf<T>) -> spec_fn(ListingIdOf<T>) -> nat {
        |id: ListingIdOf<T>| counted(self.listings[id].owner == who, self.listings[id].deposit)
    }

    /// The deposit and the votes of `who` held for a challenge.
    pub open spec fn challenge_deposits(self, who: AccountIdOf<T>) -> spec_fn(ChallengeId) -> nat {
        |number: ChallengeId|
            counted(
                self.challenges[number].owner == who,
                self.challenges[number].deposit,
            ) + votes_of(self.challenges[number].votes, who)
    }

    /// All that the registry holds of an account: the deposits of its listings, those of its open
    /// challenges, and its votes in open challenges.
    pub open spec fn held(self, who: AccountIdOf<T>) -> nat {
        crate::tallies::total(self.listings.dom(), self.listing_deposits(who))
            + crate::tallies::total(self.challenges.dom(), self.challenge_deposits(who))
    }
}

/// The votes of an account are those on either side.
proof fn lemma_both_sides<A, B: Quantity>(votes: Seq<Vote<A, B>>, who: A)
    ensures
        votes_of(votes, who) == votes_on_side(votes, who, true) + votes_on_side(votes, who, false),
    decreases votes.len(),
{
    if votes.len() > 0 {
        lemma_both_sides(votes.drop_last(), who);
    }
}

/// Every vote is released, and taken where it was on the losing side.
proof fn lemma_vote_money<A, B: Quantity, L>(votes: Seq<Vote<A, B>>, listing_is_good: bool, who: A)
    ensures
        released(crate::state::vote_effects::<A, B, L>(votes, listing_is_good), who) == votes_of(
            votes,
            who,
        ),
        taken(crate::state::vote_effects::<A, B, L>(votes, listing_is_good), who) == votes_on_side(
            votes,
            who,
            !listing_is_good,
        ),
    decreases votes.len(),
{
    if votes.len() > 0 {
        lemma_vote_money::<A, B, L>(votes.drop_last(), listing_is_good, who);
        crate::tallies::lemma_vote_effects_step::<A, B, L>(votes, listing_is_good, releasing(who));
        crate::tallies::lemma_vote_effects_step::<A, B, L>(votes, listing_is_good, taking(who));
    }
}

/// When a challenge is resolved, an account loses exactly what it staked on the losing side, and
/// nothing on the other. All it staked is released before; only the deposit of a listing that
/// passed stays with the registry.
pub proof fn settlement_takes_the_losing_stakes<T: Trait>(
    listing: ListingDetailOf<T>,
    challenge: ChallengeViewOf<T>,
    who: AccountIdOf<T>,
)
    ensures
        ({
            let effects = State::<T>::settlement(listing, challenge);
            let passed = crate::state::passes(challenge);
            &&& taken(effects, who) == stake::<T>(listing, challenge, who, !passed)
            &&& released(effects, who) + counted(passed && listing.owner == who, listing.deposit)
                == stake::<T>(listing, challenge, who, true) + stake::<T>(
                listing,
                challenge,
                who,
                false,
            )
        }),
{
    let passed = crate::state::passes(challenge);
    crate::tallies::lemma_settlement_tally::<T>(listing, challenge, releasing(who));
    crate::tallies::lemma_settlement_tally::<T>(listing, challenge, taking(who));
    lemma_vote_money::<AccountIdOf<T>, BalanceOf<T>, ListingIdOf<T>>(challenge.votes, passed, who);
    lemma_both_sides(challenge.votes, who);
}

/// The weight of an effect by what it releases.
pub open spec fn releasing_any<A, B: Quantity, L>() -> spec_fn(Effect<A, B, L>) -> nat {
    |e: Effect<A, B, L>|
        match e {
            Effect::Unreserve(_, amount) => amount.value(),
            _ => 0,
        }
}

/// The weight of an effect by what it takes.
pub open spec fn taking_any<A, B: Quantity, L>() -> spec_fn(Effect<A, B, L>) -> nat {
    |e: Effect<A, B, L>|
        match e {
            Effect::Slash(_, amount) => amount.value(),
            _ => 0,
        }
}

/// All that is released.
pub open spec fn all_released<A, B: Quantity, L>(effects: Seq<Effect<A, B, L>>) -> nat {
    crate::tallies::tally(effects, releasing_any())
}

/// All that is taken.
pub open spec fn all_taken<A, B: Quantity, L>(effects: Seq<Effect<A, B, L>>) -> nat {
    crate::tallies::tally(effects, taking_any())
}

proof fn lemma_all_vote_money<A, B: Quantity, L>(votes: Seq<Vote<A, B>>, listing_is_good: bool)
    ensures
        all_released(crate::state::vote_effects::<A, B, L>(votes, listing_is_good))
            == crate::soundness::staked(votes, true) + crate::soundness::staked(votes, false),
        all_taken(crate::state::vote_effects::<A, B, L>(votes, listing_is_good))
            == crate::soundness::staked(votes, !listing_is_good),
    decreases votes.len(),
{
    if votes.len() > 0 {
        lemma_all_vote_money::<A, B, L>(votes.drop_last(), listing_is_good);
        crate::tallies::lemma_vote_effects_step::<A, B, L>(
            votes,
            listing_is_good,
            releasing_any(),
        );
        crate::tallies::lemma_vote_effects_step::<A, B, L>(votes, listing_is_good, taking_any());
    }
}

/// When a challenge is resolved, what is taken altogether is the total of the losing side, which is
/// the lesser of the two, and what is released altogether are both totals, but for the deposit of
/// a listing that passed.
pub proof fn the_losing_side_pays_its_total<T: Trait>(s: State<T>, number: ChallengeId)
    requires
        s.well_formed(),
        s.challenges.contains_key(number),
    ensures
        ({
            let challenge = s.challenges[number];
            let listing = s.listings[challenge.listing_id];
            let effects = State::<T>::settlement(listing, challenge);
            let passed = crate::state::passes(challenge);
            &&& all_taken(effects) == (if passed {
                challenge.total_nay.value()
            } else {
                challenge.total_aye.value()
            })
            &&& all_taken(effects) == vstd::math::min(
                challenge.total_aye.value() as int,
                challenge.total_nay.value() as int,
            )
            &&& all_released(effects) + counted(passed, listing.deposit)
                == challenge.total_aye.value() + challenge.total_nay.value()
        }),
{
    let challenge = s.challenges[number];
    let listing = s.listings[challenge.listing_id];
    let passed = crate::state::passes(challenge);
    assert(s.challenge_is_sound(number));
    crate::tallies::lemma_settlement_tally::<T>(listing, challenge, releasing_any());
    crate::tallies::lemma_settlement_tally::<T>(listing, challenge, taking_any());
    lemma_all_vote_money::<AccountIdOf<T>, BalanceOf<T>, ListingIdOf<T>>(challenge.votes, passed);
}

/// A proposal makes the registry hold its deposit, and nothing else; a refused one nothing.
pub proof fn proposals_are_held<T: Trait>(
    s: State<T>,
    env: Environment<T>,
    origin: RawOrigin<AccountIdOf<T>>,
    id: ListingIdOf<T>,
    deposit: BalanceOf<T>,
    reserved: bool,
    who: AccountIdOf<T>,
)
    requires
        s.well_formed(),
    ensures
        ({
            let (after, answer) = s.propose(env, origin, id, deposit, reserved);
            after.held(who) == s.held(who) + counted(
                answer is Ok && origin == RawOrigin::Signed(who),
                deposit,
            )
        }),
{
    let after = s.propose(env, origin, id, deposit, reserved).0;
    if reserved && s.propose_refusal(env, origin, id, deposit) is None {
        assert(after.listings.dom() =~= s.listings.dom().insert(id));
        crate::tallies::lemma_total_insert(s.listings.dom(), id, after.listing_deposits(who));
        crate::tallies::lemma_total_same(
            s.listings.dom(),
            after.listing_deposits(who),
            s.listing_deposits(who),
        );
        crate::tallies::lemma_total_same(
            s.challenges.dom(),
            after.challenge_deposits(who),
            s.challenge_deposits(who),
        );
    }
}

/// A challenge makes the registry hold its deposit, and nothing else; a refused one nothing.
pub proof fn challenges_are_held<T: Trait>(
    s: State<T>,
    env: Environment<T>,
    origin: RawOrigin<AccountIdOf<T>>,
    id: ListingIdOf<T>,
    deposit: BalanceOf<T>,
    reserved: bool,
    who: AccountIdOf<T>,
)
    requires
        s.well_formed(),
    ensures
        ({
            let (after, answer) = s.challenge(env, origin, id, deposit, reserved);
            after.held(who) == s.held(who) + counted(
                answer is Ok && origin == RawOrigin::Signed(who),
                deposit,
            )
        }),
{
    let after = s.challenge(env, origin, id, deposit, reserved).0;
    if reserved && s.challenge_refusal(env, origin, id, deposit) is None {
        let number = s.next_challenge_id;
        if s.challenges.contains_key(number) {
            assert(s.challenge_is_sound(number));
        }
        assert(after.listings.dom() =~= s.listings.dom());
        crate::tallies::lemma_total_same(
            s.listings.dom(),
            after.listing_deposits(who),
            s.listing_deposits(who),
        );
        assert(after.challenges.dom() =~= s.challenges.dom().insert(number));
        crate::tallies::lemma_total_insert(
            s.challenges.dom(),
            number,
            after.challenge_deposits(who),
        );
        crate::tallies::lemma_total_same(
            s.challenges.dom(),
            after.challenge_deposits(who),
            s.challenge_deposits(who),
        );
    }
}

/// A vote makes the registry hold its deposit, and nothing else; a refused one nothing.
pub proof fn votes_are_held<T: Trait>(
    s: State<T>,
    origin: RawOrigin<AccountIdOf<T>>,
    id: ListingIdOf<T>,
    aye: bool,
    deposit: BalanceOf<T>,
    reserved: bool,
    who: AccountIdOf<T>,
)
    requires
        s.well_formed(),
    ensures
        ({
            let (after, answer) = s.vote(origin, id, aye, deposit, reserved);
            after.held(who) == s.held(who) + counted(
                answer is Ok && origin == RawOrigin::Signed(who),
                deposit,
            )
        }),
{
    let after = s.vote(origin, id, aye, deposit, reserved).0;
    if reserved && s.vote_refusal(origin, id) is None {
        let number = s.listings[id].challenge_id->0;
        assert(s.listing_is_sound(id));
        crate::tallies::lemma_total_same(
            s.listings.dom(),
            after.listing_deposits(who),
            s.listing_deposits(who),
        );
        assert(after.challenges.dom() =~= s.challenges.dom());
        let others = s.challenges.dom().remove(number);
        crate::tallies::lemma_total_remove(
            s.challenges.dom(),
            number,
            after.challenge_deposits(who),
        );
        crate::tallies::lemma_total_remove(s.challenges.dom(), number, s.challenge_deposits(who));
        crate::tallies::lemma_total_same(
            others,
            after.challenge_deposits(who),
            s.challenge_deposits(who),
        );
        let cast = Vote { voter: origin->Signed_0, aye_or_nay: aye, deposit };
        assert(s.challenges[number].votes.push(cast).drop_last() =~= s.challenges[number].votes);
    }
}

/// The update of one listing releases what it stops holding.
proof fn lemma_update_releases<T: Trait>(
    s: State<T>,
    now: BlockNumberOf<T>,
    id: ListingIdOf<T>,
    who: AccountIdOf<T>,
)
    requires
        s.listings.dom().finite(),
        s.challenges.dom().finite(),
        s.settled_at(now, id) ==> s.challenges[s.challenge_of(id)].listing_id == id,
    ensures
        s.updating(now, id).0.listings.dom().finite(),
        s.updating(now, id).0.challenges.dom().finite(),
        s.held(who) == s.updating(now, id).0.held(who) + released(s.updating(now, id).1, who),
{
    let (after, effects) = s.updating(now, id);
    if s.promoted_at(now, id) {
        let accepted: EffectOf<T> = effects[0];
        assert(effects =~= Seq::empty().push(accepted));
        crate::tallies::lemma_tally_push(Seq::empty(), accepted, releasing(who));
        assert(after.listings.dom() =~= s.listings.dom());
        crate::tallies::lemma_total_same(
            s.listings.dom(),
            after.listing_deposits(who),
            s.listing_deposits(who),
        );
        crate::tallies::lemma_total_same(
            s.challenges.dom(),
            after.challenge_deposits(who),
            s.challenge_deposits(who),
        );
    } else if s.settled_at(now, id) {
        let number = s.challenge_of(id);
        let challenge = s.challenges[number];
        let passed = crate::state::passes(challenge);
        settlement_takes_the_losing_stakes::<T>(s.listings[id], challenge, who);
        lemma_both_sides(challenge.votes, who);
        assert(after.challenges.dom() =~= s.challenges.dom().remove(number));
        crate::tallies::lemma_total_remove(s.challenges.dom(), number, s.challenge_deposits(who));
        crate::tallies::lemma_total_same(
            s.challenges.dom().remove(number),
            after.challenge_deposits(who),
            s.challenge_deposits(who),
        );
        if passed {
            assert(after.listings.dom() =~= s.listings.dom());
            crate::tallies::lemma_total_same(
                s.listings.dom(),
                after.listing_deposits(who),
                s.listing_deposits(who),
            );
        } else {
            assert(after.listings.dom() =~= s.listings.dom().remove(id));
            crate::tallies::lemma_total_remove(s.listings.dom(), id, s.listing_deposits(who));
            crate::tallies::lemma_total_same(
                s.listings.dom().remove(id),
                after.listing_deposits(who),
                s.listing_deposits(who),
            );
        }
    }
}

/// A list of updates releases what it stops holding.
proof fn lemma_updating_all_releases<T: Trait>(
    before: State<T>,
    now: BlockNumberOf<T>,
    ids: Seq<ListingIdOf<T>>,
    who: AccountIdOf<T>,
)
    requires
        before.linked(),
    ensures
        ({
            let (after, effects) = before.updating_all(now, ids);
            &&& after.listings.dom().finite()
            &&& after.challenges.dom().finite()
            &&& before.held(who) == after.held(who) + released(effects, who)
        }),
    decreases ids.len(),
{
    if ids.len() > 0 {
        let front = ids.drop_last();
        let id = ids.last();
        lemma_updating_all_releases(before, now, front, who);
        crate::finalization::lemma_updating_all(before, now, front);
        let (between, effects) = before.updating_all(now, front);
        crate::finalization::lemma_updated_once_more(before, now, front, between, id);
        if between.settled_at(now, id) {
            assert(!front.contains(id));
            assert(before.listing_is_sound(id));
        }
        lemma_update_releases(between, now, id, who);
        crate::tallies::lemma_tally_concat(
            effects,
            between.updating(now, id).1,
            releasing(who),
        );
    }
}

/// The end of a block releases to each account exactly what the registry then no longer holds of
/// it.
pub proof fn on_finalize_releases_what_is_no_longer_held<T: Trait>(
    s: State<T>,
    now: BlockNumberOf<T>,
    who: AccountIdOf<T>,
)
    requires
        s.well_formed(),
    ensures
        ({
            let (after, effects) = s.on_finalize(now);
            s.held(who) == after.held(who) + released(effects, who)
        }),
{
    let start = crate::finalization::unscheduled(s, now);
    crate::finalization::lemma_unscheduled(s, now);
    lemma_updating_all_releases(start, now, s.to_update(now), who);
    crate::tallies::lemma_total_same(
        s.listings.dom(),
        start.listing_deposits(who),
        s.listing_deposits(who),
    );
    crate::tallies::lemma_total_same(
        s.challenges.dom(),
        start.challenge_deposits(who),
        s.challenge_deposits(who),
    );
}

impl<T: Trait> State<T> {
    /// What `who` has staked on the losing side of the challenge of `id`, if that is resolved in
    /// block `now`.
    pub open spec fn losing_stakes(self, now: BlockNumberOf<T>, who: AccountIdOf<T>) -> spec_fn(
        ListingIdOf<T>,
    ) -> nat {
        |id: ListingIdOf<T>|
            if self.settled_at(now, id) {
                let challenge = self.challenges[self.challenge_of(id)];
                stake::<T>(
                    self.listings[id],
                    challenge,
                    who,
                    !crate::state::passes(challenge),
                )
            } else {
                0
            }
    }
}

/// The end of a block takes from each account exactly what it staked on the losing sides of the
/// challenges that expire in the block, and no more than is released to it.
pub proof fn on_finalize_takes_the_losing_stakes<T: Trait>(
    s: State<T>,
    now: BlockNumberOf<T>,
    who: AccountIdOf<T>,
)
    requires
        s.well_formed(),
    ensures
        taken(s.on_finalize(now).1, who) == crate::tallies::total(
            s.listings.dom(),
            s.losing_stakes(now, who),
        ),
        taken(s.on_finalize(now).1, who) <= released(s.on_finalize(now).1, who),
{
    let start = crate::finalization::unscheduled(s, now);
    let ids = s.to_update(now);
    let taking = taking::<AccountIdOf<T>, BalanceOf<T>, ListingIdOf<T>>(who);
    let releasing = releasing::<AccountIdOf<T>, BalanceOf<T>, ListingIdOf<T>>(who);
    let losing = s.losing_stakes(now, who);
    crate::finalization::lemma_unscheduled(s, now);
    crate::finalization::lemma_due_is_scheduled(s, now);
    crate::announcements::lemma_updating_all_tally(start, now, ids, taking);
    crate::announcements::lemma_updating_all_tally(start, now, ids, releasing);
    let takes = start.update_weights(now, taking);
    let releases = start.update_weights(now, releasing);
    assert forall|id: ListingIdOf<T>| #[trigger]
        ids.to_set().contains(id) implies takes(id) == losing(id) && takes(id) <= releases(id) by {
        lemma_update_takes(start, now, id, who);
    }
    crate::tallies::lemma_total_same(ids.to_set(), takes, losing);
    crate::tallies::lemma_total_at_most(ids.to_set(), takes, releases);
    let all = ids.to_set().union(s.listings.dom());
    assert forall|id: ListingIdOf<T>| #[trigger]
        all.contains(id) && !ids.to_set().contains(id) implies losing(id) == 0 by {
        assert(!s.settled_at(now, id));
    }
    crate::tallies::lemma_total_support(ids.to_set(), all, losing);
    crate::tallies::lemma_total_support(s.listings.dom(), all, losing);
}

/// The update of one listing takes the losing stakes.
proof fn lemma_update_takes<T: Trait>(
    s: State<T>,
    now: BlockNumberOf<T>,
    id: ListingIdOf<T>,
    who: AccountIdOf<T>,
)
    ensures
        s.update_weight(now, id, taking(who)) == (s.losing_stakes(now, who))(id),
        s.update_weight(now, id, taking(who)) <= s.update_weight(now, id, releasing(who)),
{
    let effects = s.updating(now, id).1;
    if s.promoted_at(now, id) {
        let accepted: EffectOf<T> = effects[0];
        assert(effects =~= Seq::empty().push(accepted));
        crate::tallies::lemma_tally_push(Seq::empty(), accepted, taking(who));
    } else if s.settled_at(now, id) {
        settlement_takes_the_losing_stakes::<T>(
            s.listings[id],
            s.challenges[s.challenge_of(id)],
            who,
        );
    }
}

impl<T: Trait> State<T> {
    /// All that the registry holds, of whatever account: the deposits of the listings, those of
    /// the open challenges, and the votes in open challenges.
    pub open spec fn all_held(self) -> nat {
        crate::tallies::total(
            self.listings.dom(),
            |id: ListingIdOf<T>| self.listings[id].deposit.value(),
        ) + crate::tallies::total(
            self.challenges.dom(),
            |number: ChallengeId|
                self.challenges[number].deposit.value() + crate::soundness::staked(
                    self.challenges[number].votes,
                    true,
                ) + crate::soundness::staked(self.challenges[number].votes, false),
        )
    }
}

/// What was staked on a side of a challenge is no more than the registry holds. So where a balance
/// can hold all that is reserved for the registry, it can hold the totals of every vote.
pub proof fn totals_are_held<T: Trait>(s: State<T>, id: ListingIdOf<T>, aye: bool)
    requires
        s.well_formed(),
        s.listings.contains_key(id),
        s.listings[id].challenge_id is Some,
    ensures
        s.vote_total(id, aye).value() <= s.all_held(),
{
    let number = s.challenge_of(id);
    assert(s.listing_is_sound(id));
    assert(s.challenge_is_sound(number));
    crate::tallies::lemma_total_remove(
        s.listings.dom(),
        id,
        |i: ListingIdOf<T>| s.listings[i].deposit.value(),
    );
    crate::tallies::lemma_total_remove(
        s.challenges.dom(),
        number,
        |n: ChallengeId|
            s.challenges[n].deposit.value() + crate::soundness::staked(s.challenges[n].votes, true)
                + crate::soundness::staked(s.challenges[n].votes, false),
    );
}

} // verus!
