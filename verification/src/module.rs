//! The registry as it runs.
use vstd::prelude::*;

use crate::numbers::{Amount, Height, Identity, Quantity};
use crate::state::State;
use crate::storage_map::StorageMap;
use crate::types::{
    AccountIdOf, BalanceOf, BlockNumberOf, ChallengeDetail, ChallengeDetailOf, ChallengeId,
    ChallengeViewOf, DispatchError, Effect, EffectOf, Environment, Event, EventOf, ListingDetail, ListingDetailOf,
    ListingIdOf, RawOrigin, Reservation, ReservationOf, Trait, Vote, VoteOf,
};

verus! {

/// A token curated registry. Its view is a [`State`].
///
/// Requests are carried out in two steps where money is involved. The first tells which deposit
/// has to be reserved, or why the request is refused. The second carries the request out, given
/// whether the deposit was reserved.
#[verifier::reject_recursive_types(T)]
pub struct Module<T: Trait> {
    /// All listings and applicants known to the registry.
    pub listings: StorageMap<ListingIdOf<T>, ListingDetailOf<T>>,
    /// All currently open challenges.
    pub challenges: StorageMap<ChallengeId, ChallengeDetailOf<T>>,
    /// The first unused challenge id.
    pub next_challenge_id: ChallengeId,
    /// The listings that may need a status update, by block.
    pub listings_to_update: StorageMap<BlockNumberOf<T>, Vec<ListingIdOf<T>>>,
}

impl<T: Trait> View for Module<T> {
    type V = State<T>;

    open spec fn view(&self) -> State<T> {
        State {
            listings: self.listings@,
            challenges: self.challenges@.map_values(|c: ChallengeDetailOf<T>| c@),
            next_challenge_id: self.next_challenge_id,
            listings_to_update: self.listings_to_update@.map_values(|ids: Vec<ListingIdOf<T>>| ids@),
        }
    }
}

/// The account that signed the request.
pub fn ensure_signed<AccountId>(origin: RawOrigin<AccountId>) -> (r: Result<
    AccountId,
    DispatchError,
>)
    ensures
        r == (match origin {
            RawOrigin::Signed(who) => Ok(who),
            _ => Err(DispatchError::BadOrigin),
        }),
{
    match origin {
        RawOrigin::Signed(who) => Ok(who),
        _ => Err(DispatchError::BadOrigin),
    }
}

impl<T: Trait> Module<T> {
    /// A registry without listings.
    pub fn new() -> (r: Module<T>)
        ensures
            r@ == State::<T>::initial(),
            r@.listings == Map::<ListingIdOf<T>, ListingDetailOf<T>>::empty(),
            r@.challenges == Map::<ChallengeId, ChallengeViewOf<T>>::empty(),
            r@.next_challenge_id == 0,
            r@.listings_to_update == Map::<BlockNumberOf<T>, Seq<ListingIdOf<T>>>::empty(),
            r@.well_formed(),
    {
        let r: Module<T> = Module {
            listings: StorageMap::new(),
            challenges: StorageMap::new(),
            next_challenge_id: 0,
            listings_to_update: StorageMap::new(),
        };
        assert(r@ =~= State::<T>::initial());
        proof {
            crate::soundness::initial_is_well_formed::<T>();
        }
        r
    }

    /// Whether the item is listed in the registry.
    pub fn registry_contains(&self, l: ListingIdOf<T>) -> (r: bool)
        ensures
            r == self@.registry_contains(l),
            r <==> self@.listings.contains_key(l) && self@.listings[l].in_registry,
    {
        match self.listings.get(&l) {
            Some(listing) => listing.in_registry,
            None => false,
        }
    }

    /// Puts `id` down for a status update in `block`.
    fn schedule(&mut self, block: BlockNumberOf<T>, id: ListingIdOf<T>)
        ensures
            final(self)@ == old(self)@.scheduling(block, id),
    {
        let mut ids: Vec<ListingIdOf<T>> = match self.listings_to_update.take(&block) {
            Some(ids) => ids,
            None => Vec::new(),
        };
        assert(ids@ == old(self)@.to_update(block));
        ids.push(id);
        self.listings_to_update.insert(block, ids);
        assert(self@ =~= old(self)@.scheduling(block, id));
    }

    /// What has to hold of a proposal whatever the proposer can afford. Gives the proposer and the
    /// block in which the application expires.
    fn check_propose(
        &self,
        env: &Environment<T>,
        origin: RawOrigin<AccountIdOf<T>>,
        proposed_listing: &ListingIdOf<T>,
        deposit: &BalanceOf<T>,
    ) -> (r: Result<(AccountIdOf<T>, BlockNumberOf<T>), DispatchError>)
        ensures
            r == (match self@.propose_refusal(*env, origin, *proposed_listing, *deposit) {
                Some(refusal) => Err(refusal),
                None => Ok(
                    (origin->Signed_0, crate::numbers::later(env.now, env.apply_stage_len)->0),
                ),
            }),
    {
        let sender = match ensure_signed(origin) {
            Ok(who) => who,
            Err(refusal) => {
                return Err(refusal);
            },
        };
        if !deposit.at_least(&env.min_deposit) {
            return Err(DispatchError::DepositBelowMinimum);
        }
        if self.listings.contains_key(proposed_listing) {
            return Err(DispatchError::ListingAlreadyExists);
        }
        // The application expires when the apply stage is over.
        match env.now.later(&env.apply_stage_len) {
            Some(app_exp) => Ok((sender, app_exp)),
            None => Err(DispatchError::ApplicationExpiryOverflow),
        }
    }

    /// The deposit to be reserved for a proposal, or why the proposal is refused.
    pub fn propose_reservation(
        &self,
        env: &Environment<T>,
        origin: RawOrigin<AccountIdOf<T>>,
        proposed_listing: ListingIdOf<T>,
        deposit: BalanceOf<T>,
    ) -> (r: Result<ReservationOf<T>, DispatchError>)
        ensures
            r == (match self@.propose_refusal(*env, origin, proposed_listing, deposit) {
                Some(refusal) => Err(refusal),
                None => Ok(Reservation { who: origin->Signed_0, amount: deposit }),
            }),
            r matches Ok(wanted) ==> RawOrigin::Signed(wanted.who) == origin && wanted.amount
                == deposit,
    {
        match self.check_propose(env, origin, &proposed_listing, &deposit) {
            Ok((sender, _)) => Ok(Reservation { who: sender, amount: deposit }),
            Err(refusal) => Err(refusal),
        }
    }

    /// Proposes a listing on the registry. `reserved` tells whether the deposit that
    /// [`Module::propose_reservation`] names was reserved; where that refuses, so does this.
    pub fn propose(
        &mut self,
        env: &Environment<T>,
        origin: RawOrigin<AccountIdOf<T>>,
        proposed_listing: ListingIdOf<T>,
        deposit: BalanceOf<T>,
        reserved: bool,
    ) -> (r: Result<EventOf<T>, DispatchError>)
        ensures
            (final(self)@, r) == old(self)@.propose(
                *env,
                origin,
                proposed_listing,
                deposit,
                reserved,
            ),
            old(self)@.well_formed() ==> final(self)@.well_formed(),
    {
        proof {
            if self@.well_formed() {
                crate::soundness::propose_keeps_well_formed(
                    self@,
                    *env,
                    origin,
                    proposed_listing,
                    deposit,
                    reserved,
                );
            }
        }
        let (sender, app_exp) = match self.check_propose(env, origin, &proposed_listing, &deposit) {
            Ok(checked) => checked,
            Err(refusal) => {
                return Err(refusal);
            },
        };
        if !reserved {
            return Err(DispatchError::ProposerCannotAfford);
        }
        let listing = ListingDetail {
            deposit: deposit.duplicate(),
            owner: sender.duplicate(),
            application_expiry: Some(app_exp.duplicate()),
            in_registry: false,
            challenge_id: None,
        };
        self.listings.insert(proposed_listing.duplicate(), listing);
        self.schedule(app_exp, proposed_listing.duplicate());
        Ok(Event::Proposed(sender, proposed_listing, deposit))
    }

    /// What has to hold of a challenge whatever the challenger can afford. Gives the challenger
    /// and the block in which the vote is counted.
    fn check_challenge(
        &self,
        env: &Environment<T>,
        origin: RawOrigin<AccountIdOf<T>>,
        listing_id: &ListingIdOf<T>,
        deposit: &BalanceOf<T>,
    ) -> (r: Result<(AccountIdOf<T>, BlockNumberOf<T>), DispatchError>)
        ensures
            r == (match self@.challenge_refusal(*env, origin, *listing_id, *deposit) {
                Some(refusal) => Err(refusal),
                None => Ok(
                    (origin->Signed_0, crate::numbers::later(env.now, env.commit_stage_len)->0),
                ),
            }),
    {
        let challenger = match ensure_signed(origin) {
            Ok(who) => who,
            Err(refusal) => {
                return Err(refusal);
            },
        };
        let listing = match self.listings.get(listing_id) {
            Some(listing) => listing,
            None => {
                return Err(DispatchError::ListingNotFound);
            },
        };
        if listing.challenge_id.is_some() {
            return Err(DispatchError::AlreadyChallenged);
        }
        if listing.owner.same(&challenger) {
            return Err(DispatchError::OwnListing);
        }
        if !deposit.at_least(&listing.deposit) {
            return Err(DispatchError::DepositBelowListing);
        }
        // Voting ends when the commit stage is over.
        match env.now.later(&env.commit_stage_len) {
            Some(voting_exp) => Ok((challenger, voting_exp)),
            None => Err(DispatchError::VotingExpiryOverflow),
        }
    }

    /// The deposit to be reserved for a challenge, or why the challenge is refused.
    pub fn challenge_reservation(
        &self,
        env: &Environment<T>,
        origin: RawOrigin<AccountIdOf<T>>,
        listing_id: ListingIdOf<T>,
        deposit: BalanceOf<T>,
    ) -> (r: Result<ReservationOf<T>, DispatchError>)
        ensures
            r == (match self@.challenge_refusal(*env, origin, listing_id, deposit) {
                Some(refusal) => Err(refusal),
                None => Ok(Reservation { who: origin->Signed_0, amount: deposit }),
            }),
            r matches Ok(wanted) ==> RawOrigin::Signed(wanted.who) == origin && wanted.amount
                == deposit,
    {
        match self.check_challenge(env, origin, &listing_id, &deposit) {
            Ok((challenger, _)) => Ok(Reservation { who: challenger, amount: deposit }),
            Err(refusal) => Err(refusal),
        }
    }

    /// Challenges a listing. `reserved` tells whether the deposit that
    /// [`Module::challenge_reservation`] names was reserved; where that refuses, so does this.
    pub fn challenge(
        &mut self,
        env: &Environment<T>,
        origin: RawOrigin<AccountIdOf<T>>,
        listing_id: ListingIdOf<T>,
        deposit: BalanceOf<T>,
        reserved: bool,
    ) -> (r: Result<EventOf<T>, DispatchError>)
        requires
            reserved && old(self)@.challenge_refusal(*env, origin, listing_id, deposit) is None
                ==> old(self).next_challenge_id < ChallengeId::MAX,
        ensures
            (final(self)@, r) == old(self)@.challenge(*env, origin, listing_id, deposit, reserved),
            old(self)@.well_formed() ==> final(self)@.well_formed(),
    {
        proof {
            if self@.well_formed() {
                crate::soundness::challenge_keeps_well_formed(
                    self@,
                    *env,
                    origin,
                    listing_id,
                    deposit,
                    reserved,
                );
            }
        }
        let (challenger, voting_exp) = match self.check_challenge(
            env,
            origin,
            &listing_id,
            &deposit,
        ) {
            Ok(checked) => checked,
            Err(refusal) => {
                return Err(refusal);
            },
        };
        if !reserved {
            return Err(DispatchError::ChallengerCannotAfford);
        }
        let mut listing = match self.listings.take(&listing_id) {
            Some(listing) => listing,
            None => ListingDetail::default(),
        };
        // If the listing was an unchallenged application, that is now irrelevant.
        listing.application_expiry = None;
        let challenge_id = self.next_challenge_id;
        listing.challenge_id = Some(challenge_id);
        let challenge: ChallengeDetailOf<T> = ChallengeDetail {
            listing_id: listing_id.duplicate(),
            deposit: deposit.duplicate(),
            owner: challenger.duplicate(),
            voting_expiry: voting_exp.duplicate(),
            total_aye: listing.deposit.duplicate(),
            total_nay: deposit.duplicate(),
            votes: Vec::new(),
        };
        self.next_challenge_id = challenge_id + 1;
        self.challenges.insert(challenge_id, challenge);
        self.listings.insert(listing_id.duplicate(), listing);
        self.schedule(voting_exp, listing_id.duplicate());
        assert(self@ =~= old(self)@.challenging(*env, challenger, listing_id, deposit));
        Ok(Event::Challenged(challenger, listing_id, challenge_id, deposit))
    }

    /// What has to hold of a vote whatever the voter can afford. Gives the voter and the number of
    /// the challenge.
    fn check_vote(&self, origin: RawOrigin<AccountIdOf<T>>, listing_id: &ListingIdOf<T>) -> (r:
        Result<(AccountIdOf<T>, ChallengeId), DispatchError>)
        ensures
            r == (match self@.vote_refusal(origin, *listing_id) {
                Some(refusal) => Err(refusal),
                None => Ok((origin->Signed_0, self@.listings[*listing_id].challenge_id->0)),
            }),
    {
        let voter = match ensure_signed(origin) {
            Ok(who) => who,
            Err(refusal) => {
                return Err(refusal);
            },
        };
        match self.listings.get(listing_id) {
            Some(listing) => match listing.challenge_id {
                Some(challenge_id) => Ok((voter, challenge_id)),
                None => Err(DispatchError::NotChallenged),
            },
            None => Err(DispatchError::ListingDoesNotExist),
        }
    }

    /// The deposit to be reserved for a vote, or why the vote is refused.
    pub fn vote_reservation(
        &self,
        origin: RawOrigin<AccountIdOf<T>>,
        listing_id: ListingIdOf<T>,
        deposit: BalanceOf<T>,
    ) -> (r: Result<ReservationOf<T>, DispatchError>)
        ensures
            r == (match self@.vote_refusal(origin, listing_id) {
                Some(refusal) => Err(refusal),
                None => Ok(Reservation { who: origin->Signed_0, amount: deposit }),
            }),
            r matches Ok(wanted) ==> RawOrigin::Signed(wanted.who) == origin && wanted.amount
                == deposit,
    {
        match self.check_vote(origin, &listing_id) {
            Ok((voter, _)) => Ok(Reservation { who: voter, amount: deposit }),
            Err(refusal) => Err(refusal),
        }
    }

    /// Registers a vote for a particular challenge. `reserved` tells whether the deposit that
    /// [`Module::vote_reservation`] names was reserved; where that refuses, so does this.
    pub fn vote(
        &mut self,
        origin: RawOrigin<AccountIdOf<T>>,
        listing_id: ListingIdOf<T>,
        vote_bool: bool,
        deposit: BalanceOf<T>,
        reserved: bool,
    ) -> (r: Result<EventOf<T>, DispatchError>)
        requires
            reserved && old(self)@.vote_refusal(origin, listing_id) is None ==> old(
                self,
            )@.vote_total(listing_id, vote_bool).value() + deposit.value()
                <= BalanceOf::<T>::limit(),
        ensures
            (final(self)@, r) == old(self)@.vote(origin, listing_id, vote_bool, deposit, reserved),
            old(self)@.well_formed() ==> final(self)@.well_formed(),
    {
        proof {
            if self@.well_formed() {
                crate::soundness::vote_keeps_well_formed(
                    self@,
                    origin,
                    listing_id,
                    vote_bool,
                    deposit,
                    reserved,
                );
            }
        }
        let (voter, challenge_id) = match self.check_vote(origin, &listing_id) {
            Ok(checked) => checked,
            Err(refusal) => {
                return Err(refusal);
            },
        };
        if !reserved {
            return Err(DispatchError::VoterCannotAfford);
        }
        let vote: VoteOf<T> = Vote {
            voter: voter.duplicate(),
            aye_or_nay: vote_bool,
            deposit: deposit.duplicate(),
        };
        let mut challenge: ChallengeDetailOf<T> = match self.challenges.take(&challenge_id) {
            Some(challenge) => challenge,
            None => ChallengeDetail::default(),
        };
        assert(challenge@ == old(self)@.challenge_detail(challenge_id));
        challenge.votes.push(vote);
        if vote_bool {
            challenge.total_aye = challenge.total_aye.plus(&deposit);
        } else {
            challenge.total_nay = challenge.total_nay.plus(&deposit);
        }
        self.challenges.insert(challenge_id, challenge);
        assert(self@ =~= old(self)@.voting(voter, listing_id, vote_bool, deposit));
        Ok(Event::Voted(voter, challenge_id, vote_bool, deposit))
    }

    /// An unchallenged application succeeds.
    pub fn promote_application(
        &mut self,
        listing_id: ListingIdOf<T>,
        listing: &mut ListingDetailOf<T>,
        effects: &mut Vec<EffectOf<T>>,
    )
        ensures
            final(self)@ == old(self)@.promoting(listing_id, *old(listing)),
            *final(listing) == (ListingDetail {
                application_expiry: None,
                in_registry: true,
                ..*old(listing)
            }),
            final(effects)@ == old(effects)@.push(Effect::Emit(Event::Accepted(listing_id))),
            old(self)@.well_formed() && old(self)@.known(listing_id) == Some(*old(listing))
                ==> final(self)@.well_formed(),
    {
        proof {
            if self@.well_formed() && self@.known(listing_id) == Some(*listing) {
                crate::transitions::promotion_keeps_well_formed(self@, listing_id);
            }
        }
        listing.application_expiry = None;
        listing.in_registry = true;
        self.listings.insert(listing_id.duplicate(), listing.duplicate());
        effects.push(Effect::Emit(Event::Accepted(listing_id)));
    }

    /// Counts the vote of the challenge that is open on a listing, and settles it.
    pub fn settle_challenge(
        &mut self,
        listing_id: ListingIdOf<T>,
        listing: &mut ListingDetailOf<T>,
        effects: &mut Vec<EffectOf<T>>,
    )
        requires
            old(self)@.listings.contains_key(listing_id),
            old(self)@.listings[listing_id].challenge_id is Some,
        ensures
            final(self)@ == old(self)@.settling(
                listing_id,
                *old(listing),
                old(self)@.challenge_of(listing_id),
            ),
            *final(listing) == (if crate::state::passes(
                old(self)@.challenge_detail(old(self)@.challenge_of(listing_id)),
            ) {
                ListingDetail { in_registry: true, challenge_id: None, ..*old(listing) }
            } else {
                ListingDetail { in_registry: false, ..*old(listing) }
            }),
            final(effects)@ == old(effects)@ + State::<T>::settlement(
                *old(listing),
                old(self)@.challenge_detail(old(self)@.challenge_of(listing_id)),
            ),
            old(self)@.well_formed() && old(self)@.known(listing_id) == Some(*old(listing))
                ==> final(self)@.well_formed(),
    {
        proof {
            if self@.well_formed() && self@.known(listing_id) == Some(*listing) {
                crate::transitions::settlement_keeps_well_formed(self@, listing_id);
            }
        }
        // Note whether the listing was previously registered (if not, it is a challenged
        // application).
        let previously_registered = listing.in_registry;
        let challenge_id: ChallengeId = self.listings.get(&listing_id).unwrap().challenge_id.unwrap();
        let challenge: ChallengeDetailOf<T> = match self.challenges.take(&challenge_id) {
            Some(challenge) => challenge,
            None => ChallengeDetail::default(),
        };
        let listing_is_good = !challenge.total_nay.at_least(&challenge.total_aye);
        effects.push(
            Effect::Emit(Event::Resolved(challenge.listing_id.duplicate(), listing_is_good)),
        );
        if listing_is_good {
            // The challenger loses the deposit.
            effects.push(
                Effect::Unreserve(challenge.owner.duplicate(), challenge.deposit.duplicate()),
            );
            effects.push(Effect::Slash(challenge.owner.duplicate(), challenge.deposit.duplicate()));
            listing.in_registry = true;
            listing.challenge_id = None;
            self.listings.insert(listing_id.duplicate(), listing.duplicate());
            if !previously_registered {
                effects.push(Effect::Emit(Event::Accepted(challenge.listing_id.duplicate())));
            }
        } else {
            // The owner loses the deposit, and the challenger gets the other one back.
            effects.push(Effect::Unreserve(listing.owner.duplicate(), listing.deposit.duplicate()));
            effects.push(Effect::Slash(listing.owner.duplicate(), listing.deposit.duplicate()));
            effects.push(
                Effect::Unreserve(challenge.owner.duplicate(), challenge.deposit.duplicate()),
            );
            listing.in_registry = false;
            let _ = self.listings.take(&challenge.listing_id);
            effects.push(Effect::Emit(Event::Rejected(challenge.listing_id.duplicate())));
        }
        assert(self@ =~= old(self)@.settling(listing_id, *old(listing), challenge_id));
        let ghost verdict = effects@;
        // Release every stake, and take those on the losing side.
        let mut i: usize = 0;
        while i < challenge.votes.len()
            invariant
                i <= challenge.votes.len(),
                effects@ == verdict + crate::state::vote_effects(
                    challenge.votes@.take(i as int),
                    listing_is_good,
                ),
            decreases challenge.votes.len() - i,
        {
            let vote = &challenge.votes[i];
            effects.push(Effect::Unreserve(vote.voter.duplicate(), vote.deposit.duplicate()));
            if vote.aye_or_nay != listing_is_good {
                effects.push(Effect::Slash(vote.voter.duplicate(), vote.deposit.duplicate()));
            }
            assert(challenge.votes@.take(i + 1).drop_last() =~= challenge.votes@.take(i as int));
            i = i + 1;
        }
        assert(challenge.votes@.take(i as int) =~= challenge.votes@);
    }

    /// The status update of one listing in block `now`.
    fn update_listing(
        &mut self,
        now: &BlockNumberOf<T>,
        listing_id: ListingIdOf<T>,
        effects: &mut Vec<EffectOf<T>>,
    )
        ensures
            (final(self)@, final(effects)@) == ({
                let (state, more) = old(self)@.updating(*now, listing_id);
                (state, old(effects)@ + more)
            }),
    {
        let mut listing = match self.listings.get(&listing_id) {
            Some(listing) => listing.duplicate(),
            None => {
                assert(effects@ =~= old(effects)@ + Seq::<EffectOf<T>>::empty());
                return ;
            },
        };
        // See whether we're here because of application expiry.
        let application_expires = match &listing.application_expiry {
            Some(expiry) => expiry.same(now),
            None => false,
        };
        match listing.challenge_id {
            Some(challenge_id) => {
                // Make sure the challenge is expiring: the listing may have been put down for this
                // block as an application, and have been challenged in the meantime.
                let challenge_expires = match self.challenges.get(&challenge_id) {
                    Some(challenge) => challenge.voting_expiry.same(now),
                    None => false,
                };
                if challenge_expires && !application_expires {
                    self.settle_challenge(listing_id, &mut listing, effects);
                } else {
                    assert(effects@ =~= old(effects)@ + Seq::<EffectOf<T>>::empty());
                }
            },
            None => {
                if application_expires {
                    self.promote_application(listing_id, &mut listing, effects);
                    assert(effects@ =~= old(effects)@ + seq![
                        Effect::Emit(Event::Accepted(listing_id)),
                    ]);
                } else {
                    // Nothing to do. Happens when a challenge was resolved before the application
                    // expiry.
                    assert(effects@ =~= old(effects)@ + Seq::<EffectOf<T>>::empty());
                }
            },
        }
    }

    /// Promotes the applications and resolves the challenges that expire during block `now`.
    /// Gives what is to be announced, released and taken, in this order.
    pub fn on_finalize(&mut self, now: BlockNumberOf<T>) -> (r: Vec<EffectOf<T>>)
        ensures
            (final(self)@, r@) == old(self)@.on_finalize(now),
            old(self)@.well_formed() ==> final(self)@.well_formed(),
    {
        proof {
            if self@.well_formed() {
                crate::finalization::on_finalize_keeps_well_formed(self@, now);
            }
        }
        let mut effects: Vec<EffectOf<T>> = Vec::new();
        let listing_ids: Vec<ListingIdOf<T>> = match self.listings_to_update.take(&now) {
            Some(ids) => ids,
            None => Vec::new(),
        };
        let ghost start = self@;
        assert(start =~= State {
            listings_to_update: old(self)@.listings_to_update.remove(now),
            ..old(self)@
        });
        assert(listing_ids@ =~= old(self)@.to_update(now));
        let mut i: usize = 0;
        while i < listing_ids.len()
            invariant
                i <= listing_ids.len(),
                (self@, effects@) == start.updating_all(now, listing_ids@.take(i as int)),
            decreases listing_ids.len() - i,
        {
            assert(listing_ids@.take(i + 1).drop_last() =~= listing_ids@.take(i as int));
            self.update_listing(&now, listing_ids[i].duplicate(), &mut effects);
            i = i + 1;
        }
        assert(listing_ids@.take(i as int) =~= listing_ids@);
        effects
    }

    /// What is known of a listing; blank where nothing is.
    pub fn listings(&self, listing_id: ListingIdOf<T>) -> (r: ListingDetailOf<T>)
        ensures
            r == self@.listing(listing_id),
            self@.listings.contains_key(listing_id) ==> r == self@.listings[listing_id],
            r.in_registry == self@.registry_contains(listing_id),
            r.in_registry <==> self@.listings.contains_key(listing_id)
                && self@.listings[listing_id].in_registry,
            !self@.listings.contains_key(listing_id) ==> r.application_expiry is None
                && r.challenge_id is None && r.deposit == BalanceOf::<T>::blank() && r.owner
                == AccountIdOf::<T>::blank(),
    {
        match self.listings.get(&listing_id) {
            Some(listing) => listing.duplicate(),
            None => ListingDetail::default(),
        }
    }

    /// An open challenge; blank where there is none of that number.
    pub fn challenges(&self, challenge_id: ChallengeId) -> (r: ChallengeDetailOf<T>)
        ensures
            r@ == self@.challenge_detail(challenge_id),
            self@.challenges.contains_key(challenge_id) ==> r@ == self@.challenges[challenge_id],
            !self@.challenges.contains_key(challenge_id) ==> r.votes@.len() == 0,
    {
        match self.challenges.get(&challenge_id) {
            Some(challenge) => challenge.duplicate(),
            None => ChallengeDetail::default(),
        }
    }

    /// The number that the next challenge will have.
    pub fn next_challenge_id(&self) -> (r: ChallengeId)
        ensures
            r == self@.next_challenge_id,
            r == self.next_challenge_id,
    {
        self.next_challenge_id
    }

    /// The listings that may need a status update in `block`.
    pub fn challenge_expiry(&self, block: BlockNumberOf<T>) -> (r: Vec<ListingIdOf<T>>)
        ensures
            r@ == self@.to_update(block),
            self@.listings_to_update.contains_key(block) ==> r@
                == self@.listings_to_update[block],
            !self@.listings_to_update.contains_key(block) ==> r@.len() == 0,
    {
        let mut copied: Vec<ListingIdOf<T>> = Vec::new();
        if let Some(ids) = self.listings_to_update.get(&block) {
            let mut i: usize = 0;
            while i < ids.len()
                invariant
                    i <= ids.len(),
                    copied@ == ids@.take(i as int),
                decreases ids.len() - i,
            {
                copied.push(ids[i].duplicate());
                assert(copied@ =~= ids@.take(i + 1));
                i = i + 1;
            }
            assert(copied@ =~= ids@);
        }
        copied
    }
}

} // verus!
