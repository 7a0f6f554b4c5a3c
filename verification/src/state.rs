//! The registry as a mathematical value, and what each request makes of it.
use vstd::prelude::*;

use crate::numbers::Quantity;
use crate::types::{
    AccountIdOf, BalanceOf, BlockNumberOf, ChallengeDetailOf, ChallengeId, ChallengeView,
    ChallengeViewOf, DispatchError, Effect, EffectOf, Environment, Event, EventOf, ListingDetail,
    ListingDetailOf, ListingIdOf, RawOrigin, Trait, Vote,
};

verus! {

/// Everything the registry remembers.
#[verifier::ext_equal]
#[verifier::reject_recursive_types(T)]
pub struct State<T: Trait> {
    /// All listings and applicants known to the registry. Inclusion in this map is NOT the same
    /// as listing in the registry, because this map also holds new applicants (some of which are
    /// challenged).
    pub listings: Map<ListingIdOf<T>, ListingDetailOf<T>>,
    /// All currently open challenges.
    pub challenges: Map<ChallengeId, ChallengeViewOf<T>>,
    /// The first unused challenge id. Will become the id of the next challenge when it is open.
    pub next_challenge_id: ChallengeId,
    /// The listings that may need a status update, by the block in which they may need it. Not
    /// all entries in this map will actually need an update. For example, an application that has
    /// been challenged will not actually be updated at its original application expiry.
    pub listings_to_update: Map<BlockNumberOf<T>, Seq<ListingIdOf<T>>>,
}

/// What is released and what is taken of the votes of a resolved challenge: every stake is
/// released, and the stakes on the losing side are taken.
pub open spec fn vote_effects<A, B, L>(votes: Seq<Vote<A, B>>, listing_is_good: bool) -> Seq<
    Effect<A, B, L>,
>
    decreases votes.len(),
{
    if votes.len() == 0 {
        Seq::empty()
    } else {
        let vote = votes.last();
        let released = vote_effects::<A, B, L>(votes.drop_last(), listing_is_good).push(
            Effect::Unreserve(vote.voter, vote.deposit),
        );
        if vote.aye_or_nay != listing_is_good {
            released.push(Effect::Slash(vote.voter, vote.deposit))
        } else {
            released
        }
    }
}

/// The listing survives the challenge: more was staked for it than against it.
pub open spec fn passes<L, B: Quantity, A, N, V>(challenge: ChallengeView<L, B, A, N, V>) -> bool {
    challenge.total_aye.value() > challenge.total_nay.value()
}

impl<T: Trait> State<T> {
    /// The registry before the first request.
    pub open spec fn initial() -> Self {
        State {
            listings: Map::empty(),
            challenges: Map::empty(),
            next_challenge_id: 0,
            listings_to_update: Map::empty(),
        }
    }

    /// A listing as it is read: blank where it is not known.
    pub open spec fn listing(self, id: ListingIdOf<T>) -> ListingDetailOf<T> {
        if self.listings.contains_key(id) {
            self.listings[id]
        } else {
            ListingDetailOf::<T>::blank()
        }
    }

    /// A challenge as it is read: blank where it is not open.
    pub open spec fn challenge_detail(self, id: ChallengeId) -> ChallengeViewOf<T> {
        if self.challenges.contains_key(id) {
            self.challenges[id]
        } else {
            ChallengeDetailOf::<T>::blank()
        }
    }

    /// The listings that may need a status update in `block`.
    pub open spec fn to_update(self, block: BlockNumberOf<T>) -> Seq<ListingIdOf<T>> {
        if self.listings_to_update.contains_key(block) {
            self.listings_to_update[block]
        } else {
            Seq::empty()
        }
    }

    /// The item is listed in the registry.
    pub open spec fn registry_contains(self, id: ListingIdOf<T>) -> bool {
        self.listings.contains_key(id) && self.listings[id].in_registry
    }

    /// `id` is put down for a status update in `block`.
    pub open spec fn scheduling(self, block: BlockNumberOf<T>, id: ListingIdOf<T>) -> Self {
        State {
            listings_to_update: self.listings_to_update.insert(
                block,
                self.to_update(block).push(id),
            ),
            ..self
        }
    }

    /// Why a proposal is refused before its deposit is reserved, if it is.
    pub open spec fn propose_refusal(
        self,
        env: Environment<T>,
        origin: RawOrigin<AccountIdOf<T>>,
        id: ListingIdOf<T>,
        deposit: BalanceOf<T>,
    ) -> Option<DispatchError> {
        if !(origin is Signed) {
            Some(DispatchError::BadOrigin)
        } else if deposit.value() < env.min_deposit.value() {
            Some(DispatchError::DepositBelowMinimum)
        } else if self.listings.contains_key(id) {
            Some(DispatchError::ListingAlreadyExists)
        } else if crate::numbers::later(env.now, env.apply_stage_len) is None {
            Some(DispatchError::ApplicationExpiryOverflow)
        } else {
            None
        }
    }

    /// The registry after `who` has proposed `id`: an application that expires when the apply
    /// stage is over.
    pub open spec fn proposing(
        self,
        env: Environment<T>,
        who: AccountIdOf<T>,
        id: ListingIdOf<T>,
        deposit: BalanceOf<T>,
    ) -> Self {
        let expiry = crate::numbers::later(env.now, env.apply_stage_len)->0;
        let listing = ListingDetail {
            deposit,
            owner: who,
            application_expiry: Some(expiry),
            in_registry: false,
            challenge_id: None,
        };
        State { listings: self.listings.insert(id, listing), ..self }.scheduling(expiry, id)
    }

    /// A proposal and its answer. `reserved` says whether the proposer's deposit was reserved,
    /// and is looked at only where nothing else stands against the proposal.
    pub open spec fn propose(
        self,
        env: Environment<T>,
        origin: RawOrigin<AccountIdOf<T>>,
        id: ListingIdOf<T>,
        deposit: BalanceOf<T>,
        reserved: bool,
    ) -> (Self, Result<EventOf<T>, DispatchError>) {
        match self.propose_refusal(env, origin, id, deposit) {
            Some(refusal) => (self, Err(refusal)),
            None => if reserved {
                let who = origin->Signed_0;
                (self.proposing(env, who, id, deposit), Ok(Event::Proposed(who, id, deposit)))
            } else {
                (self, Err(DispatchError::ProposerCannotAfford))
            },
        }
    }

    /// Why a challenge is refused before its deposit is reserved, if it is.
    pub open spec fn challenge_refusal(
        self,
        env: Environment<T>,
        origin: RawOrigin<AccountIdOf<T>>,
        id: ListingIdOf<T>,
        deposit: BalanceOf<T>,
    ) -> Option<DispatchError> {
        let listing = self.listings[id];
        if !(origin is Signed) {
            Some(DispatchError::BadOrigin)
        } else if !self.listings.contains_key(id) {
            Some(DispatchError::ListingNotFound)
        } else if listing.challenge_id is Some {
            Some(DispatchError::AlreadyChallenged)
        } else if listing.owner == origin->Signed_0 {
            Some(DispatchError::OwnListing)
        } else if deposit.value() < listing.deposit.value() {
            Some(DispatchError::DepositBelowListing)
        } else if crate::numbers::later(env.now, env.commit_stage_len) is None {
            Some(DispatchError::VotingExpiryOverflow)
        } else {
            None
        }
    }

    /// The registry after `who` has challenged `id`: a challenge in which the two deposits are
    /// the first stakes, counted when the commit stage is over. If the listing was an
    /// unchallenged application, that is now irrelevant.
    pub open spec fn challenging(
        self,
        env: Environment<T>,
        who: AccountIdOf<T>,
        id: ListingIdOf<T>,
        deposit: BalanceOf<T>,
    ) -> Self {
        let expiry = crate::numbers::later(env.now, env.commit_stage_len)->0;
        let number = self.next_challenge_id;
        let listing = self.listings[id];
        let challenge = ChallengeView {
            listing_id: id,
            deposit,
            owner: who,
            voting_expiry: expiry,
            total_aye: listing.deposit,
            total_nay: deposit,
            votes: Seq::empty(),
        };
        State {
            listings: self.listings.insert(
                id,
                ListingDetail {
                    application_expiry: None,
                    challenge_id: Some(number),
                    ..listing
                },
            ),
            challenges: self.challenges.insert(number, challenge),
            next_challenge_id: (number + 1) as ChallengeId,
            ..self
        }.scheduling(expiry, id)
    }

    /// A challenge and its answer. `reserved` says whether the challenger's deposit was reserved,
    /// and is looked at only where nothing else stands against the challenge.
    pub open spec fn challenge(
        self,
        env: Environment<T>,
        origin: RawOrigin<AccountIdOf<T>>,
        id: ListingIdOf<T>,
        deposit: BalanceOf<T>,
        reserved: bool,
    ) -> (Self, Result<EventOf<T>, DispatchError>) {
        match self.challenge_refusal(env, origin, id, deposit) {
            Some(refusal) => (self, Err(refusal)),
            None => if reserved {
                let who = origin->Signed_0;
                (
                    self.challenging(env, who, id, deposit),
                    Ok(Event::Challenged(who, id, self.next_challenge_id, deposit)),
                )
            } else {
                (self, Err(DispatchError::ChallengerCannotAfford))
            },
        }
    }

    /// Why a vote is refused before its deposit is reserved, if it is.
    pub open spec fn vote_refusal(
        self,
        origin: RawOrigin<AccountIdOf<T>>,
        id: ListingIdOf<T>,
    ) -> Option<DispatchError> {
        if !(origin is Signed) {
            Some(DispatchError::BadOrigin)
        } else if !self.listings.contains_key(id) {
            Some(DispatchError::ListingDoesNotExist)
        } else if self.listings[id].challenge_id is None {
            Some(DispatchError::NotChallenged)
        } else {
            None
        }
    }

    /// The total that a vote on `id` adds to.
    pub open spec fn vote_total(self, id: ListingIdOf<T>, aye: bool) -> BalanceOf<T> {
        let challenge = self.challenge_detail(self.listings[id].challenge_id->0);
        if aye {
            challenge.total_aye
        } else {
            challenge.total_nay
        }
    }

    /// The registry after `who` has voted on `id`.
    pub open spec fn voting(
        self,
        who: AccountIdOf<T>,
        id: ListingIdOf<T>,
        aye: bool,
        deposit: BalanceOf<T>,
    ) -> Self {
        let number = self.listings[id].challenge_id->0;
        let challenge = self.challenge_detail(number);
        let total = crate::numbers::plus(self.vote_total(id, aye), deposit);
        let votes = challenge.votes.push(Vote { voter: who, aye_or_nay: aye, deposit });
        let counted = if aye {
            ChallengeView { total_aye: total, votes, ..challenge }
        } else {
            ChallengeView { total_nay: total, votes, ..challenge }
        };
        State { challenges: self.challenges.insert(number, counted), ..self }
    }

    /// A vote and its answer. `reserved` says whether the voter's deposit was reserved, and is
    /// looked at only where nothing else stands against the vote.
    pub open spec fn vote(
        self,
        origin: RawOrigin<AccountIdOf<T>>,
        id: ListingIdOf<T>,
        aye: bool,
        deposit: BalanceOf<T>,
        reserved: bool,
    ) -> (Self, Result<EventOf<T>, DispatchError>) {
        match self.vote_refusal(origin, id) {
            Some(refusal) => (self, Err(refusal)),
            None => if reserved {
                let who = origin->Signed_0;
                (
                    self.voting(who, id, aye, deposit),
                    Ok(Event::Voted(who, self.listings[id].challenge_id->0, aye, deposit)),
                )
            } else {
                (self, Err(DispatchError::VoterCannotAfford))
            },
        }
    }

    /// The registry after an unchallenged application has succeeded.
    pub open spec fn promoting(self, id: ListingIdOf<T>, listing: ListingDetailOf<T>) -> Self {
        State {
            listings: self.listings.insert(
                id,
                ListingDetail { application_expiry: None, in_registry: true, ..listing },
            ),
            ..self
        }
    }

    /// The registry after the challenge with number `number` of `listing` has been resolved: the
    /// listing enters the registry, or is forgotten, and the challenge is no longer open.
    pub open spec fn settling(
        self,
        id: ListingIdOf<T>,
        listing: ListingDetailOf<T>,
        number: ChallengeId,
    ) -> Self {
        let challenge = self.challenge_detail(number);
        State {
            listings: if passes(challenge) {
                self.listings.insert(
                    id,
                    ListingDetail { in_registry: true, challenge_id: None, ..listing },
                )
            } else {
                self.listings.remove(challenge.listing_id)
            },
            challenges: self.challenges.remove(number),
            ..self
        }
    }

    /// What the resolution of a challenge announces, and what it releases and takes of the two
    /// deposits.
    pub open spec fn verdict(
        listing: ListingDetailOf<T>,
        challenge: ChallengeViewOf<T>,
    ) -> Seq<EffectOf<T>> {
        let id = challenge.listing_id;
        if passes(challenge) {
            let against = seq![
                Effect::Emit(Event::Resolved(id, true)),
                Effect::Unreserve(challenge.owner, challenge.deposit),
                Effect::Slash(challenge.owner, challenge.deposit),
            ];
            if listing.in_registry {
                against
            } else {
                against.push(Effect::Emit(Event::Accepted(id)))
            }
        } else {
            seq![
                Effect::Emit(Event::Resolved(id, false)),
                Effect::Unreserve(listing.owner, listing.deposit),
                Effect::Slash(listing.owner, listing.deposit),
                Effect::Unreserve(challenge.owner, challenge.deposit),
                Effect::Emit(Event::Rejected(id)),
            ]
        }
    }

    /// What the resolution of a challenge announces, releases and takes.
    pub open spec fn settlement(
        listing: ListingDetailOf<T>,
        challenge: ChallengeViewOf<T>,
    ) -> Seq<EffectOf<T>> {
        Self::verdict(listing, challenge) + vote_effects(challenge.votes, passes(challenge))
    }

    /// The application of `id` goes through in block `now`: it expires then and nobody has
    /// challenged it.
    pub open spec fn promoted_at(self, now: BlockNumberOf<T>, id: ListingIdOf<T>) -> bool {
        &&& self.listings.contains_key(id)
        &&& self.listings[id].application_expiry == Some(now)
        &&& self.listings[id].challenge_id is None
    }

    /// The challenge of `id` is resolved in block `now`: its vote is counted then.
    pub open spec fn settled_at(self, now: BlockNumberOf<T>, id: ListingIdOf<T>) -> bool {
        &&& self.listings.contains_key(id)
        &&& self.listings[id].application_expiry != Some(now)
        &&& self.listings[id].challenge_id is Some
        &&& self.challenges.contains_key(self.listings[id].challenge_id->0)
        &&& self.challenges[self.listings[id].challenge_id->0].voting_expiry == now
    }

    /// The status update of one listing, with its effects.
    pub open spec fn updating(self, now: BlockNumberOf<T>, id: ListingIdOf<T>) -> (
        Self,
        Seq<EffectOf<T>>,
    ) {
        let listing = self.listings[id];
        if self.promoted_at(now, id) {
            (self.promoting(id, listing), seq![Effect::Emit(Event::Accepted(id))])
        } else if self.settled_at(now, id) {
            let number = listing.challenge_id->0;
            (
                self.settling(id, listing, number),
                Self::settlement(listing, self.challenges[number]),
            )
        } else {
            (self, Seq::empty())
        }
    }

    /// The status updates of several listings, one after the other.
    pub open spec fn updating_all(self, now: BlockNumberOf<T>, ids: Seq<ListingIdOf<T>>) -> (
        Self,
        Seq<EffectOf<T>>,
    )
        decreases ids.len(),
    {
        if ids.len() == 0 {
            (self, Seq::empty())
        } else {
            let (before, effects) = self.updating_all(now, ids.drop_last());
            let (after, more) = before.updating(now, ids.last());
            (after, effects + more)
        }
    }

    /// The end of block `now`: the listings put down for it are updated, and it needs no update
    /// any more.
    pub open spec fn on_finalize(self, now: BlockNumberOf<T>) -> (Self, Seq<EffectOf<T>>) {
        State {
            listings_to_update: self.listings_to_update.remove(now),
            ..self
        }.updating_all(now, self.to_update(now))
    }
}

} // verus!
