//! The records the registry keeps, the requests it takes and the answers it gives.
use vstd::prelude::*;

use crate::numbers::{Amount, Height, Identity};

verus! {

/// The number of a challenge.
pub type ChallengeId = u32;

/// The configuration of a registry: the types it works on, and its parameters. A parameter may
/// change from one call to the next; each request is judged by the values of its own
/// [`Environment`].
pub trait Trait {
    type AccountId: Identity;

    type BlockNumber: Height;

    type Balance: Amount;

    type ListingId: Identity;

    /// The least deposit with which a listing can be proposed.
    fn min_deposit() -> Self::Balance;

    /// For how many blocks an application stays open.
    fn apply_stage_len() -> Self::BlockNumber;

    /// For how many blocks a challenge stays open.
    fn commit_stage_len() -> Self::BlockNumber;
}

/// A listing: an item of the registry, or one that applies to be.
#[derive(Debug, Clone, PartialEq)]
pub struct ListingDetail<Balance, AccountId, BlockNumber> {
    pub deposit: Balance,
    pub owner: AccountId,
    /// The block in which the application succeeds if nobody challenges it before.
    pub application_expiry: Option<BlockNumber>,
    pub in_registry: bool,
    pub challenge_id: Option<ChallengeId>,
}

/// A challenge of a listing, with what both sides have staked.
#[derive(Debug, Clone, PartialEq)]
pub struct ChallengeDetail<ListingId, Balance, AccountId, BlockNumber, Vote> {
    pub listing_id: ListingId,
    pub deposit: Balance,
    pub owner: AccountId,
    /// The block in which the vote is counted.
    pub voting_expiry: BlockNumber,
    pub total_aye: Balance,
    pub total_nay: Balance,
    pub votes: Vec<Vote>,
}

/// One vote in a challenge.
#[derive(Debug, Clone, PartialEq, Default)]
pub struct Vote<AccountId, Balance> {
    pub voter: AccountId,
    /// `true` means: I want this item in the registry. `false` means: I do not want this item in
    /// the registry.
    pub aye_or_nay: bool,
    pub deposit: Balance,
}

/// What a [`ChallengeDetail`] holds, with the votes as a sequence.
#[verifier::ext_equal]
pub struct ChallengeView<ListingId, Balance, AccountId, BlockNumber, Vote> {
    pub listing_id: ListingId,
    pub deposit: Balance,
    pub owner: AccountId,
    pub voting_expiry: BlockNumber,
    pub total_aye: Balance,
    pub total_nay: Balance,
    pub votes: Seq<Vote>,
}

impl<ListingId, Balance, AccountId, BlockNumber, Vote> View for ChallengeDetail<
    ListingId,
    Balance,
    AccountId,
    BlockNumber,
    Vote,
> {
    type V = ChallengeView<ListingId, Balance, AccountId, BlockNumber, Vote>;

    open spec fn view(&self) -> ChallengeView<ListingId, Balance, AccountId, BlockNumber, Vote> {
        ChallengeView {
            listing_id: self.listing_id,
            deposit: self.deposit,
            owner: self.owner,
            voting_expiry: self.voting_expiry,
            total_aye: self.total_aye,
            total_nay: self.total_nay,
            votes: self.votes@,
        }
    }
}

impl<Balance: Identity, AccountId: Identity, BlockNumber: Identity> ListingDetail<
    Balance,
    AccountId,
    BlockNumber,
> {
    /// What is read for a listing that is not known.
    pub open spec fn blank() -> Self {
        ListingDetail {
            deposit: Balance::blank(),
            owner: AccountId::blank(),
            application_expiry: None,
            in_registry: false,
            challenge_id: None,
        }
    }

    pub fn duplicate(&self) -> (r: Self)
        ensures
            r == *self,
    {
        ListingDetail {
            deposit: self.deposit.duplicate(),
            owner: self.owner.duplicate(),
            application_expiry: match &self.application_expiry {
                Some(expiry) => Some(expiry.duplicate()),
                None => None,
            },
            in_registry: self.in_registry,
            challenge_id: self.challenge_id,
        }
    }
}

impl<Balance: Identity, AccountId: Identity, BlockNumber: Identity> Default for ListingDetail<
    Balance,
    AccountId,
    BlockNumber,
> {
    fn default() -> (r: Self)
        ensures
            r == Self::blank(),
    {
        ListingDetail {
            deposit: Balance::blank_value(),
            owner: AccountId::blank_value(),
            application_expiry: None,
            in_registry: false,
            challenge_id: None,
        }
    }
}

impl<AccountId: Identity, Balance: Identity> Vote<AccountId, Balance> {
    pub fn duplicate(&self) -> (r: Self)
        ensures
            r == *self,
    {
        Vote {
            voter: self.voter.duplicate(),
            aye_or_nay: self.aye_or_nay,
            deposit: self.deposit.duplicate(),
        }
    }
}

impl<
    ListingId: Identity,
    Balance: Identity,
    AccountId: Identity,
    BlockNumber: Identity,
> ChallengeDetail<ListingId, Balance, AccountId, BlockNumber, Vote<AccountId, Balance>> {
    /// What is read for a challenge that is not open.
    pub open spec fn blank() -> ChallengeView<
        ListingId,
        Balance,
        AccountId,
        BlockNumber,
        Vote<AccountId, Balance>,
    > {
        ChallengeView {
            listing_id: ListingId::blank(),
            deposit: Balance::blank(),
            owner: AccountId::blank(),
            voting_expiry: BlockNumber::blank(),
            total_aye: Balance::blank(),
            total_nay: Balance::blank(),
            votes: Seq::empty(),
        }
    }

    pub fn duplicate(&self) -> (r: Self)
        ensures
            r@ == self@,
    {
        let mut votes: Vec<Vote<AccountId, Balance>> = Vec::new();
        let mut i: usize = 0;
        while i < self.votes.len()
            invariant
                i <= self.votes.len(),
                votes@ == self.votes@.take(i as int),
            decreases self.votes.len() - i,
        {
            votes.push(self.votes[i].duplicate());
            assert(votes@ =~= self.votes@.take(i + 1));
            i = i + 1;
        }
        assert(votes@ =~= self.votes@);
        ChallengeDetail {
            listing_id: self.listing_id.duplicate(),
            deposit: self.deposit.duplicate(),
            owner: self.owner.duplicate(),
            voting_expiry: self.voting_expiry.duplicate(),
            total_aye: self.total_aye.duplicate(),
            total_nay: self.total_nay.duplicate(),
            votes,
        }
    }
}

impl<
    ListingId: Identity,
    Balance: Identity,
    AccountId: Identity,
    BlockNumber: Identity,
> Default for ChallengeDetail<
    ListingId,
    Balance,
    AccountId,
    BlockNumber,
    Vote<AccountId, Balance>,
> {
    fn default() -> (r: Self)
        ensures
            r@ == Self::blank(),
    {
        ChallengeDetail {
            listing_id: ListingId::blank_value(),
            deposit: Balance::blank_value(),
            owner: AccountId::blank_value(),
            voting_expiry: BlockNumber::blank_value(),
            total_aye: Balance::blank_value(),
            total_nay: Balance::blank_value(),
            votes: Vec::new(),
        }
    }
}

/// Where a request comes from.
#[derive(Debug, Clone, PartialEq)]
pub enum RawOrigin<AccountId> {
    /// The system itself.
    Root,
    /// An account that signed the request.
    Signed(AccountId),
    /// Nobody signed the request.
    Unsigned,
}

/// What a request reads of its surroundings.
pub struct Environment<T: Trait> {
    /// The current block.
    pub now: T::BlockNumber,
    pub min_deposit: T::Balance,
    pub apply_stage_len: T::BlockNumber,
    pub commit_stage_len: T::BlockNumber,
}

impl<T: Trait> Environment<T> {
    /// The surroundings of a request in block `now`, with the parameters that the configuration
    /// gives at the moment: each is a value that its function of the configuration can return.
    pub fn at(now: T::BlockNumber) -> (r: Environment<T>)
        ensures
            r.now == now,
            call_ensures(T::min_deposit, (), r.min_deposit),
            call_ensures(T::apply_stage_len, (), r.apply_stage_len),
            call_ensures(T::commit_stage_len, (), r.commit_stage_len),
    {
        Environment {
            now,
            min_deposit: T::min_deposit(),
            apply_stage_len: T::apply_stage_len(),
            commit_stage_len: T::commit_stage_len(),
        }
    }
}

/// A deposit that has to be reserved before a request can be carried out.
#[derive(Debug, Clone, PartialEq)]
pub struct Reservation<AccountId, Balance> {
    pub who: AccountId,
    pub amount: Balance,
}

/// What the registry announces.
#[derive(Debug, Clone, PartialEq)]
pub enum Event<AccountId, Balance, ListingId> {
    /// A user has proposed a new listing.
    Proposed(AccountId, ListingId, Balance),
    /// A user has challenged a listing. The challenged listing may be already listed, or an
    /// applicant.
    Challenged(AccountId, ListingId, ChallengeId, Balance),
    /// A user cast a vote in an already-existing challenge.
    Voted(AccountId, ChallengeId, bool, Balance),
    /// A challenge has been resolved and the challenged listing included or excluded from the
    /// registry. This does not guarantee that the status of the challenged listing in the
    /// registry has changed. For example, a previously-listed item may have passed the challenge,
    /// or a new applicant may have failed the challenge.
    Resolved(ListingId, bool),
    /// A new, previously un-registered listing has been added to the registry.
    Accepted(ListingId),
    /// A previously-registered listing, or a proposal, has been rejected.
    Rejected(ListingId),
}

/// What is to be done outside the registry, in the order in which it is listed.
#[derive(Debug, Clone, PartialEq)]
pub enum Effect<AccountId, Balance, ListingId> {
    /// Announce the event.
    Emit(Event<AccountId, Balance, ListingId>),
    /// Move the amount from the account's reserved balance to its free balance.
    Unreserve(AccountId, Balance),
    /// Take the amount from the account's balance.
    Slash(AccountId, Balance),
}

/// Why a request is refused.
#[derive(Debug, Clone, Copy, PartialEq, Eq)]
pub enum DispatchError {
    BadOrigin,
    DepositBelowMinimum,
    ListingAlreadyExists,
    ApplicationExpiryOverflow,
    ProposerCannotAfford,
    ListingNotFound,
    AlreadyChallenged,
    OwnListing,
    DepositBelowListing,
    VotingExpiryOverflow,
    ChallengerCannotAfford,
    ListingDoesNotExist,
    NotChallenged,
    VoterCannotAfford,
}

impl DispatchError {
    /// The text that goes with each refusal.
    pub open spec fn text(self) -> Seq<char> {
        match self {
            DispatchError::BadOrigin => "Bad origin"@,
            DispatchError::DepositBelowMinimum => "deposit should be more than min_deposit"@,
            DispatchError::ListingAlreadyExists => "Listing already exists"@,
            DispatchError::ApplicationExpiryOverflow =>
                "Overflow when setting application expiry."@,
            DispatchError::ProposerCannotAfford => "Proposer can't afford deposit"@,
            DispatchError::ListingNotFound => "Listing not found."@,
            DispatchError::AlreadyChallenged => "Listing is already challenged."@,
            DispatchError::OwnListing => "You cannot challenge your own listing."@,
            DispatchError::DepositBelowListing => "Not enough deposit to challenge."@,
            DispatchError::VotingExpiryOverflow => "Overflow when setting voting expiry."@,
            DispatchError::ChallengerCannotAfford => "Challenger can't afford the deposit"@,
            DispatchError::ListingDoesNotExist => "Listing does not exist."@,
            DispatchError::NotChallenged => "Listing is not challenged."@,
            DispatchError::VoterCannotAfford => "Voter can't afford the deposit"@,
        }
    }

    /// The text that goes with the refusal.
    pub fn message(&self) -> (r: &'static str)
        ensures
            r@ == self.text(),
    {
        match self {
            DispatchError::BadOrigin => "Bad origin",
            DispatchError::DepositBelowMinimum => "deposit should be more than min_deposit",
            DispatchError::ListingAlreadyExists => "Listing already exists",
            DispatchError::ApplicationExpiryOverflow => "Overflow when setting application expiry.",
            DispatchError::ProposerCannotAfford => "Proposer can't afford deposit",
            DispatchError::ListingNotFound => "Listing not found.",
            DispatchError::AlreadyChallenged => "Listing is already challenged.",
            DispatchError::OwnListing => "You cannot challenge your own listing.",
            DispatchError::DepositBelowListing => "Not enough deposit to challenge.",
            DispatchError::VotingExpiryOverflow => "Overflow when setting voting expiry.",
            DispatchError::ChallengerCannotAfford => "Challenger can't afford the deposit",
            DispatchError::ListingDoesNotExist => "Listing does not exist.",
            DispatchError::NotChallenged => "Listing is not challenged.",
            DispatchError::VoterCannotAfford => "Voter can't afford the deposit",
        }
    }
}

pub type AccountIdOf<T> = <T as Trait>::AccountId;

pub type BalanceOf<T> = <T as Trait>::Balance;

pub type BlockNumberOf<T> = <T as Trait>::BlockNumber;

pub type ListingIdOf<T> = <T as Trait>::ListingId;

pub type ListingDetailOf<T> = ListingDetail<BalanceOf<T>, AccountIdOf<T>, BlockNumberOf<T>>;

pub type VoteOf<T> = Vote<AccountIdOf<T>, BalanceOf<T>>;

pub type ChallengeDetailOf<T> = ChallengeDetail<
    ListingIdOf<T>,
    BalanceOf<T>,
    AccountIdOf<T>,
    BlockNumberOf<T>,
    VoteOf<T>,
>;

pub type ChallengeViewOf<T> = ChallengeView<
    ListingIdOf<T>,
    BalanceOf<T>,
    AccountIdOf<T>,
    BlockNumberOf<T>,
    VoteOf<T>,
>;

pub type ReservationOf<T> = Reservation<AccountIdOf<T>, BalanceOf<T>>;

pub type EventOf<T> = Event<AccountIdOf<T>, BalanceOf<T>, ListingIdOf<T>>;

pub type EffectOf<T> = Effect<AccountIdOf<T>, BalanceOf<T>, ListingIdOf<T>>;

} // verus!
