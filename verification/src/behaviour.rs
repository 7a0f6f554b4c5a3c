//! What each request, each block and each reading does, told by what is stored and what is
//! answered.
use vstd::prelude::*;

use crate::module::Module;
use crate::numbers::{Identity, Quantity};
use crate::state::State;
use crate::types::{
    AccountIdOf, BalanceOf, BlockNumberOf, ChallengeDetailOf, ChallengeId, ChallengeViewOf,
    DispatchError, Effect, EffectOf, Environment, Event, EventOf, ListingDetail, ListingDetailOf, ListingIdOf, RawOrigin,
    Trait, Vote, VoteOf,
};

verus! {

/// A proposal is refused before its deposit is reserved if and only if it is not signed, offers
/// less than the minimum deposit, is for a listing that is known, or would expire after the last
/// block number. Of several reasons the first of these is given.
pub proof fn proposals_are_refused_for_a_reason<T: Trait>(
    s: State<T>,
    env: Environment<T>,
    origin: RawOrigin<AccountIdOf<T>>,
    id: ListingIdOf<T>,
    deposit: BalanceOf<T>,
)
    ensures
        ({
            let signed = origin is Signed;
            let enough = deposit.value() >= env.min_deposit.value();
            let new = !s.listings.contains_key(id);
            let fits = env.now.value() + env.apply_stage_len.value()
                <= BlockNumberOf::<T>::limit();
            let refusal = s.propose_refusal(env, origin, id, deposit);
            &&& refusal is None <==> signed && enough && new && fits
            &&& refusal == Some(DispatchError::BadOrigin) <==> !signed
            &&& refusal == Some(DispatchError::DepositBelowMinimum) <==> signed && !enough
            &&& refusal == Some(DispatchError::ListingAlreadyExists) <==> signed && enough && !new
            &&& refusal == Some(DispatchError::ApplicationExpiryOverflow) <==> signed && enough
                && new && !fits
        }),
{
}

/// A proposal is carried out if and only if it is signed, offers at least the minimum deposit, is
/// for a listing that is not known, expires in some block, and its deposit was reserved. Each
/// answer comes for its own reason alone.
pub proof fn proposals_are_answered<T: Trait>(
    s: State<T>,
    env: Environment<T>,
    origin: RawOrigin<AccountIdOf<T>>,
    id: ListingIdOf<T>,
    deposit: BalanceOf<T>,
    reserved: bool,
)
    ensures
        ({
            let signed = origin is Signed;
            let enough = deposit.value() >= env.min_deposit.value();
            let new = !s.listings.contains_key(id);
            let fits = env.now.value() + env.apply_stage_len.value()
                <= BlockNumberOf::<T>::limit();
            let (after, answer) = s.propose(env, origin, id, deposit, reserved);
            &&& answer is Ok <==> signed && enough && new && fits && reserved
            &&& answer matches Ok(event) ==> event == EventOf::<T>::Proposed(origin->Signed_0, id, deposit)
            &&& answer is Err ==> after == s
            &&& !signed ==> answer == Err::<EventOf<T>, DispatchError>(DispatchError::BadOrigin)
            &&& signed && !enough ==> answer == Err::<EventOf<T>, DispatchError>(
                DispatchError::DepositBelowMinimum,
            )
            &&& signed && enough && !new ==> answer == Err::<EventOf<T>, DispatchError>(
                DispatchError::ListingAlreadyExists,
            )
            &&& signed && enough && new && !fits ==> answer == Err::<EventOf<T>, DispatchError>(
                DispatchError::ApplicationExpiryOverflow,
            )
            &&& signed && enough && new && fits && !reserved ==> answer == Err::<
                EventOf<T>,
                DispatchError,
            >(DispatchError::ProposerCannotAfford)
        }),
{
}

/// A proposal that is carried out stores one listing: the proposer's, with the deposit offered, not
/// in the registry, not challenged, and expiring when the apply stage is over. It is put down for
/// that block, after what was put down for it before. Nothing else changes.
pub proof fn proposals_store_one_application<T: Trait>(
    s: State<T>,
    env: Environment<T>,
    origin: RawOrigin<AccountIdOf<T>>,
    id: ListingIdOf<T>,
    deposit: BalanceOf<T>,
    reserved: bool,
    expiry: BlockNumberOf<T>,
)
    requires
        s.propose(env, origin, id, deposit, reserved).1 is Ok,
        expiry.value() == env.now.value() + env.apply_stage_len.value(),
    ensures
        ({
            let after = s.propose(env, origin, id, deposit, reserved).0;
            let listing = after.listings[id];
            &&& after.listings.contains_key(id)
            &&& RawOrigin::Signed(listing.owner) == origin
            &&& listing.deposit == deposit
            &&& listing.application_expiry == Some(expiry)
            &&& !listing.in_registry
            &&& listing.challenge_id is None
            &&& after.listings.remove(id) == s.listings.remove(id)
            &&& after.challenges == s.challenges
            &&& after.next_challenge_id == s.next_challenge_id
            &&& after.listings_to_update.contains_key(expiry)
            &&& after.listings_to_update[expiry] == (if s.listings_to_update.contains_key(expiry) {
                s.listings_to_update[expiry]
            } else {
                Seq::empty()
            }).push(id)
            &&& after.listings_to_update.remove(expiry) == s.listings_to_update.remove(expiry)
        }),
{
    let after = s.propose(env, origin, id, deposit, reserved).0;
    expiry.lemma_value();
    assert(after.listings.remove(id) =~= s.listings.remove(id));
    assert(after.listings_to_update.remove(expiry) =~= s.listings_to_update.remove(expiry));
}

/// A challenge is refused before its deposit is reserved if and only if it is not signed, the
/// listing is not known, it is challenged already, the signer owns it, less is offered than the
/// listing's deposit, or the vote would be counted after the last block number. Of several reasons
/// the first of these is given.
pub proof fn challenges_are_refused_for_a_reason<T: Trait>(
    s: State<T>,
    env: Environment<T>,
    origin: RawOrigin<AccountIdOf<T>>,
    id: ListingIdOf<T>,
    deposit: BalanceOf<T>,
)
    ensures
        ({
            let signed = origin is Signed;
            let known = s.listings.contains_key(id);
            let free = s.listings[id].challenge_id is None;
            let foreign = RawOrigin::Signed(s.listings[id].owner) != origin;
            let enough = deposit.value() >= s.listings[id].deposit.value();
            let fits = env.now.value() + env.commit_stage_len.value()
                <= BlockNumberOf::<T>::limit();
            let refusal = s.challenge_refusal(env, origin, id, deposit);
            &&& refusal is None <==> signed && known && free && foreign && enough && fits
            &&& refusal == Some(DispatchError::BadOrigin) <==> !signed
            &&& refusal == Some(DispatchError::ListingNotFound) <==> signed && !known
            &&& refusal == Some(DispatchError::AlreadyChallenged) <==> signed && known && !free
            &&& refusal == Some(DispatchError::OwnListing) <==> signed && known && free && !foreign
            &&& refusal == Some(DispatchError::DepositBelowListing) <==> signed && known && free
                && foreign && !enough
            &&& refusal == Some(DispatchError::VotingExpiryOverflow) <==> signed && known && free
                && foreign && enough && !fits
        }),
{
}

/// A challenge is carried out if and only if it is signed by another account than the owner, the
/// listing is known and not challenged, at least its deposit is offered, the vote is counted in
/// some block, and the deposit was reserved. Whether the listing is in the registry or applies to
/// be plays no part. Each answer comes for its own reason alone.
pub proof fn challenges_are_answered<T: Trait>(
    s: State<T>,
    env: Environment<T>,
    origin: RawOrigin<AccountIdOf<T>>,
    id: ListingIdOf<T>,
    deposit: BalanceOf<T>,
    reserved: bool,
)
    ensures
        ({
            let signed = origin is Signed;
            let known = s.listings.contains_key(id);
            let free = s.listings[id].challenge_id is None;
            let foreign = RawOrigin::Signed(s.listings[id].owner) != origin;
            let enough = deposit.value() >= s.listings[id].deposit.value();
            let fits = env.now.value() + env.commit_stage_len.value()
                <= BlockNumberOf::<T>::limit();
            let (after, answer) = s.challenge(env, origin, id, deposit, reserved);
            &&& answer is Ok <==> signed && known && free && foreign && enough && fits && reserved
            &&& answer matches Ok(event) ==> event == EventOf::<T>::Challenged(origin->Signed_0, id, s.next_challenge_id, deposit)
            &&& answer is Err ==> after == s
            &&& !signed ==> answer == Err::<EventOf<T>, DispatchError>(DispatchError::BadOrigin)
            &&& signed && !known ==> answer == Err::<EventOf<T>, DispatchError>(
                DispatchError::ListingNotFound,
            )
            &&& signed && known && !free ==> answer == Err::<EventOf<T>, DispatchError>(
                DispatchError::AlreadyChallenged,
            )
            &&& signed && known && free && !foreign ==> answer == Err::<EventOf<T>, DispatchError>(
                DispatchError::OwnListing,
            )
            &&& signed && known && free && foreign && !enough ==> answer == Err::<
                EventOf<T>,
                DispatchError,
            >(DispatchError::DepositBelowListing)
            &&& signed && known && free && foreign && enough && !fits ==> answer == Err::<
                EventOf<T>,
                DispatchError,
            >(DispatchError::VotingExpiryOverflow)
            &&& signed && known && free && foreign && enough && fits && !reserved ==> answer
                == Err::<EventOf<T>, DispatchError>(DispatchError::ChallengerCannotAfford)
        }),
{
}

/// A challenge that is carried out opens one challenge, under the number that was next: the
/// signer's, of the listing asked for, with the deposit offered, counted when the commit stage is
/// over, with the two deposits as the first stakes and no votes. The listing is no application any
/// more and names the challenge; its owner, its deposit and its place in the registry stay. It is
/// put down for the block in which the vote is counted, after what was put down for that before.
/// The next number is one more. Nothing else changes.
pub proof fn challenges_open_one_challenge<T: Trait>(
    s: State<T>,
    env: Environment<T>,
    origin: RawOrigin<AccountIdOf<T>>,
    id: ListingIdOf<T>,
    deposit: BalanceOf<T>,
    reserved: bool,
    expiry: BlockNumberOf<T>,
)
    requires
        s.challenge(env, origin, id, deposit, reserved).1 is Ok,
        s.next_challenge_id < ChallengeId::MAX,
        expiry.value() == env.now.value() + env.commit_stage_len.value(),
    ensures
        ({
            let after = s.challenge(env, origin, id, deposit, reserved).0;
            let number = s.next_challenge_id;
            let listing = after.listings[id];
            let challenge = after.challenges[number];
            &&& after.listings.contains_key(id)
            &&& listing.owner == s.listings[id].owner
            &&& listing.deposit == s.listings[id].deposit
            &&& listing.in_registry == s.listings[id].in_registry
            &&& listing.application_expiry is None
            &&& listing.challenge_id == Some(number)
            &&& after.listings.remove(id) == s.listings.remove(id)
            &&& after.challenges.contains_key(number)
            &&& challenge.listing_id == id
            &&& challenge.deposit == deposit
            &&& RawOrigin::Signed(challenge.owner) == origin
            &&& challenge.voting_expiry == expiry
            &&& challenge.total_aye == s.listings[id].deposit
            &&& challenge.total_nay == deposit
            &&& challenge.votes.len() == 0
            &&& after.challenges.remove(number) == s.challenges.remove(number)
            &&& after.next_challenge_id == number + 1
            &&& after.listings_to_update.contains_key(expiry)
            &&& after.listings_to_update[expiry] == (if s.listings_to_update.contains_key(expiry) {
                s.listings_to_update[expiry]
            } else {
                Seq::empty()
            }).push(id)
            &&& after.listings_to_update.remove(expiry) == s.listings_to_update.remove(expiry)
        }),
{
    let after = s.challenge(env, origin, id, deposit, reserved).0;
    let number = s.next_challenge_id;
    expiry.lemma_value();
    assert(after.listings.remove(id) =~= s.listings.remove(id));
    assert(after.challenges.remove(number) =~= s.challenges.remove(number));
    assert(after.listings_to_update.remove(expiry) =~= s.listings_to_update.remove(expiry));
}

/// A vote is refused before its deposit is reserved if and only if it is not signed, the listing is
/// not known, or it is not challenged. Of several reasons the first of these is given.
pub proof fn votes_are_refused_for_a_reason<T: Trait>(
    s: State<T>,
    origin: RawOrigin<AccountIdOf<T>>,
    id: ListingIdOf<T>,
)
    ensures
        ({
            let signed = origin is Signed;
            let known = s.listings.contains_key(id);
            let challenged = s.listings[id].challenge_id is Some;
            let refusal = s.vote_refusal(origin, id);
            &&& refusal is None <==> signed && known && challenged
            &&& refusal == Some(DispatchError::BadOrigin) <==> !signed
            &&& refusal == Some(DispatchError::ListingDoesNotExist) <==> signed && !known
            &&& refusal == Some(DispatchError::NotChallenged) <==> signed && known && !challenged
        }),
{
}

/// A vote is carried out if and only if it is signed, the listing is known and challenged, and the
/// deposit was reserved: whoever votes, however much, on whichever side, and however many votes
/// there are. Each answer comes for its own reason alone. A vote that is carried out is announced
/// with the signer, the number of the challenge, the side asked for and the deposit.
pub proof fn votes_are_answered<T: Trait>(
    s: State<T>,
    origin: RawOrigin<AccountIdOf<T>>,
    id: ListingIdOf<T>,
    aye: bool,
    deposit: BalanceOf<T>,
    reserved: bool,
)
    ensures
        ({
            let signed = origin is Signed;
            let known = s.listings.contains_key(id);
            let challenged = s.listings[id].challenge_id is Some;
            let (after, answer) = s.vote(origin, id, aye, deposit, reserved);
            &&& answer is Ok <==> signed && known && challenged && reserved
            &&& answer matches Ok(event) ==> event == EventOf::<T>::Voted(origin->Signed_0, s.listings[id].challenge_id->0, aye, deposit)
            &&& answer is Err ==> after == s
            &&& !signed ==> answer == Err::<EventOf<T>, DispatchError>(DispatchError::BadOrigin)
            &&& signed && !known ==> answer == Err::<EventOf<T>, DispatchError>(
                DispatchError::ListingDoesNotExist,
            )
            &&& signed && known && !challenged ==> answer == Err::<EventOf<T>, DispatchError>(
                DispatchError::NotChallenged,
            )
            &&& signed && known && challenged && !reserved ==> answer == Err::<
                EventOf<T>,
                DispatchError,
            >(DispatchError::VoterCannotAfford)
        }),
{
}

/// The room that a vote needs is room in the total of the side asked for, which is blank where no
/// challenge is open.
pub proof fn votes_need_room_on_their_side<T: Trait>(s: State<T>, id: ListingIdOf<T>)
    ensures
        ({
            let number = s.listings[id].challenge_id->0;
            if s.challenges.contains_key(number) {
                &&& s.vote_total(id, true) == s.challenges[number].total_aye
                &&& s.vote_total(id, false) == s.challenges[number].total_nay
            } else {
                &&& s.vote_total(id, true) == BalanceOf::<T>::blank()
                &&& s.vote_total(id, false) == BalanceOf::<T>::blank()
            }
        }),
{
}

/// A vote that is carried out appends one vote to the challenge that is open on the listing. It
/// holds the signer, the side asked for and the deposit, and the announcement tells the same. The
/// total of that side grows by the deposit, and the other total stays. Nothing else changes.
pub proof fn votes_append_one_vote<T: Trait>(
    s: State<T>,
    origin: RawOrigin<AccountIdOf<T>>,
    id: ListingIdOf<T>,
    aye: bool,
    deposit: BalanceOf<T>,
    reserved: bool,
)
    requires
        s.vote(origin, id, aye, deposit, reserved).1 is Ok,
        s.challenges.contains_key(s.listings[id].challenge_id->0),
        aye ==> s.challenges[s.listings[id].challenge_id->0].total_aye.value() + deposit.value()
            <= BalanceOf::<T>::limit(),
        !aye ==> s.challenges[s.listings[id].challenge_id->0].total_nay.value() + deposit.value()
            <= BalanceOf::<T>::limit(),
    ensures
        ({
            let (after, answer) = s.vote(origin, id, aye, deposit, reserved);
            let number = s.listings[id].challenge_id->0;
            let before = s.challenges[number];
            let challenge = after.challenges[number];
            &&& origin matches RawOrigin::Signed(voter) && challenge.votes == before.votes.push(
                Vote { voter, aye_or_nay: aye, deposit },
            )
            &&& answer matches Ok(Event::Voted(voter, told, side, amount)) && {
                &&& told == number
                &&& voter == challenge.votes.last().voter
                &&& side == challenge.votes.last().aye_or_nay
                &&& amount == challenge.votes.last().deposit
            }
            &&& aye ==> challenge.total_aye.value() == before.total_aye.value() + deposit.value()
                && challenge.total_nay == before.total_nay
            &&& !aye ==> challenge.total_nay.value() == before.total_nay.value() + deposit.value()
                && challenge.total_aye == before.total_aye
            &&& challenge.listing_id == before.listing_id
            &&& challenge.deposit == before.deposit
            &&& challenge.owner == before.owner
            &&& challenge.voting_expiry == before.voting_expiry
            &&& after.challenges.contains_key(number)
            &&& after.challenges.remove(number) == s.challenges.remove(number)
            &&& after.listings == s.listings
            &&& after.next_challenge_id == s.next_challenge_id
            &&& after.listings_to_update == s.listings_to_update
        }),
{
    let after = s.vote(origin, id, aye, deposit, reserved).0;
    let number = s.listings[id].challenge_id->0;
    let before = s.challenges[number];
    if aye {
        BalanceOf::<T>::lemma_of(before.total_aye.value() + deposit.value());
    } else {
        BalanceOf::<T>::lemma_of(before.total_nay.value() + deposit.value());
    }
    assert(after.challenges.remove(number) =~= s.challenges.remove(number));
}

/// Where a listing names a challenge that is not open, which a well-formed registry rules out, a
/// vote starts from a blank challenge.
pub proof fn votes_start_from_blank_where_none_is_open<T: Trait>(
    s: State<T>,
    origin: RawOrigin<AccountIdOf<T>>,
    id: ListingIdOf<T>,
    aye: bool,
    deposit: BalanceOf<T>,
    reserved: bool,
)
    requires
        s.vote(origin, id, aye, deposit, reserved).1 is Ok,
        !s.challenges.contains_key(s.listings[id].challenge_id->0),
        BalanceOf::<T>::blank().value() + deposit.value() <= BalanceOf::<T>::limit(),
    ensures
        ({
            let after = s.vote(origin, id, aye, deposit, reserved).0;
            let number = s.listings[id].challenge_id->0;
            let challenge = after.challenges[number];
            let blank = BalanceOf::<T>::blank();
            let (total, other) = if aye {
                (challenge.total_aye, challenge.total_nay)
            } else {
                (challenge.total_nay, challenge.total_aye)
            };
            &&& origin matches RawOrigin::Signed(voter) && challenge.votes == seq![
                Vote { voter, aye_or_nay: aye, deposit },
            ]
            &&& total.value() == blank.value() + deposit.value()
            &&& other == blank
            &&& challenge.listing_id == ListingIdOf::<T>::blank()
            &&& challenge.deposit == blank
            &&& challenge.owner == AccountIdOf::<T>::blank()
            &&& challenge.voting_expiry == BlockNumberOf::<T>::blank()
            &&& after.challenges.contains_key(number)
            &&& after.challenges.remove(number) == s.challenges.remove(number)
            &&& after.listings == s.listings
            &&& after.next_challenge_id == s.next_challenge_id
            &&& after.listings_to_update == s.listings_to_update
        }),
{
    let after = s.vote(origin, id, aye, deposit, reserved).0;
    let number = s.listings[id].challenge_id->0;
    BalanceOf::<T>::lemma_of(BalanceOf::<T>::blank().value() + deposit.value());
    assert(after.challenges.remove(number) =~= s.challenges.remove(number));
}

/// The promotion of a listing stores it as an item of the registry whose application is over, with
/// everything else of it unchanged. Nothing else changes.
pub proof fn promotions_list_the_item<T: Trait>(
    s: State<T>,
    id: ListingIdOf<T>,
    listing: ListingDetailOf<T>,
)
    ensures
        ({
            let after = s.promoting(id, listing);
            let promoted = after.listings[id];
            &&& after.listings.contains_key(id)
            &&& promoted.in_registry
            &&& promoted.application_expiry is None
            &&& promoted.owner == listing.owner
            &&& promoted.deposit == listing.deposit
            &&& promoted.challenge_id == listing.challenge_id
            &&& after.listings.remove(id) == s.listings.remove(id)
            &&& after.challenges == s.challenges
            &&& after.next_challenge_id == s.next_challenge_id
            &&& after.listings_to_update == s.listings_to_update
        }),
{
    assert(s.promoting(id, listing).listings.remove(id) =~= s.listings.remove(id));
}

/// The votes are settled one by one, in the order in which they were cast.
proof fn lemma_votes_one_by_one<T: Trait>(
    votes: Seq<VoteOf<T>>,
    good: bool,
    each: spec_fn(VoteOf<T>) -> Seq<EffectOf<T>>,
)
    requires
        forall|v: VoteOf<T>| #[trigger]
            each(v) == (if v.aye_or_nay == good {
                seq![EffectOf::<T>::Unreserve(v.voter, v.deposit)]
            } else {
                seq![
                    EffectOf::<T>::Unreserve(v.voter, v.deposit),
                    EffectOf::<T>::Slash(v.voter, v.deposit),
                ]
            }),
    ensures
        crate::state::vote_effects::<AccountIdOf<T>, BalanceOf<T>, ListingIdOf<T>>(votes, good)
            == votes.map_values(each).flatten(),
    decreases votes.len(),
{
    let mapped = votes.map_values(each);
    mapped.lemma_flatten_and_flatten_alt_are_equivalent();
    if votes.len() > 0 {
        let front = votes.drop_last();
        lemma_votes_one_by_one::<T>(front, good, each);
        front.map_values(each).lemma_flatten_and_flatten_alt_are_equivalent();
        assert(mapped.drop_last() =~= front.map_values(each));
        assert(mapped.last() == each(votes.last()));
        assert(crate::state::vote_effects::<AccountIdOf<T>, BalanceOf<T>, ListingIdOf<T>>(
            votes,
            good,
        ) =~= crate::state::vote_effects::<AccountIdOf<T>, BalanceOf<T>, ListingIdOf<T>>(
            front,
            good,
        ) + each(votes.last()));
    }
}

/// What the settlement of a challenge brings about. The listing passes if more was staked for it
/// than against it, and not on a tie. The outcome is announced first. If the listing passes, the
/// challenger's deposit is released and taken, and acceptance is announced if the item was not in
/// the registry. If it does not, the owner's deposit is released and taken, the challenger's is
/// released, and rejection is announced. Then every vote is released, and taken if it was on the
/// losing side, in the order in which they were cast.
pub proof fn settlements_pay_by_the_stakes<T: Trait>(
    listing: ListingDetailOf<T>,
    challenge: ChallengeViewOf<T>,
)
    ensures
        ({
            let good = challenge.total_aye.value() > challenge.total_nay.value();
            let first: Seq<EffectOf<T>> = if good {
                seq![
                    Effect::Emit(Event::Resolved(challenge.listing_id, true)),
                    Effect::Unreserve(challenge.owner, challenge.deposit),
                    Effect::Slash(challenge.owner, challenge.deposit),
                ]
            } else {
                seq![
                    Effect::Emit(Event::Resolved(challenge.listing_id, false)),
                    Effect::Unreserve(listing.owner, listing.deposit),
                    Effect::Slash(listing.owner, listing.deposit),
                    Effect::Unreserve(challenge.owner, challenge.deposit),
                    Effect::Emit(Event::Rejected(challenge.listing_id)),
                ]
            };
            let news: Seq<EffectOf<T>> = if good && !listing.in_registry {
                seq![Effect::Emit(Event::Accepted(challenge.listing_id))]
            } else {
                Seq::empty()
            };
            let votes: Seq<EffectOf<T>> = challenge.votes.map_values(
                |v: VoteOf<T>|
                    if v.aye_or_nay == good {
                        seq![Effect::Unreserve(v.voter, v.deposit)]
                    } else {
                        seq![
                            Effect::Unreserve(v.voter, v.deposit),
                            Effect::Slash(v.voter, v.deposit),
                        ]
                    },
            ).flatten();
            State::<T>::settlement(listing, challenge) == first + news + votes
        }),
{
    let good = challenge.total_aye.value() > challenge.total_nay.value();
    let each = |v: VoteOf<T>|
        if v.aye_or_nay == good {
            seq![EffectOf::<T>::Unreserve(v.voter, v.deposit)]
        } else {
            seq![Effect::Unreserve(v.voter, v.deposit), Effect::Slash(v.voter, v.deposit)]
        };
    lemma_votes_one_by_one::<T>(challenge.votes, good, each);
}

/// What the settlement of an open challenge leaves behind. A listing that more was staked for than
/// against is in the registry and no longer challenged, with everything else of it unchanged; any
/// other is forgotten. The challenge is no longer open. Nothing else changes. Where the challenge
/// is not open, which a well-formed registry rules out, a blank one is settled.
pub proof fn settlements_follow_the_stakes<T: Trait>(
    s: State<T>,
    id: ListingIdOf<T>,
    listing: ListingDetailOf<T>,
    number: ChallengeId,
)
    ensures
        ({
            let open = s.challenges.contains_key(number);
            let challenge = s.challenges[number];
            let good = open && challenge.total_aye.value() > challenge.total_nay.value();
            let after = s.settling(id, listing, number);
            let settled = after.listings[id];
            &&& good ==> {
                &&& after.listings.contains_key(id)
                &&& settled.in_registry
                &&& settled.challenge_id is None
                &&& settled.owner == listing.owner
                &&& settled.deposit == listing.deposit
                &&& settled.application_expiry == listing.application_expiry
                &&& after.listings.remove(id) == s.listings.remove(id)
            }
            &&& open && !good ==> after.listings == s.listings.remove(challenge.listing_id)
            &&& !open ==> after.listings == s.listings.remove(ListingIdOf::<T>::blank())
            &&& after.challenges == s.challenges.remove(number)
            &&& after.next_challenge_id == s.next_challenge_id
            &&& after.listings_to_update == s.listings_to_update
        }),
{
    let after = s.settling(id, listing, number);
    if s.challenges.contains_key(number) && s.challenges[number].total_aye.value()
        > s.challenges[number].total_nay.value() {
        assert(after.listings.remove(id) =~= s.listings.remove(id));
    }
}

/// A block for which nothing is put down changes nothing and brings nothing about.
pub proof fn blocks_without_updates_do_nothing<T: Trait>(s: State<T>, now: BlockNumberOf<T>)
    requires
        s.listings_to_update.contains_key(now) ==> s.listings_to_update[now].len() == 0,
    ensures
        ({
            let (after, effects) = s.on_finalize(now);
            &&& after.listings == s.listings
            &&& after.challenges == s.challenges
            &&& after.next_challenge_id == s.next_challenge_id
            &&& after.listings_to_update == s.listings_to_update.remove(now)
            &&& effects.len() == 0
        }),
{
}

/// One more listing put down for a block is one more update, after the others. An unchallenged
/// application that expires in the block enters the registry, and that is announced. An open
/// challenge that is counted in the block is settled by its stakes. Anything else stays as it is,
/// and nothing is brought about by it.
pub proof fn blocks_update_one_listing_after_the_other<T: Trait>(
    s: State<T>,
    now: BlockNumberOf<T>,
    ids: Seq<ListingIdOf<T>>,
    id: ListingIdOf<T>,
)
    requires
        s.listings_to_update.contains_key(now),
        s.listings_to_update[now] == ids.push(id),
    ensures
        ({
            let fewer = State { listings_to_update: s.listings_to_update.insert(now, ids), ..s };
            let (before, early) = fewer.on_finalize(now);
            let (after, effects) = s.on_finalize(now);
            let known = before.listings.contains_key(id);
            let listing = before.listings[id];
            let updated = after.listings[id];
            let number = listing.challenge_id->0;
            let challenge = before.challenges[number];
            let expires = known && listing.application_expiry == Some(now)
                && listing.challenge_id is None;
            let counted = known && listing.application_expiry != Some(now)
                && listing.challenge_id is Some && before.challenges.contains_key(number)
                && challenge.voting_expiry == now;
            let good = challenge.total_aye.value() > challenge.total_nay.value();
            &&& after.next_challenge_id == s.next_challenge_id
            &&& after.listings_to_update == s.listings_to_update.remove(now)
            &&& expires ==> {
                &&& after.listings.contains_key(id)
                &&& updated.in_registry
                &&& updated.application_expiry is None
                &&& updated.owner == listing.owner
                &&& updated.deposit == listing.deposit
                &&& updated.challenge_id is None
                &&& after.listings.remove(id) == before.listings.remove(id)
                &&& after.challenges == before.challenges
                &&& effects == early.push(Effect::Emit(Event::Accepted(id)))
            }
            &&& counted ==> {
                &&& effects == early + State::<T>::settlement(listing, challenge)
                &&& after.challenges == before.challenges.remove(number)
            }
            &&& counted && good ==> {
                &&& after.listings.contains_key(id)
                &&& updated.in_registry
                &&& updated.challenge_id is None
                &&& updated.owner == listing.owner
                &&& updated.deposit == listing.deposit
                &&& updated.application_expiry == listing.application_expiry
                &&& after.listings.remove(id) == before.listings.remove(id)
            }
            &&& counted && !good ==> after.listings == before.listings.remove(
                challenge.listing_id,
            )
            &&& !expires && !counted ==> {
                &&& after.listings == before.listings
                &&& after.challenges == before.challenges
                &&& effects == early
            }
        }),
{
    let fewer = State { listings_to_update: s.listings_to_update.insert(now, ids), ..s };
    let start = crate::finalization::unscheduled(s, now);
    assert(crate::finalization::unscheduled(fewer, now) =~= start);
    assert(ids.push(id).drop_last() =~= ids);
    let (before, early) = start.updating_all(now, ids);
    assert(fewer.on_finalize(now) == (before, early));
    let (after, effects) = s.on_finalize(now);
    assert((after, effects) == start.updating_all(now, ids.push(id)));
    lemma_updates_keep_the_rest(start, now, ids);
    let more = before.updating(now, id).1;
    assert(effects == early + more);
    if before.promoted_at(now, id) {
        let accepted: EffectOf<T> = Effect::Emit(Event::Accepted(id));
        assert(early + seq![accepted] =~= early.push(accepted));
        assert(after.listings.remove(id) =~= before.listings.remove(id));
    } else if before.settled_at(now, id) {
        settlements_follow_the_stakes(
            before,
            id,
            before.listings[id],
            before.listings[id].challenge_id->0,
        );
    } else {
        assert(early + Seq::<EffectOf<T>>::empty() =~= early);
    }
}

proof fn lemma_updates_keep_the_rest<T: Trait>(
    s: State<T>,
    now: BlockNumberOf<T>,
    ids: Seq<ListingIdOf<T>>,
)
    ensures
        s.updating_all(now, ids).0.next_challenge_id == s.next_challenge_id,
        s.updating_all(now, ids).0.listings_to_update == s.listings_to_update,
    decreases ids.len(),
{
    if ids.len() > 0 {
        lemma_updates_keep_the_rest(s, now, ids.drop_last());
    }
}

/// What the end of a block makes of a listing, in a well-formed registry. An application that
/// expires in the block is in the registry afterwards. A challenged listing whose vote is counted
/// in the block is in the registry afterwards if more was staked for it than against it, and
/// forgotten otherwise. Any other stays as it is, and none becomes known.
pub proof fn blocks_decide_what_expires<T: Trait>(
    s: State<T>,
    now: BlockNumberOf<T>,
    id: ListingIdOf<T>,
)
    requires
        s.well_formed(),
    ensures
        ({
            let after = s.on_finalize(now).0;
            let known = s.listings.contains_key(id);
            let listing = s.listings[id];
            let challenge = s.challenges[listing.challenge_id->0];
            let expires = listing.application_expiry == Some(now);
            let counted = listing.challenge_id is Some && challenge.voting_expiry == now;
            let good = challenge.total_aye.value() > challenge.total_nay.value();
            &&& after.listings.contains_key(id) <==> known && !(counted && !good)
            &&& known && expires ==> after.listings[id] == (ListingDetail {
                application_expiry: None,
                in_registry: true,
                ..listing
            })
            &&& known && counted && good ==> after.listings[id] == (ListingDetail {
                challenge_id: None,
                in_registry: true,
                ..listing
            })
            &&& known && !expires && !counted ==> after.listings[id] == listing
        }),
{
    crate::finalization::on_finalize_updates_what_expires(s, now);
    assert(s.on_finalize(now).0.known(id) == s.known_after(now, id));
    if s.listings.contains_key(id) {
        assert(s.listing_is_sound(id));
    }
}

/// What the end of a block makes of a challenge, in a well-formed registry: one that is counted in
/// the block is no longer open, any other stays as it is, and none is opened.
pub proof fn blocks_close_what_is_counted<T: Trait>(
    s: State<T>,
    now: BlockNumberOf<T>,
    number: ChallengeId,
)
    requires
        s.well_formed(),
    ensures
        ({
            let after = s.on_finalize(now).0;
            &&& after.challenges.contains_key(number) <==> s.challenges.contains_key(number)
                && s.challenges[number].voting_expiry != now
            &&& after.challenges.contains_key(number) ==> after.challenges[number]
                == s.challenges[number]
        }),
{
    crate::finalization::on_finalize_updates_what_expires(s, now);
    assert(s.on_finalize(now).0.challenges.contains_key(number) <==> s.challenges.contains_key(
        number,
    ) && !s.counted_at(now, number));
}

/// What is read is what is stored. What is not stored is read as blank: not in the registry, not
/// challenged, no application; no votes; nothing to update.
pub proof fn readings_give_what_is_stored<T: Trait>(
    s: State<T>,
    id: ListingIdOf<T>,
    number: ChallengeId,
    block: BlockNumberOf<T>,
)
    ensures
        s.listings.contains_key(id) ==> s.listing(id) == s.listings[id],
        !s.listings.contains_key(id) ==> {
            &&& s.listing(id).deposit == BalanceOf::<T>::blank()
            &&& s.listing(id).owner == AccountIdOf::<T>::blank()
            &&& s.listing(id).application_expiry is None
            &&& !s.listing(id).in_registry
            &&& s.listing(id).challenge_id is None
        },
        s.registry_contains(id) <==> s.listings.contains_key(id) && s.listings[id].in_registry,
        s.listing(id).in_registry == s.registry_contains(id),
        s.known(id) is Some <==> s.listings.contains_key(id),
        s.known(id) matches Some(listing) ==> listing == s.listings[id],
        s.listings[id].challenge_id matches Some(named) ==> s.challenge_of(id) == named,
        s.challenges.contains_key(number) ==> s.challenge_detail(number) == s.challenges[number],
        !s.challenges.contains_key(number) ==> {
            &&& s.challenge_detail(number).listing_id == ListingIdOf::<T>::blank()
            &&& s.challenge_detail(number).deposit == BalanceOf::<T>::blank()
            &&& s.challenge_detail(number).owner == AccountIdOf::<T>::blank()
            &&& s.challenge_detail(number).voting_expiry == BlockNumberOf::<T>::blank()
            &&& s.challenge_detail(number).total_aye == BalanceOf::<T>::blank()
            &&& s.challenge_detail(number).total_nay == BalanceOf::<T>::blank()
            &&& s.challenge_detail(number).votes.len() == 0
        },
        s.listings_to_update.contains_key(block) ==> s.to_update(block)
            == s.listings_to_update[block],
        !s.listings_to_update.contains_key(block) ==> s.to_update(block).len() == 0,
{
}

/// The view of a registry holds what its fields hold, and all of it.
pub proof fn views_hold_what_is_stored<T: Trait>(
    registry: Module<T>,
    number: ChallengeId,
    block: BlockNumberOf<T>,
)
    ensures
        registry@.listings == registry.listings@,
        registry@.next_challenge_id == registry.next_challenge_id,
        registry@.challenges.contains_key(number) == registry.challenges@.contains_key(number),
        registry.challenges@.contains_key(number) ==> {
            let stored = registry.challenges@[number];
            let seen = registry@.challenges[number];
            &&& seen.listing_id == stored.listing_id
            &&& seen.deposit == stored.deposit
            &&& seen.owner == stored.owner
            &&& seen.voting_expiry == stored.voting_expiry
            &&& seen.total_aye == stored.total_aye
            &&& seen.total_nay == stored.total_nay
            &&& seen.votes == stored.votes@
        },
        registry@.listings_to_update.contains_key(block)
            == registry.listings_to_update@.contains_key(block),
        registry.listings_to_update@.contains_key(block) ==> registry@.listings_to_update[block]
            == registry.listings_to_update@[block]@,
{
}

/// The view of a challenge holds what its fields hold.
pub proof fn challenge_views_hold_the_fields<T: Trait>(challenge: ChallengeDetailOf<T>)
    ensures
        challenge@.listing_id == challenge.listing_id,
        challenge@.deposit == challenge.deposit,
        challenge@.owner == challenge.owner,
        challenge@.voting_expiry == challenge.voting_expiry,
        challenge@.total_aye == challenge.total_aye,
        challenge@.total_nay == challenge.total_nay,
        challenge@.votes == challenge.votes@,
{
}

/// A registry starts with nothing: no listings, no challenges, nothing to update, and numbers from
/// zero.
pub proof fn registries_start_empty<T: Trait>(
    id: ListingIdOf<T>,
    number: ChallengeId,
    block: BlockNumberOf<T>,
)
    ensures
        !State::<T>::initial().listings.contains_key(id),
        !State::<T>::initial().challenges.contains_key(number),
        !State::<T>::initial().listings_to_update.contains_key(block),
        State::<T>::initial().next_challenge_id == 0,
{
}

/// Blocks are counted and amounts added as natural numbers are: the block `b` blocks after block
/// `a` exists if and only if its number is within the limit, and then has the sum for its number.
pub proof fn quantities_add_up<Q: Quantity>(a: Q, b: Q)
    ensures
        crate::numbers::later(a, b) is Some <==> a.value() + b.value() <= Q::limit(),
        crate::numbers::later(a, b) matches Some(block) ==> block.value() == a.value() + b.value(),
        a.value() + b.value() <= Q::limit() ==> crate::numbers::plus(a, b).value() == a.value()
            + b.value(),
{
    if a.value() + b.value() <= Q::limit() {
        Q::lemma_of(a.value() + b.value());
    }
}

/// The machine integers stand for themselves, up to their largest value, and are blank at zero.
pub proof fn integers_stand_for_themselves(a: u32, b: u64, c: u128)
    ensures
        a.value() == a,
        b.value() == b,
        c.value() == c,
        u32::of(a as nat) == a,
        u64::of(b as nat) == b,
        u128::of(c as nat) == c,
        <u32 as Quantity>::limit() == u32::MAX,
        <u64 as Quantity>::limit() == u64::MAX,
        <u128 as Quantity>::limit() == u128::MAX,
        u32::blank() == 0,
        u64::blank() == 0,
        u128::blank() == 0,
{
}

/// Every refusal has the text that goes with it.
pub proof fn refusals_tell_why(refusal: DispatchError)
    ensures
        refusal is BadOrigin ==> refusal.text() == "Bad origin"@,
        refusal is DepositBelowMinimum ==> refusal.text()
            == "deposit should be more than min_deposit"@,
        refusal is ListingAlreadyExists ==> refusal.text() == "Listing already exists"@,
        refusal is ApplicationExpiryOverflow ==> refusal.text()
            == "Overflow when setting application expiry."@,
        refusal is ProposerCannotAfford ==> refusal.text() == "Proposer can't afford deposit"@,
        refusal is ListingNotFound ==> refusal.text() == "Listing not found."@,
        refusal is AlreadyChallenged ==> refusal.text() == "Listing is already challenged."@,
        refusal is OwnListing ==> refusal.text() == "You cannot challenge your own listing."@,
        refusal is DepositBelowListing ==> refusal.text() == "Not enough deposit to challenge."@,
        refusal is VotingExpiryOverflow ==> refusal.text()
            == "Overflow when setting voting expiry."@,
        refusal is ChallengerCannotAfford ==> refusal.text()
            == "Challenger can't afford the deposit"@,
        refusal is ListingDoesNotExist ==> refusal.text() == "Listing does not exist."@,
        refusal is NotChallenged ==> refusal.text() == "Listing is not challenged."@,
        refusal is VoterCannotAfford ==> refusal.text() == "Voter can't afford the deposit"@,
{
}

} // verus!
