//! A token curated registry.
//!
//! Anybody can propose a listing by putting down a deposit. A proposal that nobody challenges
//! enters the registry when its apply stage is over. Anybody but the owner can challenge a
//! listing, whether it is in the registry or applies to be, by putting down a deposit as well.
//! Then everybody can vote, with a stake, until the commit stage is over. The side with the
//! larger stake wins, and the other side loses its stakes; the listing survives only if more was
//! staked for it than against it.
//!
//! The registry itself touches no money and no chain storage. [`module::Module`] names the
//! deposits that are to be reserved, is told whether they were, and answers with the events to be
//! announced and the deposits to be released or taken. What it does is stated over
//! [`state::State`], and told by what is stored and answered in [`behaviour`]; what follows from
//! that is in [`soundness`], [`transitions`], [`finalization`], [`laws`], [`announcements`],
//! [`deposits`], [`locality`] and [`runs`].
pub mod announcements;
pub mod behaviour;
pub mod deposits;
pub mod finalization;
pub mod laws;
pub mod locality;
pub mod module;
pub mod numbers;
pub mod runs;
pub mod soundness;
pub mod state;
pub mod storage_map;
pub mod tallies;
pub mod transitions;
pub mod types;

pub use module::{ensure_signed, Module};
pub use numbers::{Amount, Height, Identity, Quantity};
pub use storage_map::StorageMap;
pub use types::{
    ChallengeDetail, ChallengeId, DispatchError, Effect, Environment, Event, ListingDetail,
    RawOrigin, Reservation, Trait, Vote,
};
