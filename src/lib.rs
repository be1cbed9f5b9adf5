//! Referral and revenue splitting: a referralship records how a payment is
//! divided between a referral agent and up to eight weighted stakeholders, and
//! the split algorithm turns a payment into exact, conserving transfers.
pub mod error;
pub mod lifecycle;
pub mod split;
pub mod state;

pub use error::ReferralError;
pub use lifecycle::{create_referralship, find_duplicate, split_payment, subscribe_with_referral};
pub use split::{check_split_inputs, compute_split, SplitOutcome, MAX_SPLITS};
pub use state::{Address, AddressWithWeight, Referralship, Splits8, Subscription, Transfer};
