use vstd::prelude::*;

verus! {

/// Every way an operation on a referralship can fail.
#[derive(Clone, Copy, Debug, PartialEq, Eq, Structural)]
pub enum ReferralError {
    /// The list of stakeholders is empty or holds more than eight entries.
    InvalidSplitCount,
    /// A stakeholder weight is zero.
    InvalidWeight,
    /// The referral agent's percentage exceeds one hundred.
    InvalidAgentSplit,
    /// Two stakeholders share one address.
    DuplicateRecipient,
    /// An intermediate value of the split does not fit its integer type. The
    /// split works in 128-bit intermediates, where every product of a `u64`
    /// amount and a `u8` weight or percentage fits, so it does not arise there.
    ArithmeticOverflow,
    /// The referralship that a payment or a subscription names does not exist.
    ReferralshipNotFound,
    /// The payer has no subscription.
    SubscriptionNotFound,
    /// The payer is already linked to another referralship.
    AlreadySubscribed,
    /// The payment amount is zero.
    PaymentAmountInvalid,
}

} // verus!
