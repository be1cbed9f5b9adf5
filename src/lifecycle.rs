use vstd::prelude::*;

use crate::error::ReferralError;
use crate::split::{
    agent_amount_of, check_split_inputs, compute_split, pool_of, share_of, split_error, total_of,
};
use crate::state::{
    entry_weights, weights_of, Address, AddressWithWeight, Referralship, ReferralshipView, Splits8,
    Subscription, Transfer, transfer_total,
};

verus! {

/// Two entries of the list name the same address.
pub open spec fn has_duplicate(s: Seq<AddressWithWeight>) -> bool {
    exists|i: int, j: int|
        0 <= i < j < s.len() && #[trigger] s[i].address.bytes@ == #[trigger] s[j].address.bytes@
}

/// Why a referralship cannot be created from these inputs, if it cannot;
/// the checks are made in this order: the agent percentage, the number of
/// entries, the weights, then the addresses.
pub open spec fn creation_error(referral_agent_split: u8, splits: Seq<AddressWithWeight>) -> Option<
    ReferralError,
> {
    match split_error(referral_agent_split, weights_of(splits)) {
        Some(e) => Some(e),
        None => if has_duplicate(splits) {
            Some(ReferralError::DuplicateRecipient)
        } else {
            None
        },
    }
}

/// Whether two entries of `splits` name the same address.
pub fn find_duplicate(splits: &Vec<AddressWithWeight>) -> (r: bool)
    ensures
        r == has_duplicate(splits@),
{
    let n = splits.len();
    let mut i: usize = 0;
    while i < n
        invariant
            n == splits@.len(),
            i <= n,
            forall|a: int, b: int|
                0 <= a < b < n && a < i ==> splits@[a].address.bytes@
                    != splits@[b].address.bytes@,
        decreases n - i,
    {
        let mut j: usize = i + 1;
        while j < n
            invariant
                n == splits@.len(),
                i < n,
                i + 1 <= j <= n,
                forall|b: int| i < b < j ==> splits@[i as int].address.bytes@
                    != splits@[b].address.bytes@,
            decreases n - j,
        {
            if splits[i].address.same_as(&splits[j].address) {
                assert(splits@[i as int].address.bytes@ == splits@[j as int].address.bytes@);
                return true;
            }
            j = j + 1;
        }
        i = i + 1;
    }
    false
}

/// Builds a referralship after checking its inputs: the agent percentage is
/// at most one hundred, there are one to eight entries, every weight is
/// positive and no two entries share an address. Nothing is built when a
/// check fails.
pub fn create_referralship(app_id: u8, referral_agent_split: u8, splits: Vec<AddressWithWeight>) -> (r:
    Result<Referralship, ReferralError>)
    ensures
        match creation_error(referral_agent_split, splits@) {
            Some(e) => r == Err::<Referralship, ReferralError>(e),
            None => r is Ok && r->Ok_0@ == (ReferralshipView {
                app_id,
                referral_agent_split,
                splits: splits@,
            }),
        },
{
    let weights = entry_weights(&splits);
    match check_split_inputs(referral_agent_split, &weights) {
        Ok(_) => {},
        Err(e) => {
            return Err(e);
        },
    }
    if find_duplicate(&splits) {
        return Err(ReferralError::DuplicateRecipient);
    }
    let n = splits.len();
    let mut stored = Splits8::new();
    let mut i: usize = 0;
    while i < n
        invariant
            n == splits@.len(),
            n <= 8,
            i <= n,
            stored@ == splits@.take(i as int),
        decreases n - i,
    {
        let pushed = stored.push(splits[i]);
        assert(pushed is Ok);
        i = i + 1;
        assert(splits@.take(i as int) =~= splits@.take(i - 1).push(splits@[i - 1]));
    }
    assert(splits@.take(n as int) =~= splits@);
    Ok(Referralship::from_parts(app_id, referral_agent_split, stored))
}


/// Validation completeness: inputs with an agent percentage above one
/// hundred, no entries, more than eight entries, a zero weight or a repeated
/// address, alone or together, are rejected.
pub proof fn lemma_invalid_inputs_rejected(referral_agent_split: u8, splits: Seq<AddressWithWeight>)
    requires
        referral_agent_split > 100 || splits.len() == 0 || splits.len() > 8 || (exists|i: int|
            0 <= i < splits.len() && #[trigger] splits[i].weight == 0) || has_duplicate(splits),
    ensures
        creation_error(referral_agent_split, splits) is Some,
{
    let w = weights_of(splits);
    if exists|i: int| 0 <= i < splits.len() && #[trigger] splits[i].weight == 0 {
        let i = choose|i: int| 0 <= i < splits.len() && #[trigger] splits[i].weight == 0;
        assert(w[i] == 0);
    }
}

/// Links `payer` to the referralship stored at `referralship_key`, which
/// `referralship` holds when it exists, with `referral_agent` as the agent
/// who referred it. `existing` is the link already stored for this payer.
/// Subscribing again to the same referralship keeps the existing link as it
/// is; a payer linked to one referralship cannot move to another.
pub fn subscribe_with_referral(
    payer: Address,
    referral_agent: Address,
    referralship_key: Address,
    referralship: &Option<Referralship>,
    existing: &Option<Subscription>,
) -> (r: Result<Subscription, ReferralError>)
    ensures
        referralship is None ==> r == Err::<Subscription, ReferralError>(
            ReferralError::ReferralshipNotFound,
        ),
        referralship is Some ==> match *existing {
            Some(s) => if s.referralship.bytes@ == referralship_key.bytes@ {
                r == Ok::<Subscription, ReferralError>(s)
            } else {
                r == Err::<Subscription, ReferralError>(ReferralError::AlreadySubscribed)
            },
            None => r == Ok::<Subscription, ReferralError>(
                Subscription { payer, referralship: referralship_key, referral_agent },
            ),
        },
{
    if referralship.is_none() {
        return Err(ReferralError::ReferralshipNotFound);
    }
    match existing {
        Some(s) => {
            if s.referralship.same_as(&referralship_key) {
                Ok(*s)
            } else {
                Err(ReferralError::AlreadySubscribed)
            }
        },
        None => Ok(Subscription { payer, referralship: referralship_key, referral_agent }),
    }
}

/// The transfers of a payment of `amount` under the referralship `rs`: the
/// agent's cut first, then each stakeholder's share in declaration order.
pub open spec fn is_payment_of(
    t: Seq<Transfer>,
    agent: Address,
    rs: ReferralshipView,
    amount: u64,
) -> bool {
    let w = weights_of(rs.splits);
    let pool = pool_of(amount, rs.referral_agent_split);
    &&& t.len() == rs.splits.len() + 1
    &&& t[0].recipient == agent
    &&& t[0].amount == agent_amount_of(amount, rs.referral_agent_split)
    &&& forall|i: int|
        0 <= i < rs.splits.len() ==> (#[trigger] t[i + 1]).recipient == rs.splits[i].address
            && t[i + 1].amount == share_of(pool, w, i)
}

/// Why a payment of `amount` by the holder of `subscription` cannot be split
/// under `referralship`, stored at `referralship_key`, if it cannot.
pub open spec fn payment_error(
    subscription: Option<Subscription>,
    referralship_key: Address,
    referralship: Option<ReferralshipView>,
    amount: u64,
) -> Option<ReferralError> {
    if amount == 0 {
        Some(ReferralError::PaymentAmountInvalid)
    } else {
        match subscription {
            None => Some(ReferralError::SubscriptionNotFound),
            Some(sub) => match referralship {
                None => Some(ReferralError::ReferralshipNotFound),
                Some(rs) => if sub.referralship.bytes@ != referralship_key.bytes@ {
                    Some(ReferralError::ReferralshipNotFound)
                } else {
                    split_error(rs.referral_agent_split, weights_of(rs.splits))
                },
            },
        }
    }
}

/// The view of a referralship that may be missing.
pub open spec fn view_of(referralship: Option<Referralship>) -> Option<ReferralshipView> {
    match referralship {
        Some(rs) => Some(rs@),
        None => None,
    }
}

/// Splits a payment of `amount` made by the holder of `subscription` under
/// the referralship that `referralship` holds, stored at `referralship_key`,
/// and returns the transfers to make: one to the referral agent and one to
/// each stakeholder, together worth exactly `amount`. On failure no transfer
/// is returned.
pub fn split_payment(
    subscription: &Option<Subscription>,
    referralship_key: &Address,
    referralship: &Option<Referralship>,
    amount: u64,
) -> (r: Result<Vec<Transfer>, ReferralError>)
    ensures
        match payment_error(*subscription, *referralship_key, view_of(*referralship), amount) {
            Some(e) => r == Err::<Vec<Transfer>, ReferralError>(e),
            None => r is Ok && is_payment_of(
                r->Ok_0@,
                subscription->Some_0.referral_agent,
                referralship->Some_0@,
                amount,
            ) && transfer_total(r->Ok_0@) == amount,
        },
{
    if amount == 0 {
        return Err(ReferralError::PaymentAmountInvalid);
    }
    let sub = match subscription {
        Some(s) => s,
        None => {
            return Err(ReferralError::SubscriptionNotFound);
        },
    };
    let rs = match referralship {
        Some(rs) => rs,
        None => {
            return Err(ReferralError::ReferralshipNotFound);
        },
    };
    if !sub.referralship.same_as(referralship_key) {
        return Err(ReferralError::ReferralshipNotFound);
    }
    let splits = rs.splits();
    let weights = splits.weights();
    let outcome = match compute_split(amount, rs.referral_agent_split(), &weights) {
        Ok(o) => o,
        Err(e) => {
            return Err(e);
        },
    };
    let n = splits.len();
    let ghost shares = outcome.shares@;
    let mut transfers: Vec<Transfer> = Vec::new();
    transfers.push(Transfer { recipient: sub.referral_agent, amount: outcome.agent_amount });
    assert(transfers@.drop_last() =~= Seq::<Transfer>::empty());
    assert(transfer_total(transfers@.drop_last()) == 0);
    assert(transfer_total(transfers@) == outcome.agent_amount);
    assert(shares.take(0) =~= Seq::<u64>::empty());
    let mut i: usize = 0;
    while i < n
        invariant
            n == splits@.len(),
            n == shares.len(),
            shares == outcome.shares@,
            i <= n,
            transfers@.len() == i + 1,
            transfers@[0] == (Transfer { recipient: sub.referral_agent, amount: outcome.agent_amount }),
            forall|j: int|
                0 <= j < i ==> (#[trigger] transfers@[j + 1]).recipient == splits@[j].address
                    && transfers@[j + 1].amount == shares[j],
            transfer_total(transfers@) == outcome.agent_amount + total_of(shares.take(i as int)),
        decreases n - i,
    {
        let entry = splits.get(i);
        let ghost before = transfers@;
        transfers.push(Transfer { recipient: entry.address, amount: outcome.shares[i] });
        assert(transfers@.drop_last() =~= before);
        assert(shares.take(i + 1).drop_last() =~= shares.take(i as int));
        i = i + 1;
    }
    assert(shares.take(n as int) =~= shares);
    Ok(transfers)
}

} // verus!
