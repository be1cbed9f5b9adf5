use vstd::prelude::*;

use crate::error::ReferralError;
use crate::split::MAX_SPLITS;

verus! {

/// The identity of an account on the ledger: 32 raw bytes.
#[derive(Clone, Copy, Debug)]
pub struct Address {
    pub bytes: [u8; 32],
}

impl Address {
    pub fn new(bytes: [u8; 32]) -> (r: Address)
        ensures
            r.bytes@ == bytes@,
    {
        Address { bytes }
    }

    /// Whether two addresses name the same account.
    pub fn same_as(&self, other: &Address) -> (r: bool)
        ensures
            r == (self.bytes@ == other.bytes@),
    {
        let mut i: usize = 0;
        while i < 32
            invariant
                i <= 32,
                self.bytes@.len() == 32,
                other.bytes@.len() == 32,
                forall|j: int| 0 <= j < i ==> self.bytes@[j] == other.bytes@[j],
            decreases 32 - i,
        {
            if self.bytes[i] != other.bytes[i] {
                return false;
            }
            i = i + 1;
        }
        assert(self.bytes@ =~= other.bytes@);
        true
    }
}


/// One stakeholder: where its share goes, and its relative weight.
#[derive(Clone, Copy, Debug)]
pub struct AddressWithWeight {
    pub address: Address,
    pub weight: u8,
}

/// The weights of a list of stakeholders, in order.
pub open spec fn weights_of(s: Seq<AddressWithWeight>) -> Seq<u8> {
    s.map_values(|e: AddressWithWeight| e.weight)
}

/// The weights of `entries`, in order.
pub(crate) fn entry_weights(entries: &Vec<AddressWithWeight>) -> (r: Vec<u8>)
    ensures
        r@ == weights_of(entries@),
{
    let mut r: Vec<u8> = Vec::new();
    let mut i: usize = 0;
    while i < entries.len()
        invariant
            i <= entries@.len(),
            r@ == weights_of(entries@.take(i as int)),
        decreases entries@.len() - i,
    {
        r.push(entries[i].weight);
        i = i + 1;
        assert(weights_of(entries@.take(i as int)) =~= weights_of(entries@.take(i - 1)).push(
            entries@[i - 1].weight,
        ));
    }
    assert(entries@.take(i as int) =~= entries@);
    r
}

/// An ordered list of at most eight stakeholders.
#[derive(Debug)]
pub struct Splits8 {
    entries: Vec<AddressWithWeight>,
}

impl View for Splits8 {
    type V = Seq<AddressWithWeight>;

    closed spec fn view(&self) -> Seq<AddressWithWeight> {
        self.entries@
    }
}

impl Splits8 {
    /// The bound on the number of entries holds.
    pub open spec fn wf(&self) -> bool {
        self@.len() <= MAX_SPLITS
    }

    pub fn new() -> (r: Splits8)
        ensures
            r@ == Seq::<AddressWithWeight>::empty(),
            r.wf(),
    {
        Splits8 { entries: Vec::new() }
    }

    /// Appends an entry, or refuses it when the list is full.
    pub fn push(&mut self, entry: AddressWithWeight) -> (r: Result<(), ReferralError>)
        ensures
            old(self)@.len() < MAX_SPLITS ==> r is Ok && final(self)@ == old(self)@.push(entry),
            old(self)@.len() >= MAX_SPLITS ==> r == Err::<(), ReferralError>(
                ReferralError::InvalidSplitCount,
            ) && final(self)@ == old(self)@,
            old(self).wf() ==> final(self).wf(),
    {
        if self.entries.len() >= MAX_SPLITS {
            return Err(ReferralError::InvalidSplitCount);
        }
        self.entries.push(entry);
        Ok(())
    }

    pub fn len(&self) -> (r: usize)
        ensures
            r == self@.len(),
    {
        self.entries.len()
    }

    pub fn get(&self, i: usize) -> (r: AddressWithWeight)
        requires
            i < self@.len(),
        ensures
            r == self@[i as int],
    {
        self.entries[i]
    }

    /// The weights of the entries, in order.
    pub fn weights(&self) -> (r: Vec<u8>)
        ensures
            r@ == weights_of(self@),
    {
        entry_weights(&self.entries)
    }
}

/// What a referralship holds, as plain values.
pub ghost struct ReferralshipView {
    pub app_id: u8,
    pub referral_agent_split: u8,
    pub splits: Seq<AddressWithWeight>,
}

/// A stored split policy: the application it belongs to, the referral
/// agent's percentage and the stakeholders. It is built once, by
/// `create_referralship`, and never changed.
#[derive(Debug)]
pub struct Referralship {
    app_id: u8,
    referral_agent_split: u8,
    splits: Splits8,
}

impl View for Referralship {
    type V = ReferralshipView;

    closed spec fn view(&self) -> ReferralshipView {
        ReferralshipView {
            app_id: self.app_id,
            referral_agent_split: self.referral_agent_split,
            splits: self.splits@,
        }
    }
}

impl Referralship {
    pub(crate) fn from_parts(app_id: u8, referral_agent_split: u8, splits: Splits8) -> (r:
        Referralship)
        ensures
            r@ == (ReferralshipView { app_id, referral_agent_split, splits: splits@ }),
    {
        Referralship { app_id, referral_agent_split, splits }
    }

    pub fn app_id(&self) -> (r: u8)
        ensures
            r == self@.app_id,
    {
        self.app_id
    }

    pub fn referral_agent_split(&self) -> (r: u8)
        ensures
            r == self@.referral_agent_split,
    {
        self.referral_agent_split
    }

    pub fn splits(&self) -> (r: &Splits8)
        ensures
            r@ == self@.splits,
    {
        &self.splits
    }
}

/// The link from a payer to the referralship that governs its payments, and
/// to the agent who referred it.
#[derive(Clone, Copy, Debug)]
pub struct Subscription {
    pub payer: Address,
    pub referralship: Address,
    pub referral_agent: Address,
}

/// One movement of value that a payment asks for.
#[derive(Clone, Copy, Debug)]
pub struct Transfer {
    pub recipient: Address,
    pub amount: u64,
}

/// Sum of the amounts of a list of transfers.
pub open spec fn transfer_total(t: Seq<Transfer>) -> int
    decreases t.len(),
{
    if t.len() == 0 {
        0
    } else {
        transfer_total(t.drop_last()) + t.last().amount
    }
}

} // verus!
