use referrals::{
    check_split_inputs, compute_split, create_referralship, find_duplicate, split_payment,
    subscribe_with_referral, Address, AddressWithWeight, Referralship, ReferralError, Splits8,
    Subscription, MAX_SPLITS,
};

fn addr(tag: u8) -> Address {
    let mut bytes = [0u8; 32];
    bytes[0] = tag;
    bytes[31] = tag.wrapping_mul(7);
    Address::new(bytes)
}

fn entries(weights: &[u8]) -> Vec<AddressWithWeight> {
    weights
        .iter()
        .enumerate()
        .map(|(i, w)| AddressWithWeight { address: addr(i as u8 + 1), weight: *w })
        .collect()
}

fn referralship(agent_split: u8, weights: &[u8]) -> Referralship {
    create_referralship(1, agent_split, entries(weights)).expect("valid referralship")
}

fn subscription(payer: u8, referralship_key: &Address, agent: u8) -> Subscription {
    Subscription { payer: addr(payer), referralship: *referralship_key, referral_agent: addr(agent) }
}

fn split_sum(agent: u64, shares: &[u64]) -> u128 {
    agent as u128 + shares.iter().map(|s| *s as u128).sum::<u128>()
}

#[test]
fn scenario_even_split_with_agent_cut() {
    let o = compute_split(1000, 10, &vec![50, 50]).unwrap();
    assert_eq!(o.agent_amount, 100);
    assert_eq!(1000 - o.agent_amount, 900);
    assert_eq!(o.shares, vec![450, 450]);
}

#[test]
fn scenario_leftover_goes_to_first_recipient() {
    let o = compute_split(100, 0, &vec![1, 1, 1]).unwrap();
    assert_eq!(o.agent_amount, 0);
    assert_eq!(o.shares, vec![34, 33, 33]);
    assert_eq!(split_sum(o.agent_amount, &o.shares), 100);
}

#[test]
fn scenario_zero_weight_rejected() {
    let r = create_referralship(1, 10, entries(&[0, 5]));
    assert!(matches!(r, Err(ReferralError::InvalidWeight)));
}

#[test]
fn scenario_zero_amount_rejected_without_transfers() {
    let key = addr(200);
    let rs = Some(referralship(10, &[50, 50]));
    let sub = Some(subscription(100, &key, 101));
    let r = split_payment(&sub, &key, &rs, 0);
    assert!(matches!(r, Err(ReferralError::PaymentAmountInvalid)));
}

#[test]
fn conservation_on_many_inputs() {
    let weight_lists: Vec<Vec<u8>> = vec![
        vec![1],
        vec![3, 7],
        vec![1, 1, 1],
        vec![255, 1, 17, 33],
        vec![5, 5, 5, 5, 5, 5, 5],
        vec![255, 255, 255, 255, 255, 255, 255, 255],
        vec![1, 2, 3, 4, 5, 6, 7, 8],
    ];
    let amounts = [1u64, 2, 7, 99, 100, 1001, 123_456_789, u64::MAX - 1, u64::MAX];
    for w in &weight_lists {
        for &amount in &amounts {
            for pct in [0u8, 1, 10, 33, 50, 99, 100] {
                let o = compute_split(amount, pct, w).unwrap();
                assert_eq!(split_sum(o.agent_amount, &o.shares), amount as u128);
                assert_eq!(o.shares.len(), w.len());
            }
        }
    }
}

#[test]
fn shares_are_never_negative_and_agent_cut_is_bounded() {
    let o = compute_split(u64::MAX, 100, &vec![1, 2]).unwrap();
    assert_eq!(o.agent_amount, u64::MAX);
    assert_eq!(o.shares, vec![0, 0]);
    let o = compute_split(u64::MAX, 0, &vec![255]).unwrap();
    assert_eq!(o.agent_amount, 0);
    assert_eq!(o.shares, vec![u64::MAX]);
}

#[test]
fn split_is_deterministic() {
    let w = vec![3, 1, 4, 1, 5, 9, 2, 6];
    let a = compute_split(987_654_321, 37, &w).unwrap();
    let b = compute_split(987_654_321, 37, &w).unwrap();
    assert_eq!(a.agent_amount, b.agent_amount);
    assert_eq!(a.shares, b.shares);
}

#[test]
fn shares_within_one_unit_of_exact_entitlement() {
    let w: Vec<u8> = vec![3, 1, 4, 1, 5, 9, 2, 6];
    let ws: u128 = w.iter().map(|x| *x as u128).sum();
    for amount in [1u64, 10, 31, 1000, 999_999_937, u64::MAX] {
        let o = compute_split(amount, 13, &w).unwrap();
        let pool = (amount - o.agent_amount) as u128;
        for (i, s) in o.shares.iter().enumerate() {
            let exact = pool * w[i] as u128;
            let scaled = *s as u128 * ws;
            assert!(scaled + ws >= exact);
            assert!(exact + ws >= scaled);
        }
    }
}

#[test]
fn agent_cut_rounds_down() {
    let o = compute_split(199, 1, &vec![1]).unwrap();
    assert_eq!(o.agent_amount, 1);
    assert_eq!(o.shares, vec![198]);
    let o = compute_split(7, 33, &vec![2, 1]).unwrap();
    assert_eq!(o.agent_amount, 2);
    assert_eq!(o.shares, vec![4, 1]);
}

#[test]
fn leftover_units_go_in_declaration_order() {
    let o = compute_split(10, 0, &vec![1, 1, 1, 1, 1, 1, 1, 1]).unwrap();
    assert_eq!(o.shares, vec![2, 2, 1, 1, 1, 1, 1, 1]);
}

#[test]
fn split_rejects_bad_inputs() {
    assert!(matches!(compute_split(10, 101, &vec![1]), Err(ReferralError::InvalidAgentSplit)));
    assert!(matches!(compute_split(10, 10, &vec![]), Err(ReferralError::InvalidSplitCount)));
    assert!(matches!(
        compute_split(10, 10, &vec![1; 9]),
        Err(ReferralError::InvalidSplitCount)
    ));
    assert!(matches!(compute_split(10, 10, &vec![1, 0]), Err(ReferralError::InvalidWeight)));
}

#[test]
fn check_split_inputs_returns_weight_sum() {
    assert_eq!(check_split_inputs(100, &vec![255; 8]), Ok(2040));
    assert_eq!(check_split_inputs(0, &vec![4, 6]), Ok(10));
    assert_eq!(check_split_inputs(101, &vec![]), Err(ReferralError::InvalidAgentSplit));
}

#[test]
fn create_rejects_empty_splits() {
    let r = create_referralship(1, 10, vec![]);
    assert!(matches!(r, Err(ReferralError::InvalidSplitCount)));
}

#[test]
fn create_rejects_nine_splits() {
    let r = create_referralship(1, 10, entries(&[1; 9]));
    assert!(matches!(r, Err(ReferralError::InvalidSplitCount)));
}

#[test]
fn create_rejects_agent_split_above_hundred() {
    let r = create_referralship(1, 101, entries(&[1, 2]));
    assert!(matches!(r, Err(ReferralError::InvalidAgentSplit)));
}

#[test]
fn create_rejects_duplicate_addresses() {
    let mut s = entries(&[1, 2, 3]);
    s[2].address = s[0].address;
    let r = create_referralship(1, 10, s);
    assert!(matches!(r, Err(ReferralError::DuplicateRecipient)));
}

#[test]
fn create_rejects_combinations_in_check_order() {
    let r = create_referralship(1, 101, vec![]);
    assert!(matches!(r, Err(ReferralError::InvalidAgentSplit)));
    let r = create_referralship(1, 50, entries(&[0; 9]));
    assert!(matches!(r, Err(ReferralError::InvalidSplitCount)));
    let mut s = entries(&[0, 2]);
    s[1].address = s[0].address;
    let r = create_referralship(1, 50, s);
    assert!(matches!(r, Err(ReferralError::InvalidWeight)));
}

#[test]
fn create_keeps_its_inputs() {
    let s = entries(&[1, 2, 3, 4, 5, 6, 7, 8]);
    let rs = create_referralship(9, 100, s.clone()).unwrap();
    assert_eq!(rs.app_id(), 9);
    assert_eq!(rs.referral_agent_split(), 100);
    assert_eq!(rs.splits().len(), 8);
    for i in 0..8 {
        assert_eq!(rs.splits().get(i).address.bytes, s[i].address.bytes);
        assert_eq!(rs.splits().get(i).weight, s[i].weight);
    }
    assert_eq!(rs.splits().weights(), vec![1, 2, 3, 4, 5, 6, 7, 8]);
}

#[test]
fn find_duplicate_compares_all_bytes() {
    let mut s = entries(&[1, 1]);
    assert!(!find_duplicate(&s));
    s[1].address.bytes = s[0].address.bytes;
    s[1].address.bytes[17] = 1;
    assert!(!find_duplicate(&s));
    s[1].address.bytes[17] = 0;
    assert!(find_duplicate(&s));
}

#[test]
fn address_equality() {
    assert!(addr(3).same_as(&addr(3)));
    assert!(!addr(3).same_as(&addr(4)));
}

#[test]
fn splits8_refuses_a_ninth_entry() {
    let mut s = Splits8::new();
    for (i, e) in entries(&[1; 8]).into_iter().enumerate() {
        assert_eq!(s.push(e), Ok(()));
        assert_eq!(s.len(), i + 1);
    }
    assert_eq!(s.len(), MAX_SPLITS);
    let extra = AddressWithWeight { address: addr(99), weight: 4 };
    assert_eq!(s.push(extra), Err(ReferralError::InvalidSplitCount));
    assert_eq!(s.len(), 8);
    assert_eq!(s.weights(), vec![1; 8]);
}

#[test]
fn subscribe_creates_link() {
    let key = addr(200);
    let rs = Some(referralship(10, &[1]));
    let sub = subscribe_with_referral(addr(100), addr(101), key, &rs, &None).unwrap();
    assert_eq!(sub.payer.bytes, addr(100).bytes);
    assert_eq!(sub.referralship.bytes, key.bytes);
    assert_eq!(sub.referral_agent.bytes, addr(101).bytes);
}

#[test]
fn subscribe_again_keeps_existing_link() {
    let key = addr(200);
    let rs = Some(referralship(10, &[1]));
    let existing = Some(subscription(100, &key, 101));
    let sub = subscribe_with_referral(addr(100), addr(102), key, &rs, &existing).unwrap();
    assert_eq!(sub.referral_agent.bytes, addr(101).bytes);
    assert_eq!(sub.referralship.bytes, key.bytes);
}

#[test]
fn subscribe_to_another_referralship_fails() {
    let rs = Some(referralship(10, &[1]));
    let existing = Some(subscription(100, &addr(200), 101));
    let r = subscribe_with_referral(addr(100), addr(101), addr(201), &rs, &existing);
    assert!(matches!(r, Err(ReferralError::AlreadySubscribed)));
}

#[test]
fn subscribe_to_missing_referralship_fails() {
    let r = subscribe_with_referral(addr(100), addr(101), addr(200), &None, &None);
    assert!(matches!(r, Err(ReferralError::ReferralshipNotFound)));
}

#[test]
fn split_payment_pays_agent_then_stakeholders() {
    let key = addr(200);
    let rs = Some(referralship(10, &[50, 50]));
    let sub = Some(subscription(100, &key, 101));
    let t = split_payment(&sub, &key, &rs, 1000).unwrap();
    assert_eq!(t.len(), 3);
    assert_eq!(t[0].recipient.bytes, addr(101).bytes);
    assert_eq!(t[0].amount, 100);
    assert_eq!(t[1].recipient.bytes, addr(1).bytes);
    assert_eq!(t[1].amount, 450);
    assert_eq!(t[2].recipient.bytes, addr(2).bytes);
    assert_eq!(t[2].amount, 450);
}

#[test]
fn split_payment_total_equals_amount() {
    let key = addr(200);
    let rs = Some(referralship(7, &[3, 1, 4, 1, 5, 9, 2, 6]));
    let sub = Some(subscription(100, &key, 101));
    for amount in [1u64, 2, 100, 12_345, u64::MAX] {
        let t = split_payment(&sub, &key, &rs, amount).unwrap();
        assert_eq!(t.len(), 9);
        let total: u128 = t.iter().map(|x| x.amount as u128).sum();
        assert_eq!(total, amount as u128);
    }
}

#[test]
fn split_payment_without_subscription_fails() {
    let key = addr(200);
    let rs = Some(referralship(10, &[1]));
    let r = split_payment(&None, &key, &rs, 5);
    assert!(matches!(r, Err(ReferralError::SubscriptionNotFound)));
}

#[test]
fn split_payment_without_referralship_fails() {
    let key = addr(200);
    let sub = Some(subscription(100, &key, 101));
    let r = split_payment(&sub, &key, &None, 5);
    assert!(matches!(r, Err(ReferralError::ReferralshipNotFound)));
}

#[test]
fn split_payment_under_other_referralship_fails() {
    let rs = Some(referralship(10, &[1]));
    let sub = Some(subscription(100, &addr(200), 101));
    let r = split_payment(&sub, &addr(201), &rs, 5);
    assert!(matches!(r, Err(ReferralError::ReferralshipNotFound)));
}
