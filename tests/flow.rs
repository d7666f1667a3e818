use hello_web3::address::Address;
use hello_web3::amount::Amount;
use hello_web3::confirm::{await_receipt, PollStep, ReceiptPoll, TransactionReceipt};
use hello_web3::error::Web3Error;
use hello_web3::fees::{estimate, estimated_fee, FeePolicy, GWEI, TRANSFER_GAS_LIMIT};
use hello_web3::nonce::{has_nonce_conflict, NonceAllocator};
use hello_web3::tx::{build, build_from_display};
use hello_web3::units::to_display;

const RECIPIENT: &str = "0x07EC3cC10e2917c3C25bCD7473485f99C6205200";

fn policy() -> FeePolicy {
    FeePolicy {
        max_fee_per_gas: Amount::from_u64(2 * GWEI),
        max_priority_fee_per_gas: Amount::zero(),
    }
}

fn receipt(block: u64, success: bool) -> TransactionReceipt {
    TransactionReceipt { tx_hash: [7; 32], block_number: block, success }
}

#[test]
fn fee_from_mocked_gas_price() {
    let price = Amount::from_u64(1_000_000_000);
    let est = estimate(&price, TRANSFER_GAS_LIMIT, &Amount::from_u64(GWEI), &Amount::zero())
        .unwrap();
    assert_eq!(est.estimated_fee, Amount::from_u128(21_000_000_000_000));
    assert_eq!(to_display(&est.estimated_fee, 18, 6), "0.000021");
    assert_eq!(est.policy.max_fee_per_gas, Amount::from_u64(2_000_000_000));
    assert_eq!(est.policy.max_priority_fee_per_gas, Amount::zero());
    assert_eq!(est.gas_limit, 21000);
}

#[test]
fn fee_is_exact_product_for_sampled_prices() {
    for p in [0u64, 1, 7, 100_000_000, 12_345_678_901, u64::MAX] {
        let fee = estimated_fee(&Amount::from_u64(p), 21000).unwrap();
        assert_eq!(fee, Amount::from_u128(p as u128 * 21000));
    }
}

#[test]
fn fee_overflow_is_reported() {
    let huge = Amount { l0: 0, l1: 0, l2: 0, l3: u64::MAX };
    assert_eq!(estimated_fee(&huge, 21000), Err(Web3Error::InvalidAmount));
    let r = estimate(&huge, 1, &huge, &Amount::zero());
    assert_eq!(r, Err(Web3Error::InvalidAmount));
}

#[test]
fn build_binds_all_fields() {
    let t = build(RECIPIENT, &Amount::from_u64(5), 421614, &policy(), 3).unwrap();
    assert_eq!(t.to, Address::parse(RECIPIENT).unwrap());
    assert_eq!(t.value, Amount::from_u64(5));
    assert_eq!(t.chain_id, 421614);
    assert_eq!(t.gas_limit, 21000);
    assert_eq!(t.max_fee_per_gas, Amount::from_u64(2_000_000_000));
    assert_eq!(t.max_priority_fee_per_gas, Amount::zero());
    assert_eq!(t.nonce, 3);
}

#[test]
fn build_rejects_malformed_recipient() {
    for bad in [
        "0x1234",
        "0x07EC3cC10e2917c3C25bCD7473485f99C62052gg",
        "not an address",
        "0x07EC3cC10e2917c3C25bCD7473485f99C6205200 ",
    ] {
        assert_eq!(
            build(bad, &Amount::from_u64(5), 421614, &policy(), 0),
            Err(Web3Error::InvalidAddress)
        );
    }
}

#[test]
fn build_from_display_amount() {
    let t = build_from_display(RECIPIENT, "0.001", 18, 421614, &policy(), 0).unwrap();
    assert_eq!(t.value, Amount::from_u128(1_000_000_000_000_000));
    assert_eq!(
        build_from_display("0x12", "0.001", 18, 421614, &policy(), 0),
        Err(Web3Error::InvalidAddress)
    );
    assert_eq!(
        build_from_display(RECIPIENT, "0.0.1", 18, 421614, &policy(), 0),
        Err(Web3Error::InvalidAmount)
    );
}

#[test]
fn one_allocator_never_repeats_a_nonce() {
    let sender = Address::parse(RECIPIENT).unwrap();
    let mut alloc = NonceAllocator::new(sender, 41);
    let a = alloc.allocate().unwrap();
    let b = alloc.allocate().unwrap();
    assert_eq!((a, b), (41, 42));
    assert_eq!(alloc.peek(), 43);
    assert_eq!(alloc.sender(), sender);
    assert!(!has_nonce_conflict(&vec![a, b]));
    let mut last = NonceAllocator::new(sender, u64::MAX);
    assert_eq!(last.allocate(), None);
}

#[test]
fn racing_flows_with_duplicated_nonces_are_detected() {
    let sender = Address::parse(RECIPIENT).unwrap();
    let mut first = NonceAllocator::new(sender, 9);
    let mut second = NonceAllocator::new(sender, 9);
    let n1 = first.allocate().unwrap();
    let n2 = second.allocate().unwrap();
    let t1 = build(RECIPIENT, &Amount::from_u64(1), 421614, &policy(), n1).unwrap();
    let t2 = build(RECIPIENT, &Amount::from_u64(2), 421614, &policy(), n2).unwrap();
    assert!(has_nonce_conflict(&vec![t1.nonce, t2.nonce]));
    assert!(has_nonce_conflict(&vec![1, 2, 3, 2]));
    assert!(!has_nonce_conflict(&vec![]));
}

#[test]
fn missing_receipt_times_out_after_budget() {
    let answers = vec![None; 5];
    assert_eq!(await_receipt(&answers, 5), (Err(Web3Error::ConfirmationTimeout), 5));
    assert_eq!(await_receipt(&answers, 0), (Err(Web3Error::ConfirmationTimeout), 0));
}

#[test]
fn receipt_found_on_a_later_lookup() {
    let answers = vec![None, None, Some(receipt(12, true)), None];
    assert_eq!(await_receipt(&answers, 4), (Ok(receipt(12, true)), 3));
    assert_eq!(await_receipt(&answers, 2), (Err(Web3Error::ConfirmationTimeout), 2));
    let first = vec![Some(receipt(5, true)), None];
    assert_eq!(await_receipt(&first, 2), (Ok(receipt(5, true)), 1));
}

#[test]
fn reverted_receipt_is_still_returned() {
    let answers = vec![Some(receipt(3, false))];
    assert_eq!(await_receipt(&answers, 1), (Ok(receipt(3, false)), 1));
}

#[test]
fn poll_steps() {
    let mut poll = ReceiptPoll::new(2);
    assert!(poll.may_look());
    assert_eq!(poll.on_lookup(None), PollStep::LookAgain);
    assert_eq!(poll.on_lookup(None), PollStep::Finished(Err(Web3Error::ConfirmationTimeout)));
    assert!(!poll.may_look());
    assert_eq!(poll.on_lookup(Some(receipt(1, true))),
        PollStep::Finished(Err(Web3Error::ConfirmationTimeout)));
}
