use nft_ino::error::Error;
use nft_ino::escrow::{settle, Settlement, Transfer, DUST_THRESHOLD};

fn payer() -> String {
    String::from("alice.near")
}

#[test]
fn exact_payment_refunds_nothing() {
    // required = 1000 + 500 * 3
    let settled = settle(2500, 1000, 500, 3, payer());
    assert_eq!(settled, Ok(Settlement { refund_amount: 0, transfer: None }));
}

#[test]
fn one_unit_short_is_insufficient() {
    assert_eq!(settle(2499, 1000, 500, 3, payer()), Err(Error::InsufficientPayment));
    assert_eq!(settle(0, 1000, 500, 3, payer()), Err(Error::InsufficientPayment));
}

#[test]
fn surplus_is_refunded_to_the_payer() {
    let settled = settle(2500 + 777, 1000, 500, 3, payer());
    assert_eq!(
        settled,
        Ok(Settlement {
            refund_amount: 777,
            transfer: Some(Transfer { to: payer(), amount: 777 }),
        })
    );
}

#[test]
fn dust_is_kept() {
    assert_eq!(DUST_THRESHOLD, 1);
    let settled = settle(2501, 1000, 500, 3, payer());
    assert_eq!(settled, Ok(Settlement { refund_amount: 1, transfer: None }));
    let settled = settle(2502, 1000, 500, 3, payer());
    assert_eq!(
        settled,
        Ok(Settlement { refund_amount: 2, transfer: Some(Transfer { to: payer(), amount: 2 }) })
    );
}

#[test]
fn required_amount_is_price_plus_storage() {
    // 7 + 3 * 5 = 22
    let settled = settle(30, 7, 3, 5, payer()).unwrap();
    assert_eq!(settled.refund_amount, 8);
    // no storage, no price
    let settled = settle(0, 0, 0, 0, payer()).unwrap();
    assert_eq!(settled.refund_amount, 0);
    assert_eq!(settled.transfer, None);
    // storage at no cost
    let settled = settle(10, 10, u64::MAX, 0, payer()).unwrap();
    assert_eq!(settled.refund_amount, 0);
}

#[test]
fn cost_beyond_every_amount_is_insufficient() {
    assert_eq!(settle(u128::MAX, 0, 2, u128::MAX, payer()), Err(Error::InsufficientPayment));
    assert_eq!(settle(u128::MAX, 1, 1, u128::MAX, payer()), Err(Error::InsufficientPayment));
    assert_eq!(settle(u128::MAX, u128::MAX, 1, 1, payer()), Err(Error::InsufficientPayment));
    let settled = settle(u128::MAX, u128::MAX - 5, 5, 1, payer()).unwrap();
    assert_eq!(settled.refund_amount, 0);
}
