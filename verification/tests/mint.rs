use nft_ino::entropy::draw_rank;
use nft_ino::error::Error;
use nft_ino::escrow::{Payment, Settlement, Transfer};
use nft_ino::nft::{Contract, PRICE_UNIT};
use nft_ino::record::{decimal_string, NFTContractMetadata, TokenMetadata};
use nft_ino::token::{Custom_NonFungibleTokenCore, NonFungibleToken, Token};
use rand::rngs::StdRng;
use rand::{Rng, SeedableRng};

fn metadata(base_uri: Option<&str>) -> NFTContractMetadata {
    NFTContractMetadata {
        spec: String::from("nft-1.0.0"),
        name: String::from("Parcel"),
        symbol: String::from("PRC"),
        icon: None,
        base_uri: base_uri.map(String::from),
        reference: None,
        reference_hash: None,
    }
}

fn contract(price: u128, count: u128) -> Contract {
    Contract::new(String::from("issuer.near"), metadata(Some("https://media.example")), price, count)
}

fn payment(attached_amount: u128) -> Payment {
    Payment {
        payer: String::from("payer.near"),
        attached_amount,
        storage_bytes_delta: 0,
        byte_cost_rate: 0,
    }
}

fn seed(n: u8) -> [u8; 32] {
    let mut seed = [0u8; 32];
    seed[0] = n;
    seed[31] = n.wrapping_mul(37).wrapping_add(11);
    seed
}

fn receiver() -> String {
    String::from("carol.near")
}

#[test]
fn decimal_of_numbers() {
    assert_eq!(decimal_string(0), "0");
    assert_eq!(decimal_string(9), "9");
    assert_eq!(decimal_string(10), "10");
    assert_eq!(decimal_string(1234567890), "1234567890");
    assert_eq!(decimal_string(u128::MAX), u128::MAX.to_string());
}

#[test]
fn record_is_built_from_name_prefix_and_identifier() {
    let record = metadata(Some("https://media.example")).describe(42);
    assert_eq!(
        record,
        TokenMetadata {
            title: Some(String::from("Parcel #42")),
            description: Some(String::from("Parcel, minted by Dao Nation")),
            media: Some(String::from("https://media.example/42.png")),
            media_hash: None,
            copies: Some(1),
            issued_at: None,
            expires_at: None,
            starts_at: None,
            updated_at: None,
            extra: None,
            reference: Some(String::from("https://media.example/42.json")),
            reference_hash: None,
        }
    );
    assert_eq!(record.duplicate(), record);
}

#[test]
fn record_without_prefix_has_bare_locators() {
    let record = metadata(None).describe(7);
    assert_eq!(record.title, Some(String::from("Parcel #7")));
    assert_eq!(record.media, Some(String::from("/7.png")));
    assert_eq!(record.reference, Some(String::from("/7.json")));
}

#[test]
fn drawn_rank_is_between_one_and_what_remains() {
    for n in 0..=255u8 {
        assert_eq!(draw_rank(seed(n), 1), 1);
        for remaining in [2u128, 3, 10, 1000, u128::MAX] {
            let rank = draw_rank(seed(n), remaining);
            assert!(1 <= rank && rank <= remaining);
        }
    }
}

#[test]
fn drawn_rank_is_the_first_draw_of_a_generator_of_the_seed() {
    for n in 0..50u8 {
        let mut generator = StdRng::from_seed(seed(n));
        let expected: u128 = generator.gen_range(0, 1000) + 1;
        assert_eq!(draw_rank(seed(n), 1000), expected);
    }
    let ranks: Vec<u128> = (0..50u8).map(|n| draw_rank(seed(n), 1000)).collect();
    assert!(ranks.iter().any(|rank| *rank != ranks[0]));
}

#[test]
fn ranked_mints_two_one_one_issue_one_zero_two() {
    let mut contract = contract(0, 3);
    let mut ids = Vec::new();
    for rank in [2u128, 1, 1] {
        let receipt = contract.mint_ranked(receiver(), rank, payment(0)).unwrap();
        ids.push(receipt.token.token_id);
    }
    assert_eq!(ids, vec![1, 0, 2]);
    assert_eq!(contract.get_minted(), 3);
    assert_eq!(contract.remaining(), 0);
    assert_eq!(contract.mint_ranked(receiver(), 1, payment(0)), Err(Error::PoolExhausted));
    assert_eq!(contract.nft_mint(receiver(), seed(1), payment(0)), Err(Error::PoolExhausted));
}

#[test]
fn minted_item_belongs_to_the_receiver() {
    let mut contract = contract(2, 10);
    let receipt = contract.mint_ranked(receiver(), 4, payment(2 * PRICE_UNIT + 50)).unwrap();
    assert_eq!(receipt.token.token_id, 3);
    assert_eq!(receipt.token.owner_id, receiver());
    assert_eq!(receipt.token.metadata, Some(contract.nft_metadata().describe(3)));
    assert_eq!(receipt.token.approved_account_ids, Some(Vec::new()));
    assert_eq!(
        receipt.settlement,
        Settlement {
            refund_amount: 50,
            transfer: Some(Transfer { to: String::from("payer.near"), amount: 50 }),
        }
    );
    assert_eq!(contract.get_minted(), 1);
    assert_eq!(contract.remaining(), 9);
    assert_eq!(contract.nft_metadata(), &metadata(Some("https://media.example")));
}

#[test]
fn full_runs_issue_every_identifier_once() {
    let total: u128 = 12;
    for run in 0..20u8 {
        let mut contract = contract(1, total);
        let mut seen = vec![false; total as usize];
        for step in 0..total {
            assert_eq!(contract.remaining(), total - step);
            let entropy = seed(run.wrapping_mul(13).wrapping_add(step as u8));
            let receipt = contract.nft_mint(receiver(), entropy, payment(PRICE_UNIT)).unwrap();
            let id = receipt.token.token_id;
            assert!(id < total);
            assert!(!seen[id as usize]);
            seen[id as usize] = true;
            assert_eq!(receipt.settlement.refund_amount, 0);
        }
        assert!(seen.iter().all(|issued| *issued));
        assert_eq!(contract.remaining(), 0);
        assert_eq!(contract.get_minted(), total);
        assert_eq!(
            contract.nft_mint(receiver(), seed(run), payment(PRICE_UNIT)),
            Err(Error::PoolExhausted)
        );
    }
}

#[test]
fn every_identifier_comes_first_in_some_run() {
    let total: u128 = 6;
    let mut first = vec![false; total as usize];
    let mut last = vec![false; total as usize];
    for run in 0..=255u8 {
        let mut contract = contract(0, total);
        for step in 0..total {
            let entropy = seed(run.wrapping_add((step as u8).wrapping_mul(41)));
            let id = contract.nft_mint(receiver(), entropy, payment(0)).unwrap().token.token_id;
            if step == 0 {
                first[id as usize] = true;
            }
            if step == total - 1 {
                last[id as usize] = true;
            }
        }
    }
    assert!(first.iter().all(|reached| *reached));
    assert!(last.iter().all(|reached| *reached));
}

#[test]
fn same_seed_and_state_issue_the_same_identifier() {
    let mut one = contract(0, 1000);
    let mut other = contract(0, 1000);
    for n in 0..30u8 {
        let a = one.nft_mint(receiver(), seed(n), payment(0)).unwrap();
        let b = other.nft_mint(receiver(), seed(n), payment(0)).unwrap();
        assert_eq!(a, b);
    }
}

#[test]
fn payment_below_the_price_is_insufficient() {
    let mut contract = contract(3, 5);
    let short = payment(3 * PRICE_UNIT - 1);
    assert_eq!(contract.nft_mint(receiver(), seed(0), short.clone()), Err(Error::InsufficientPayment));
    assert_eq!(contract.mint_ranked(receiver(), 1, short), Err(Error::InsufficientPayment));
    assert_eq!(contract.get_minted(), 0);
    assert_eq!(contract.remaining(), 5);
    // the rank that was refused is not lost
    let receipt = contract.mint_ranked(receiver(), 1, payment(3 * PRICE_UNIT)).unwrap();
    assert_eq!(receipt.token.token_id, 0);
}

#[test]
fn payment_that_does_not_cover_storage_is_insufficient() {
    let mut contract = contract(1, 5);
    let mut metered = payment(PRICE_UNIT + 999);
    metered.storage_bytes_delta = 10;
    metered.byte_cost_rate = 100;
    assert_eq!(
        contract.nft_mint(receiver(), seed(0), metered.clone()),
        Err(Error::InsufficientPayment)
    );
    assert_eq!(contract.get_minted(), 0);
    metered.attached_amount = PRICE_UNIT + 1000;
    let receipt = contract.nft_mint(receiver(), seed(0), metered.clone()).unwrap();
    assert_eq!(receipt.settlement, Settlement { refund_amount: 0, transfer: None });
    metered.attached_amount = PRICE_UNIT + 1000 + 25;
    let receipt = contract.nft_mint(receiver(), seed(0), metered).unwrap();
    assert_eq!(receipt.settlement.refund_amount, 25);
    assert_eq!(contract.get_minted(), 2);
}

#[test]
fn price_beyond_every_amount_is_insufficient() {
    let mut contract = contract(u128::MAX, 5);
    assert_eq!(
        contract.nft_mint(receiver(), seed(0), payment(u128::MAX)),
        Err(Error::InsufficientPayment)
    );
    assert_eq!(contract.get_minted(), 0);
}

#[test]
fn exhausted_pool_is_reported_whatever_is_paid() {
    let mut empty = contract(1, 0);
    assert_eq!(empty.nft_mint(receiver(), seed(0), payment(0)), Err(Error::PoolExhausted));
    assert_eq!(empty.nft_mint(receiver(), seed(0), payment(PRICE_UNIT)), Err(Error::PoolExhausted));
    assert_eq!(empty.mint_ranked(receiver(), 1, payment(0)), Err(Error::PoolExhausted));
    let mut single = contract(1, 1);
    // the rank is judged before the payment
    assert_eq!(single.mint_ranked(receiver(), 2, payment(0)), Err(Error::InvariantViolation));
    assert_eq!(single.mint_ranked(receiver(), 1, payment(0)), Err(Error::InsufficientPayment));
    assert_eq!(single.remaining(), 1);
    single.nft_mint(receiver(), seed(0), payment(PRICE_UNIT)).unwrap();
    assert_eq!(single.nft_mint(receiver(), seed(0), payment(0)), Err(Error::PoolExhausted));
}

#[test]
fn rank_out_of_range_changes_nothing() {
    let mut contract = contract(0, 3);
    assert_eq!(contract.mint_ranked(receiver(), 0, payment(0)), Err(Error::InvariantViolation));
    assert_eq!(contract.mint_ranked(receiver(), 4, payment(0)), Err(Error::InvariantViolation));
    assert_eq!(contract.get_minted(), 0);
    assert_eq!(contract.remaining(), 3);
}

#[test]
fn ledger_refuses_a_mint_without_record() {
    let mut ledger = NonFungibleToken::new(String::from("issuer.near"), true, true);
    let refused = ledger.custom_mint(5, receiver(), None, 0, payment(0));
    assert_eq!(refused, Err(Error::MissingMetadata));
    assert!(!ledger.contains(5));
    assert_eq!(ledger.len(), 0);
}

#[test]
fn ledger_refuses_a_taken_identifier() {
    let mut ledger = NonFungibleToken::new(String::from("issuer.near"), true, false);
    let record = metadata(None).describe(5);
    let receipt = ledger.custom_mint(5, receiver(), Some(record.clone()), 10, payment(10)).unwrap();
    assert_eq!(receipt.token.token_id, 5);
    assert_eq!(receipt.token.approved_account_ids, None);
    assert!(ledger.contains(5));
    let again = ledger.custom_mint(5, String::from("dave.near"), Some(record.clone()), 10, payment(10));
    assert_eq!(again, Err(Error::DuplicateIdentifier));
    // a missing record is reported before a taken identifier, and that before the payment
    assert_eq!(ledger.custom_mint(5, receiver(), None, 10, payment(0)), Err(Error::MissingMetadata));
    assert_eq!(
        ledger.custom_mint(5, receiver(), Some(record.clone()), 10, payment(0)),
        Err(Error::DuplicateIdentifier)
    );
    assert_eq!(
        ledger.custom_mint(6, receiver(), Some(record), 10, payment(9)),
        Err(Error::InsufficientPayment)
    );
    assert!(!ledger.contains(6));
    assert_eq!(ledger.len(), 1);
}

#[test]
fn ledger_without_records_takes_a_mint_without_one() {
    let mut ledger = NonFungibleToken::new(String::from("issuer.near"), false, true);
    let receipt = ledger.custom_mint(1, receiver(), None, 0, payment(3)).unwrap();
    assert_eq!(receipt.token.metadata, None);
    assert_eq!(receipt.token.owner_id, receiver());
    assert_eq!(receipt.token.approved_account_ids, Some(Vec::new()));
    assert_eq!(receipt.settlement.refund_amount, 3);
    assert_eq!(ledger.len(), 1);
}

#[test]
fn unit_price_is_the_price_in_price_units() {
    assert_eq!(PRICE_UNIT, 10_000_000_000_000_000);
    assert_eq!(contract(0, 1).unit_price(), Some(0));
    assert_eq!(contract(3, 1).unit_price(), Some(30_000_000_000_000_000));
    assert_eq!(contract(u128::MAX / PRICE_UNIT, 1).unit_price(), Some(u128::MAX / PRICE_UNIT * PRICE_UNIT));
    assert_eq!(contract(u128::MAX / PRICE_UNIT + 1, 1).unit_price(), None);
    assert_eq!(contract(3, 8).mint_price(), 3);
    assert_eq!(contract(3, 8).total_count(), 8);
    assert_eq!(contract(3, 8).owner_id(), "issuer.near");
}

#[test]
fn ledger_hands_out_what_it_recorded() {
    let mut ledger = NonFungibleToken::new(String::from("issuer.near"), true, true);
    assert_eq!(ledger.owner_id(), "issuer.near");
    assert!(ledger.keeps_records());
    assert!(ledger.keeps_approvals());
    let record = metadata(Some("ipfs://root")).describe(11);
    let receipt = ledger.custom_mint(11, receiver(), Some(record.clone()), 0, payment(0)).unwrap();
    assert_eq!(ledger.token(11), Some(receipt.token));
    assert_eq!(ledger.token(12), None);
    ledger.custom_mint(12, String::from("dave.near"), Some(record.clone()), 0, payment(0)).unwrap();
    let found = ledger.token(12).unwrap();
    assert_eq!(found.owner_id, "dave.near");
    assert_eq!(found.metadata, Some(record));
    assert_eq!(ledger.len(), 2);
}

#[test]
fn restored_issuer_goes_on_where_the_other_stood() {
    let mut contract = contract(1, 5);
    for rank in [3u128, 1] {
        contract.mint_ranked(receiver(), rank, payment(PRICE_UNIT)).unwrap();
    }
    let tokens = contract.tokens();
    let ids: Vec<u128> = tokens.iter().map(|token| token.token_id).collect();
    assert_eq!(ids, vec![0, 2]);
    let mut restored = Contract::restore(
        contract.owner_id().clone(),
        contract.nft_metadata().clone(),
        contract.mint_price(),
        contract.total_count(),
        &tokens,
    )
    .unwrap();
    assert_eq!(restored.get_minted(), 2);
    assert_eq!(restored.remaining(), 3);
    assert_eq!(restored.tokens(), tokens);
    assert_eq!(restored.nft_metadata(), contract.nft_metadata());
    let next = restored.mint_ranked(receiver(), 2, payment(PRICE_UNIT)).unwrap();
    assert_eq!(next, contract.mint_ranked(receiver(), 2, payment(PRICE_UNIT)).unwrap());
    assert_eq!(next.token.token_id, 3);
}

#[test]
fn issuer_is_not_restored_from_what_no_issuer_has_issued() {
    let item = |token_id: u128| Token {
        token_id,
        owner_id: receiver(),
        metadata: Some(metadata(None).describe(token_id)),
        approved_account_ids: Some(Vec::new()),
    };
    let restore = |tokens: Vec<Token>| {
        Contract::restore(String::from("issuer.near"), metadata(None), 1, 3, &tokens)
    };
    assert!(restore(vec![item(0), item(2)]).is_some());
    assert!(restore(vec![item(0), item(3)]).is_none());
    assert!(restore(vec![item(1), item(1)]).is_none());
    let mut bare = item(1);
    bare.metadata = None;
    assert!(restore(vec![bare]).is_none());
}
