use nft_ino::error::Error;
use nft_ino::escrow::{Payment, Transfer};
use nft_ino::ino::{Collection, INO};

fn owner() -> String {
    String::from("owner.near")
}

fn collection(name: &str) -> Collection {
    Collection {
        name: String::from(name),
        symbol: String::from("SYM"),
        url: String::from("https://example.org/collection"),
        total_count: 100,
        price: 5,
        contract: String::from("nft.example.near"),
    }
}

fn payment(attached_amount: u128, storage_bytes_delta: u64, byte_cost_rate: u128) -> Payment {
    Payment { payer: String::from("bob.near"), attached_amount, storage_bytes_delta, byte_cost_rate }
}

#[test]
fn add_refunds_what_storage_leaves() {
    let mut registry = INO::new(owner());
    let receipt = registry.add_collection(collection("first"), payment(600, 500, 1)).unwrap();
    assert_eq!(receipt.settlement.refund_amount, 100);
    assert_eq!(
        receipt.settlement.transfer,
        Some(Transfer { to: String::from("bob.near"), amount: 100 })
    );
    assert_eq!(receipt.id, 0);
}

#[test]
fn ids_are_sequential_from_zero() {
    let mut registry = INO::new(owner());
    assert_eq!(registry.collection_count(), 0);
    for id in 0..5u128 {
        let receipt = registry.add_collection(collection(&format!("c{}", id)), payment(10, 10, 1));
        assert_eq!(receipt.unwrap().id, id);
        assert_eq!(registry.collection_count(), id + 1);
    }
    let (collections, status) = registry.get_collection();
    assert_eq!(collections.len(), 5);
    assert_eq!(status, vec![false; 5]);
    for (id, entry) in collections.iter().enumerate() {
        assert_eq!(entry.name, format!("c{}", id));
    }
}

#[test]
fn add_without_enough_payment_changes_nothing() {
    let mut registry = INO::new(owner());
    registry.add_collection(collection("kept"), payment(0, 0, 1)).unwrap();
    let refused = registry.add_collection(collection("refused"), payment(499, 500, 1));
    assert_eq!(refused, Err(Error::InsufficientPayment));
    assert_eq!(registry.collection_count(), 1);
    let (collections, status) = registry.get_collection();
    assert_eq!(collections, vec![collection("kept")]);
    assert_eq!(status, vec![false]);
    // the id that was refused is given to the next entry
    let receipt = registry.add_collection(collection("next"), payment(500, 500, 1)).unwrap();
    assert_eq!(receipt.id, 1);
    assert_eq!(receipt.settlement.refund_amount, 0);
    assert_eq!(receipt.settlement.transfer, None);
}

#[test]
fn activate_is_idempotent() {
    let mut registry = INO::new(owner());
    registry.add_collection(collection("a"), payment(0, 0, 0)).unwrap();
    registry.add_collection(collection("b"), payment(0, 0, 0)).unwrap();
    assert_eq!(registry.update_collection_status(&owner(), Some(0)), Ok(()));
    assert_eq!(registry.get_collection().1, vec![true, false]);
    assert_eq!(registry.update_collection_status(&owner(), Some(0)), Ok(()));
    assert_eq!(registry.get_collection().1, vec![true, false]);
}

#[test]
fn activate_by_another_caller_is_unauthorized() {
    let mut registry = INO::new(owner());
    registry.add_collection(collection("a"), payment(0, 0, 0)).unwrap();
    let stranger = String::from("mallory.near");
    assert_eq!(registry.update_collection_status(&stranger, Some(0)), Err(Error::Unauthorized));
    assert_eq!(registry.update_collection_status(&stranger, None), Err(Error::Unauthorized));
    // the caller is judged before the id
    assert_eq!(registry.update_collection_status(&stranger, Some(9)), Err(Error::Unauthorized));
    assert_eq!(registry.get_collection().1, vec![false]);
}

#[test]
fn activate_without_id_aims_at_the_last_entry() {
    let mut registry = INO::new(owner());
    for name in ["a", "b", "c"] {
        registry.add_collection(collection(name), payment(0, 0, 0)).unwrap();
    }
    assert_eq!(registry.update_collection_status(&owner(), None), Ok(()));
    assert_eq!(registry.get_collection().1, vec![false, false, true]);
    registry.add_collection(collection("d"), payment(0, 0, 0)).unwrap();
    assert_eq!(registry.get_collection().1, vec![false, false, true, false]);
    assert_eq!(registry.update_collection_status(&owner(), None), Ok(()));
    assert_eq!(registry.get_collection().1, vec![false, false, true, true]);
}

#[test]
fn activate_outside_the_entries_is_invalid() {
    let mut registry = INO::new(owner());
    assert_eq!(registry.update_collection_status(&owner(), None), Err(Error::InvalidId));
    assert_eq!(registry.update_collection_status(&owner(), Some(0)), Err(Error::InvalidId));
    registry.add_collection(collection("a"), payment(0, 0, 0)).unwrap();
    assert_eq!(registry.update_collection_status(&owner(), Some(1)), Err(Error::InvalidId));
    assert_eq!(registry.update_collection_status(&owner(), Some(u128::MAX)), Err(Error::InvalidId));
    assert_eq!(registry.get_collection().1, vec![false]);
    assert_eq!(registry.update_collection_status(&owner(), Some(0)), Ok(()));
    assert_eq!(registry.get_collection().1, vec![true]);
}

#[test]
fn listing_is_in_id_order_and_reads_only() {
    let mut registry = INO::new(owner());
    registry.add_collection(collection("x"), payment(0, 0, 0)).unwrap();
    registry.add_collection(collection("y"), payment(0, 0, 0)).unwrap();
    registry.update_collection_status(&owner(), Some(1)).unwrap();
    let first = registry.get_collection();
    let second = registry.get_collection();
    assert_eq!(first, second);
    assert_eq!(first.0, vec![collection("x"), collection("y")]);
    assert_eq!(first.1, vec![false, true]);
    assert_eq!(collection("x").duplicate(), collection("x"));
}

#[test]
fn restored_registry_keeps_owner_entries_and_flags() {
    let restored = INO::restore(owner(), vec![collection("a"), collection("b")], vec![true, false]);
    let mut registry = restored.unwrap();
    assert_eq!(registry.owner(), &owner());
    assert_eq!(registry.collection_count(), 2);
    assert_eq!(registry.get_collection(), (vec![collection("a"), collection("b")], vec![true, false]));
    assert_eq!(registry.update_collection_status(&owner(), None), Ok(()));
    assert_eq!(registry.get_collection().1, vec![true, true]);
    assert!(INO::restore(owner(), vec![collection("a")], vec![]).is_none());
    assert!(INO::restore(owner(), vec![], vec![false]).is_none());
    assert!(INO::restore(owner(), vec![], vec![]).is_some());
}
