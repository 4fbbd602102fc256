use property_ledger::ledger::TokenizedPropertyContract;
use property_ledger::types::{Address, Error, PropertyStatus};

fn addr(n: u64) -> Address {
    Address { id: n }
}

fn sample(ledger: &mut TokenizedPropertyContract, owner: Address, total: u64, price: u64, now: u64) -> u64 {
    ledger
        .register_property(
            owner,
            String::from("Harbor House"),
            String::from("Waterfront duplex"),
            String::from("12 Quay Street"),
            total,
            price,
            now,
        )
        .expect("registration with positive shares succeeds")
}

#[test]
fn identifiers_count_up_from_one() {
    let mut ledger = TokenizedPropertyContract::new();
    assert_eq!(ledger.property_count(), 0);
    let a = sample(&mut ledger, addr(1), 10, 2, 100);
    let b = sample(&mut ledger, addr(2), 20, 3, 101);
    let c = sample(&mut ledger, addr(1), 30, 4, 102);
    assert_eq!((a, b, c), (1, 2, 3));
    assert_eq!(ledger.property_count(), 3);
}

#[test]
fn zero_total_shares_is_invalid_argument() {
    let mut ledger = TokenizedPropertyContract::new();
    let r = ledger.register_property(
        addr(1),
        String::from("Empty"),
        String::from("No shares at all"),
        String::from("Nowhere"),
        0,
        5,
        100,
    );
    assert_eq!(r, Err(Error::InvalidArgument));
    assert_eq!(ledger.property_count(), 0);
    // Any positive denominator is accepted, one share included.
    let r = sample(&mut ledger, addr(1), 1, 5, 100);
    assert_eq!(r, 1);
}

#[test]
fn registration_fills_every_field() {
    let mut ledger = TokenizedPropertyContract::new();
    let id = sample(&mut ledger, addr(9), 100, 5, 777);
    let p = ledger.get_property(id).expect("registered property exists");
    assert_eq!(p.property_id, 1);
    assert_eq!(p.owner, addr(9));
    assert_eq!(p.title, "Harbor House");
    assert_eq!(p.description, "Waterfront duplex");
    assert_eq!(p.location, "12 Quay Street");
    assert_eq!(p.total_shares, 100);
    assert_eq!(p.available_shares, 100);
    assert_eq!(p.price_per_share, 5);
    assert!(matches!(p.status, PropertyStatus::Active));
    assert_eq!(p.registration_time, 777);
}

#[test]
fn owner_gets_zero_share_placeholder() {
    let mut ledger = TokenizedPropertyContract::new();
    let id = sample(&mut ledger, addr(9), 100, 5, 777);
    let o = ledger.get_ownership(id, addr(9));
    assert_eq!(o.owner, addr(9));
    assert_eq!(o.property_id, id);
    assert_eq!(o.shares, 0);
    assert_eq!(o.acquisition_time, 777);
}

#[test]
fn purchase_moves_shares_and_returns_price() {
    let mut ledger = TokenizedPropertyContract::new();
    let id = sample(&mut ledger, addr(1), 100, 5, 100);
    let r = ledger.purchase_shares(addr(2), id, 30, 200);
    assert_eq!(r, Ok(150));
    let p = ledger.get_property(id).unwrap();
    assert_eq!(p.available_shares, 70);
    assert_eq!(p.total_shares, 100);
    let o = ledger.get_ownership(id, addr(2));
    assert_eq!(o.shares, 30);
    assert_eq!(o.acquisition_time, 200);
}

#[test]
fn repeated_purchases_accumulate_and_overwrite_time() {
    let mut ledger = TokenizedPropertyContract::new();
    let id = sample(&mut ledger, addr(1), 100, 5, 100);
    ledger.purchase_shares(addr(2), id, 30, 200).unwrap();
    ledger.purchase_shares(addr(2), id, 20, 300).unwrap();
    let o = ledger.get_ownership(id, addr(2));
    assert_eq!(o.shares, 50);
    // The acquisition time is overwritten by the latest purchase, not kept.
    assert_eq!(o.acquisition_time, 300);
    assert_eq!(ledger.get_property(id).unwrap().available_shares, 50);
}

#[test]
fn purchase_of_unknown_property_is_not_found() {
    let mut ledger = TokenizedPropertyContract::new();
    assert_eq!(ledger.purchase_shares(addr(2), 1, 5, 100), Err(Error::NotFound));
    let id = sample(&mut ledger, addr(1), 100, 5, 100);
    assert_eq!(ledger.purchase_shares(addr(2), id + 1, 5, 100), Err(Error::NotFound));
    assert_eq!(ledger.purchase_shares(addr(2), 0, 5, 100), Err(Error::NotFound));
}

#[test]
fn purchase_respects_status() {
    let mut ledger = TokenizedPropertyContract::new();
    let id = sample(&mut ledger, addr(1), 100, 5, 100);
    ledger.update_property_status(addr(1), id, PropertyStatus::UnderMaintenance).unwrap();
    assert_eq!(ledger.purchase_shares(addr(2), id, 5, 200), Err(Error::InvalidState));
    ledger.update_property_status(addr(1), id, PropertyStatus::Inactive).unwrap();
    assert_eq!(ledger.purchase_shares(addr(2), id, 5, 201), Err(Error::InvalidState));
    // A refused purchase changes nothing.
    assert_eq!(ledger.get_property(id).unwrap().available_shares, 100);
    assert_eq!(ledger.get_ownership(id, addr(2)).shares, 0);
    // ForSale admits purchases just as Active does.
    ledger.update_property_status(addr(1), id, PropertyStatus::ForSale).unwrap();
    assert_eq!(ledger.purchase_shares(addr(2), id, 5, 202), Ok(25));
}

#[test]
fn purchase_beyond_supply_is_refused() {
    let mut ledger = TokenizedPropertyContract::new();
    let id = sample(&mut ledger, addr(1), 100, 5, 100);
    assert_eq!(ledger.purchase_shares(addr(2), id, 101, 200), Err(Error::InsufficientSupply));
    assert_eq!(ledger.get_property(id).unwrap().available_shares, 100);
    // Buying the whole supply exactly is allowed, and nothing is left after.
    assert_eq!(ledger.purchase_shares(addr(2), id, 100, 201), Ok(500));
    assert_eq!(ledger.get_property(id).unwrap().available_shares, 0);
    assert_eq!(ledger.purchase_shares(addr(3), id, 1, 202), Err(Error::InsufficientSupply));
}

#[test]
fn zero_share_purchase_is_a_no_op() {
    let mut ledger = TokenizedPropertyContract::new();
    let id = sample(&mut ledger, addr(1), 100, 5, 100);
    assert_eq!(ledger.purchase_shares(addr(2), id, 0, 200), Ok(0));
    assert_eq!(ledger.get_property(id).unwrap().available_shares, 100);
    let o = ledger.get_ownership(id, addr(2));
    assert_eq!(o.shares, 0);
    assert_eq!(o.acquisition_time, 200);
}

#[test]
fn status_update_is_owner_gated() {
    let mut ledger = TokenizedPropertyContract::new();
    let id = sample(&mut ledger, addr(1), 100, 5, 100);
    assert_eq!(
        ledger.update_property_status(addr(2), id, PropertyStatus::Inactive),
        Err(Error::Unauthorized)
    );
    assert!(matches!(ledger.get_property(id).unwrap().status, PropertyStatus::Active));
    assert_eq!(
        ledger.update_property_status(addr(1), id + 1, PropertyStatus::Inactive),
        Err(Error::NotFound)
    );
    assert_eq!(ledger.update_property_status(addr(1), id, PropertyStatus::Inactive), Ok(()));
    assert!(matches!(ledger.get_property(id).unwrap().status, PropertyStatus::Inactive));
    // Every transition is legal for the owner, back to Active included.
    assert_eq!(ledger.update_property_status(addr(1), id, PropertyStatus::Active), Ok(()));
    assert!(matches!(ledger.get_property(id).unwrap().status, PropertyStatus::Active));
}

#[test]
fn price_update_is_owner_gated() {
    let mut ledger = TokenizedPropertyContract::new();
    let id = sample(&mut ledger, addr(1), 100, 5, 100);
    assert_eq!(ledger.update_price(addr(2), id, 9), Err(Error::Unauthorized));
    assert_eq!(ledger.get_property(id).unwrap().price_per_share, 5);
    assert_eq!(ledger.update_price(addr(1), id + 1, 9), Err(Error::NotFound));
    assert_eq!(ledger.update_price(addr(1), id, 9), Ok(()));
    assert_eq!(ledger.get_property(id).unwrap().price_per_share, 9);
    // Zero is a legal price: no floor is enforced.
    assert_eq!(ledger.update_price(addr(1), id, 0), Ok(()));
    assert_eq!(ledger.get_property(id).unwrap().price_per_share, 0);
    assert_eq!(ledger.purchase_shares(addr(2), id, 10, 200), Ok(0));
}

#[test]
fn missing_records_read_as_empty_or_not_found() {
    let mut ledger = TokenizedPropertyContract::new();
    assert!(matches!(ledger.get_property(1), Err(Error::NotFound)));
    let o = ledger.get_ownership(1, addr(2));
    assert_eq!(o.shares, 0);
    assert_eq!(o.acquisition_time, 0);
    assert_eq!(o.owner, addr(2));
    assert_eq!(o.property_id, 1);
    let id = sample(&mut ledger, addr(1), 100, 5, 100);
    assert!(matches!(ledger.get_property(id + 1), Err(Error::NotFound)));
    let o = ledger.get_ownership(id, addr(3));
    assert_eq!(o.shares, 0);
    assert_eq!(o.acquisition_time, 0);
}

#[test]
fn shares_are_conserved_across_a_run() {
    let mut ledger = TokenizedPropertyContract::new();
    let id = sample(&mut ledger, addr(1), 100, 5, 100);
    let other = sample(&mut ledger, addr(1), 40, 7, 101);
    let holders = [addr(2), addr(3), addr(4), addr(2)];
    let buys = [10, 25, 5, 15];
    for (h, b) in holders.iter().zip(buys.iter()) {
        ledger.purchase_shares(*h, id, *b, 200).unwrap();
    }
    ledger.purchase_shares(addr(3), other, 40, 201).unwrap();
    let p = ledger.get_property(id).unwrap();
    let held: u64 = [addr(1), addr(2), addr(3), addr(4)]
        .iter()
        .map(|h| ledger.get_ownership(id, *h).shares)
        .sum();
    assert_eq!(p.available_shares + held, p.total_shares);
    assert_eq!(p.available_shares, 45);
    assert_eq!(ledger.get_ownership(id, addr(2)).shares, 25);
    let q = ledger.get_property(other).unwrap();
    assert_eq!(q.available_shares + ledger.get_ownership(other, addr(3)).shares, q.total_shares);
    assert_eq!(q.available_shares, 0);
}

#[test]
fn properties_do_not_interfere() {
    let mut ledger = TokenizedPropertyContract::new();
    let first = sample(&mut ledger, addr(1), 100, 5, 100);
    let second = sample(&mut ledger, addr(2), 50, 3, 101);
    ledger.purchase_shares(addr(3), first, 10, 200).unwrap();
    assert_eq!(ledger.get_property(second).unwrap().available_shares, 50);
    assert_eq!(ledger.get_ownership(second, addr(3)).shares, 0);
    // The same holder keeps separate positions in separate properties.
    ledger.purchase_shares(addr(3), second, 7, 201).unwrap();
    assert_eq!(ledger.get_ownership(first, addr(3)).shares, 10);
    assert_eq!(ledger.get_ownership(second, addr(3)).shares, 7);
}

#[test]
fn end_to_end_scenario() {
    let mut ledger = TokenizedPropertyContract::new();
    let owner = addr(10);
    let buyer_a = addr(20);
    let buyer_b = addr(30);
    let id = sample(&mut ledger, owner, 100, 5, 1000);
    assert_eq!(id, 1);
    assert_eq!(ledger.get_property(id).unwrap().available_shares, 100);
    assert_eq!(ledger.purchase_shares(buyer_a, id, 30, 1001), Ok(150));
    assert_eq!(ledger.get_property(id).unwrap().available_shares, 70);
    assert_eq!(ledger.get_ownership(id, buyer_a).shares, 30);
    assert_eq!(ledger.purchase_shares(buyer_a, id, 20, 1002), Ok(100));
    assert_eq!(ledger.get_property(id).unwrap().available_shares, 50);
    assert_eq!(ledger.get_ownership(id, buyer_a).shares, 50);
    ledger.update_property_status(owner, id, PropertyStatus::UnderMaintenance).unwrap();
    assert_eq!(ledger.purchase_shares(buyer_b, id, 1, 1003), Err(Error::InvalidState));
    ledger.update_property_status(owner, id, PropertyStatus::ForSale).unwrap();
    assert_eq!(ledger.purchase_shares(buyer_b, id, 200, 1004), Err(Error::InsufficientSupply));
    assert_eq!(ledger.purchase_shares(buyer_b, id, 50, 1005), Ok(250));
    assert_eq!(ledger.get_property(id).unwrap().available_shares, 0);
    assert_eq!(ledger.get_ownership(id, buyer_b).shares, 50);
}
