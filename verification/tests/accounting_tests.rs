use hlcup::accounting::{Accounting, MessageForAccounting};
use hlcup::client::{classify_response, Endpoint, ResponseAction};
use hlcup::dto::License;
use hlcup::model::Treasure;
use hlcup::rules::Rules;

// Cash-then-buy coupling: the coin earned by cashing pays for the next
// license and is not refunded once the purchase succeeds.
#[test]
fn test_cash_then_buy() {
    let mut acc = Accounting::new(10);
    let t = Treasure {
        depth: 5,
        treasures: vec!["x".to_string()],
    };
    assert!(acc.handle(MessageForAccounting::TreasureToClaim(t)).is_none());
    let to_cash = acc.take_treasures();
    assert_eq!(to_cash.len(), 1);
    assert_eq!(to_cash[0].depth, 5);
    // the judge pays coin 100 for the token
    acc.add_coins(vec![100]);
    let payment = acc.plan_license_purchase().unwrap();
    assert_eq!(payment, vec![100]);
    assert!(acc.coins.is_empty());
    let lic = License {
        id: 3,
        dig_allowed: 5,
        dig_used: 0,
    };
    acc.license_purchased(lic);
    assert_eq!(acc.active_licenses, 1);
    assert!(acc.coins.is_empty());
    let given = acc.handle(MessageForAccounting::GetLicense).unwrap();
    assert_eq!(given.len(), 1);
    assert_eq!(given[0].id, 3);
}

// GetLicense on an empty pool yields the empty vector.
#[test]
fn test_get_license_empty_pool() {
    let mut acc = Accounting::new(10);
    let given = acc.handle(MessageForAccounting::GetLicense).unwrap();
    assert!(given.is_empty());
}

#[test]
fn test_license_expired_message() {
    let mut acc = Accounting::new(10);
    acc.license_purchased(License {
        id: 1,
        dig_allowed: 3,
        dig_used: 0,
    });
    assert_eq!(acc.active_licenses, 1);
    assert!(acc
        .handle(MessageForAccounting::LicenseExpired(42))
        .is_none());
    assert_eq!(acc.active_licenses, 0);
    assert_eq!(acc.digs_pending, 42);
}

// Without a coin the purchase plan asks for a free license.
#[test]
fn test_plan_purchase_no_coin() {
    let mut acc = Accounting::new(10);
    let payment = acc.plan_license_purchase().unwrap();
    assert!(payment.is_empty());
}

// At the cap no license is bought this tick.
#[test]
fn test_plan_purchase_at_cap() {
    let mut acc = Accounting::new(1);
    acc.add_coins(vec![5]);
    acc.license_purchased(License {
        id: 1,
        dig_allowed: 3,
        dig_used: 0,
    });
    assert!(acc.plan_license_purchase().is_none());
    assert_eq!(acc.coins, vec![5]);
}

// dig_used only grows, and the license is reported unusable exactly when the
// count reaches its allowance.
#[test]
fn test_license_increment() {
    let mut lic = License {
        id: 9,
        dig_allowed: 3,
        dig_used: 0,
    };
    assert!(lic.is_still_valid());
    assert!(lic.increment());
    assert_eq!(lic.dig_used, 1);
    assert!(lic.increment());
    assert_eq!(lic.dig_used, 2);
    assert!(!lic.increment());
    assert_eq!(lic.dig_used, 3);
    assert!(!lic.is_still_valid());
}

#[test]
fn test_classify_response() {
    assert_eq!(
        classify_response(Endpoint::Explore, 200),
        ResponseAction::ParseBody
    );
    assert_eq!(
        classify_response(Endpoint::Dig, 404),
        ResponseAction::EmptyResult
    );
    assert_eq!(classify_response(Endpoint::Cash, 404), ResponseAction::Fail);
    assert_eq!(classify_response(Endpoint::Dig, 500), ResponseAction::Fail);
    assert_eq!(
        classify_response(Endpoint::Licenses, 502),
        ResponseAction::Fail
    );
}

#[test]
fn test_rules_new() {
    let r = Rules::new(7);
    assert_eq!(r.w, 500);
    assert_eq!(r.h, 3500);
    assert_eq!(r.n_workers, 7);
    assert_eq!(r.max_depth, 10);
    assert_eq!(r.max_concurrent_licenses, 7);
}
