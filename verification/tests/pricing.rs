use econwar::decimal::Decimal;
use econwar::engine::pricing::PricingEngine;
use econwar::models::{Market, Timestamp};

fn dec(n: i128) -> Decimal {
    Decimal::new(n, 0)
}

fn test_market() -> Market {
    Market {
        id: 1,
        resource_id: 2,
        last_price: dec(100),
        ema_price: dec(100),
        total_supply: dec(500),
        total_demand: dec(400),
        total_volume: dec(10000),
        updated_at: Timestamp { secs: 0, nanos: 0 },
    }
}

#[test]
fn test_ema_moves_toward_new_price() {
    let mut m = test_market();
    PricingEngine::update_ema(&mut m, dec(120));
    // EMA should move toward 120 but not reach it.
    assert!(dec(100).lt(&m.ema_price));
    assert!(m.ema_price.lt(&dec(120)));
}

#[test]
fn test_supply_demand_ratio() {
    let m = test_market();
    let ratio = PricingEngine::supply_demand_ratio(&m).unwrap();
    assert_eq!(ratio, Decimal::new(125, 2)); // 500/400
}

#[test]
fn ema_weights_the_new_price_by_one_tenth() {
    let mut m = test_market();
    PricingEngine::update_ema(&mut m, dec(120));
    assert_eq!(m.ema_price, dec(102));
    assert_eq!(m.last_price, dec(120));
}

#[test]
fn ratio_is_absent_without_demand() {
    let mut m = test_market();
    m.total_demand = dec(0);
    assert_eq!(PricingEngine::supply_demand_ratio(&m), None);
}

#[test]
fn spread_needs_both_sides() {
    assert_eq!(PricingEngine::spread(Some(dec(95)), Some(dec(100))), Some(dec(5)));
    assert_eq!(PricingEngine::spread(None, Some(dec(100))), None);
    assert_eq!(PricingEngine::spread(Some(dec(95)), None), None);
}

#[test]
fn npc_band_is_half_to_five_times_base() {
    assert_eq!(PricingEngine::npc_floor_price(dec(50)), dec(25));
    assert_eq!(PricingEngine::npc_ceiling_price(dec(50)), dec(250));
    assert_eq!(PricingEngine::npc_floor_price(dec(45)), Decimal::new(225, 1));
}

#[test]
fn supply_and_demand_are_replaced() {
    let mut m = test_market();
    PricingEngine::recalculate_supply_demand(&mut m, dec(7), dec(9));
    assert_eq!(m.total_supply, dec(7));
    assert_eq!(m.total_demand, dec(9));
    assert_eq!(m.ema_price, dec(100));
}

#[test]
fn npc_band_holds_where_the_products_round() {
    let base = Decimal::new(19_999_999_999_999_999_999_999_999_999, 28);
    let floor = PricingEngine::npc_floor_price(base);
    let ceiling = PricingEngine::npc_ceiling_price(base);
    assert!(floor.le(&base));
    assert!(base.le(&ceiling));
    assert_eq!(floor.to_text(), "1.0000000000000000000000000000");
    let tiny = Decimal::new(1, 28);
    assert!(PricingEngine::npc_floor_price(tiny).le(&tiny));
    assert!(tiny.le(&PricingEngine::npc_ceiling_price(tiny)));
}
