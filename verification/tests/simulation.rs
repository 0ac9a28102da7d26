use econwar::decimal::Decimal;
use econwar::engine::limits::tick_admissible;
use econwar::engine::simulation::EconomicEngine;
use econwar::models::{
    Company, Market, OrderStatus, OrderType, ProductionJob, ProductionStatus, Recipe, RecipeItem,
    Resource, ResourceCategory, Timestamp, TradeOrder, NIL_ID,
};

fn dec(n: i128) -> Decimal {
    Decimal::new(n, 0)
}

fn t0() -> Timestamp {
    Timestamp { secs: 100, nanos: 0 }
}

fn company(id: u128, workers: i32) -> Company {
    Company {
        id,
        owner_id: 1,
        name: "Acme".to_string(),
        treasury: dec(10000),
        workers,
        worker_capacity: 50,
        factories: 1,
        tech_level: 0,
        created_at: t0(),
    }
}

fn iron() -> Resource {
    Resource {
        id: 4,
        slug: "iron".to_string(),
        name: "Iron Ore".to_string(),
        category: ResourceCategory::RawMaterial,
        base_price: dec(40),
        spawn_rate: dec(120),
    }
}

fn steel() -> Resource {
    Resource {
        id: 7,
        slug: "steel".to_string(),
        name: "Steel".to_string(),
        category: ResourceCategory::Component,
        base_price: dec(100),
        spawn_rate: dec(0),
    }
}

fn market(id: u128, resource_id: u128, price: i128) -> Market {
    Market {
        id,
        resource_id,
        last_price: dec(price),
        ema_price: dec(price),
        total_supply: dec(0),
        total_demand: dec(0),
        total_volume: dec(0),
        updated_at: t0(),
    }
}

fn order(id: u128, side: OrderType, player: u128, resource_id: u128, price: i128, qty: i128) -> TradeOrder {
    TradeOrder {
        id,
        player_id: player,
        company_id: player,
        resource_id,
        order_type: side,
        price: dec(price),
        quantity: dec(qty),
        original_quantity: dec(qty),
        status: OrderStatus::Open,
        created_at: t0(),
    }
}

fn recipe() -> Recipe {
    Recipe {
        id: 900,
        slug: "smelt_steel".to_string(),
        name: "Smelt Steel".to_string(),
        inputs: vec![RecipeItem { resource_id: 4, resource_slug: "iron".to_string(), quantity: dec(3) }],
        outputs: vec![RecipeItem { resource_id: 7, resource_slug: "steel".to_string(), quantity: dec(1) }],
        ticks_required: 2,
        min_tech_level: 0,
        workers_required: 5,
    }
}

#[test]
fn new_engine_starts_at_tick_zero() {
    assert_eq!(EconomicEngine::new().tick_count, 0);
}

#[test]
fn tick_pays_wages_spawns_npc_supply_and_matches() {
    let mut engine = EconomicEngine::new();
    let companies = vec![company(10, 3), company(11, 0)];
    let mut jobs = vec![ProductionJob {
        id: 1,
        company_id: 10,
        recipe_id: 900,
        batch_size: 2,
        ticks_remaining: 1,
        status: ProductionStatus::Running,
    }];
    let recipes = vec![recipe()];
    let resources = vec![iron(), steel()];
    let mut markets = vec![market(50, 4, 40), market(51, 7, 100)];
    let mut buys = vec![order(60, OrderType::Buy, 10, 4, 30, 50)];
    let mut sells = vec![];
    assert!(tick_admissible(&jobs, &recipes, &resources, &markets, &buys, &sells));

    let now = Timestamp { secs: 200, nanos: 0 };
    let effects = engine.tick(&companies, &mut jobs, &recipes, &resources, &mut markets, &mut buys, &mut sells, now);

    assert_eq!(engine.tick_count, 1);
    // The job completes and delivers twice the recipe's output.
    assert_eq!(jobs[0].status, ProductionStatus::Completed);
    assert_eq!(effects.updated_jobs.len(), 1);
    assert_eq!(effects.inventory_deltas[0], (10, 7, dec(2)));
    // Wages: 100 per worker; companies without workers pay nothing.
    assert_eq!(effects.treasury_deltas[0], (10, dec(-300)));
    // One NPC order for iron, at half the base price, for the spawn rate.
    assert_eq!(effects.npc_orders.len(), 1);
    let npc = &effects.npc_orders[0];
    assert_eq!(npc.player_id, NIL_ID);
    assert_eq!(npc.price, dec(20));
    assert_eq!(npc.quantity, dec(120));
    assert_eq!(npc.order_type, OrderType::Sell);
    assert_eq!(sells.len(), 1);
    // The bid at 30 meets the NPC ask at 20: 50 units change hands at the
    // maker's price (the bid, which is as old as the NPC order and came first).
    let fills = &effects.match_results[0].1.transactions;
    assert_eq!(fills.len(), 1);
    assert_eq!(fills[0].quantity, dec(50));
    assert_eq!(effects.treasury_deltas.len(), 3);
    assert_eq!(effects.treasury_deltas[1].0, 10);
    assert_eq!(effects.treasury_deltas[2].0, NIL_ID);
    assert_eq!(effects.treasury_deltas[1].1, fills[0].total_value.neg());
    assert_eq!(effects.treasury_deltas[2].1, fills[0].total_value);
    assert_eq!(effects.inventory_deltas[1], (10, 4, dec(50)));
    // Markets: iron traded, supply left 70; snapshots follow the markets.
    assert_eq!(markets[0].total_volume, dec(50));
    assert_eq!(markets[0].total_supply, dec(70));
    assert_eq!(markets[0].total_demand, dec(0));
    assert_eq!(effects.snapshots.len(), 2);
    assert_eq!(effects.snapshots[0].volume, dec(50));
    assert_eq!(effects.updated_markets.len(), 2);
    // The buy side is only read.
    assert_eq!(buys[0].quantity, dec(50));
    // Everything the tick stamps carries its instant; nothing has decayed.
    assert_eq!(npc.created_at, now);
    assert_eq!(markets[0].updated_at, now);
    assert_eq!(effects.snapshots[1].recorded_at, now);
    assert!(effects.decayed_orders.is_empty());
}

#[test]
fn trades_pay_and_deliver_to_the_companies_of_the_orders() {
    let mut engine = EconomicEngine::new();
    let resources = vec![steel()];
    let mut markets = vec![market(51, 7, 100)];
    let mut bid = order(60, OrderType::Buy, 1, 7, 110, 5);
    bid.company_id = 500;
    let mut ask = order(61, OrderType::Sell, 2, 7, 100, 5);
    ask.company_id = 600;
    ask.created_at = Timestamp { secs: 150, nanos: 0 };
    let mut buys = vec![bid];
    let mut sells = vec![ask];
    let now = Timestamp { secs: 200, nanos: 0 };
    let effects = engine.tick(&[], &mut [], &[], &resources, &mut markets, &mut buys, &mut sells, now);
    let fills = &effects.match_results[0].1.transactions;
    assert_eq!(fills.len(), 1);
    assert_eq!(fills[0].buyer_id, 1);
    assert_eq!(fills[0].price, dec(110));
    assert_eq!(effects.treasury_deltas, vec![(500, dec(-550)), (600, dec(550))]);
    assert_eq!(effects.inventory_deltas, vec![(500, 7, dec(5))]);
}

#[test]
fn markets_above_five_times_base_are_flooded_at_the_ceiling() {
    let mut engine = EconomicEngine::new();
    let resources = vec![steel()];
    let mut hot = market(51, 7, 600);
    hot.total_demand = dec(8);
    let mut markets = vec![hot];
    let mut buys = vec![];
    let mut sells = vec![];
    let now = Timestamp { secs: 200, nanos: 0 };
    let effects = engine.tick(&[], &mut [], &[], &resources, &mut markets, &mut buys, &mut sells, now);
    assert_eq!(effects.npc_orders.len(), 1);
    let flood = &effects.npc_orders[0];
    assert_eq!(flood.resource_id, 7);
    assert_eq!(flood.price, Decimal::new(5000, 1));
    assert_eq!(flood.quantity, dec(8));
    assert_eq!(flood.player_id, NIL_ID);
    assert_eq!(flood.order_type, OrderType::Sell);
    assert_eq!(sells.len(), 1);
    // Without demand the flood offers a single unit.
    let mut markets = vec![market(51, 7, 600)];
    let mut sells = vec![];
    let effects = engine.tick(&[], &mut [], &[], &resources, &mut markets, &mut buys, &mut sells, now);
    assert_eq!(effects.npc_orders.len(), 1);
    assert_eq!(effects.npc_orders[0].quantity, dec(1));
    assert_eq!(effects.npc_orders[0].price, Decimal::new(5000, 1));
    assert_eq!(sells.len(), 1);
    // At exactly five times base there is no flood.
    let mut calm = market(51, 7, 500);
    calm.total_demand = dec(8);
    let mut markets = vec![calm];
    let mut sells = vec![];
    let effects = engine.tick(&[], &mut [], &[], &resources, &mut markets, &mut buys, &mut sells, now);
    assert!(effects.npc_orders.is_empty());
}

#[test]
fn orders_older_than_a_day_decay() {
    let mut engine = EconomicEngine::new();
    let resources = vec![steel()];
    let mut markets = vec![market(51, 7, 100)];
    let mut old_bid = order(60, OrderType::Buy, 1, 7, 10, 5);
    old_bid.created_at = Timestamp { secs: 1000, nanos: 0 };
    let mut fresh_bid = order(61, OrderType::Buy, 1, 7, 10, 5);
    fresh_bid.created_at = Timestamp { secs: 1001, nanos: 0 };
    let mut old_ask = order(62, OrderType::Sell, 2, 7, 500, 5);
    old_ask.created_at = Timestamp { secs: 900, nanos: 0 };
    let mut buys = vec![old_bid, fresh_bid];
    let mut sells = vec![old_ask];
    let now = Timestamp { secs: 1000 + 86401, nanos: 0 };
    let effects = engine.tick(&[], &mut [], &[], &resources, &mut markets, &mut buys, &mut sells, now);
    assert_eq!(effects.decayed_orders, vec![60, 62]);
    assert_eq!(buys.len(), 1);
    assert_eq!(buys[0].id, 61);
    assert!(sells.is_empty());
    assert!(effects.cancelled_orders.is_empty());
}

#[test]
fn admissibility_accepts_every_representable_book() {
    let jobs: Vec<ProductionJob> = vec![];
    let recipes = vec![recipe()];
    let resources = vec![iron()];
    let markets = vec![market(50, 4, 40)];
    let mut fine = order(60, OrderType::Buy, 10, 4, 30, 50);
    assert!(tick_admissible(&jobs, &recipes, &resources, &markets, &[fine], &[]));
    fine.quantity = Decimal::new(1, 11);
    assert!(tick_admissible(&jobs, &recipes, &resources, &markets, &[fine], &[]));
    let huge = order(61, OrderType::Buy, 10, 4, 30, 2_000_000_000_000_000);
    assert!(tick_admissible(&jobs, &recipes, &resources, &markets, &[huge], &[]));
    let pricey = order(62, OrderType::Sell, 10, 4, 100_000_000_000_000, 1);
    assert!(tick_admissible(&jobs, &recipes, &resources, &markets, &[], &[pricey]));
    // A decimal out of the representable range is refused.
    let mut broken = order(63, OrderType::Buy, 10, 4, 30, 1);
    broken.quantity = Decimal { mantissa: 1, scale: 29 };
    assert!(!tick_admissible(&jobs, &recipes, &resources, &markets, &[broken], &[]));
}

#[test]
fn a_tick_trades_at_prices_beyond_ten_trillion() {
    let mut engine = EconomicEngine::new();
    let resources = vec![steel()];
    let mut markets = vec![market(51, 7, 100)];
    let mut buys = vec![order(60, OrderType::Buy, 1, 7, 100_000_000_000_000, 3)];
    let mut sells = vec![order(61, OrderType::Sell, 2, 7, 100_000_000_000_000, 1)];
    sells[0].quantity = Decimal::new(5, 11);
    sells[0].original_quantity = Decimal::new(5, 11);
    let now = Timestamp { secs: 200, nanos: 0 };
    let effects = engine.tick(&[], &mut [], &[], &resources, &mut markets, &mut buys, &mut sells, now);
    let fills = &effects.match_results[0].1.transactions;
    assert_eq!(fills.len(), 1);
    assert_eq!(fills[0].quantity, Decimal::new(5, 11));
    assert_eq!(fills[0].total_value, dec(5000));
    assert!(effects.overflowed_markets.is_empty());
    assert_eq!(markets[0].last_price, dec(100_000_000_000_000));
    assert_eq!(markets[0].updated_at, now);
}

#[test]
fn a_market_whose_fill_would_overflow_is_left_and_reported() {
    let mut engine = EconomicEngine::new();
    let resources = vec![steel()];
    let before = market(51, 7, 100);
    let mut markets = vec![before];
    let big: i128 = 50_000_000_000_000_000_000_000_000_000;
    let mut buys = vec![order(60, OrderType::Buy, 1, 7, 2, big)];
    let mut sells = vec![order(61, OrderType::Sell, 2, 7, 2, big)];
    let now = Timestamp { secs: 200, nanos: 0 };
    let effects = engine.tick(&[], &mut [], &[], &resources, &mut markets, &mut buys, &mut sells, now);
    assert_eq!(effects.overflowed_markets, vec![7]);
    assert!(effects.match_results[0].1.transactions.is_empty());
    assert!(effects.match_results[0].1.last_price.is_none());
    assert_eq!(markets[0].last_price, before.last_price);
    assert_eq!(markets[0].ema_price, before.ema_price);
    assert_eq!(markets[0].total_volume, before.total_volume);
    assert_eq!(markets[0].total_supply, before.total_supply);
    assert_eq!(markets[0].total_demand, before.total_demand);
    assert_eq!(markets[0].updated_at, before.updated_at);
    assert_eq!(buys[0].quantity, dec(big));
    assert_eq!(sells[0].quantity, dec(big));
    assert_eq!(engine.tick_count, 1);
}
