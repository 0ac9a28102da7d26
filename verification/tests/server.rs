use argon2::password_hash::{PasswordHasher, SaltString};
use econwar::decimal::Decimal;
use econwar::models::{
    Company, Inventory, Market, OrderStatus, OrderType, Player, ProductionJob, ProductionStatus,
    Recipe, RecipeItem, Resource, ResourceCategory, Timestamp, TradeOrder,
};
use econwar::server::auth::{
    bearer_token, check_login, claims_at, hash_new_password, session_claims, validate_registration,
    AuthError, RegisterRequest,
};
use econwar::server::command::{
    funding_deltas, new_company, plan_buy, plan_factory, plan_hire, plan_research, plan_sell,
    plan_start, recipe_by_slug, FactoryOutcome, HireOutcome, OrderOutcome, ResearchOutcome,
    StartOutcome,
};
use econwar::engine::production::ProductionError;
use econwar::server::answers::{
    created_message, factory_answer, funded_message, hire_answer, order_answer,
    production_error_text, research_answer, scan_message, start_answer, unknown_resource_message,
};
use econwar::server::game_loop::{ApiEffects, GameCommand, GameWorld};
use econwar::text::int_to_text;
use econwar::server::views::{market_briefs, market_view, market_views, HistoryParams};

fn dec(n: i128) -> Decimal {
    Decimal::new(n, 0)
}

fn t0() -> Timestamp {
    Timestamp { secs: 1_700_000_000, nanos: 0 }
}

fn company(treasury: i128, workers: i32, capacity: i32, factories: i32, tech: i32) -> Company {
    Company {
        id: 500,
        owner_id: 1,
        name: "Acme".to_string(),
        treasury: dec(treasury),
        workers,
        worker_capacity: capacity,
        factories,
        tech_level: tech,
        created_at: t0(),
    }
}

fn order(id: u128, side: OrderType, resource_id: u128) -> TradeOrder {
    TradeOrder {
        id,
        player_id: 1,
        company_id: 500,
        resource_id,
        order_type: side,
        price: dec(10),
        quantity: dec(1),
        original_quantity: dec(1),
        status: OrderStatus::Open,
        created_at: t0(),
    }
}

fn market(resource_id: u128) -> Market {
    Market {
        id: resource_id + 100,
        resource_id,
        last_price: Decimal::new(12345, 2),
        ema_price: dec(120),
        total_supply: dec(5),
        total_demand: dec(6),
        total_volume: dec(7),
        updated_at: t0(),
    }
}

fn resource(id: u128, slug: &str) -> Resource {
    Resource {
        id,
        slug: slug.to_string(),
        name: slug.to_uppercase(),
        category: ResourceCategory::RawMaterial,
        base_price: dec(50),
        spawn_rate: dec(100),
    }
}

#[test]
fn new_company_starts_with_one_empty_factory() {
    let c = new_company(9, "Widgets".to_string());
    assert_eq!(c.owner_id, 9);
    assert_eq!(c.name, "Widgets");
    assert_eq!(c.treasury, dec(0));
    assert_eq!(c.workers, 0);
    assert_eq!(c.worker_capacity, 50);
    assert_eq!(c.factories, 1);
    assert_eq!(c.tech_level, 0);
}

#[test]
fn funding_moves_the_amount() {
    let (player, company) = funding_deltas(dec(250));
    assert_eq!(player, dec(-250));
    assert_eq!(company, dec(250));
}

#[test]
fn hiring_costs_500_per_worker_within_capacity() {
    match plan_hire(&company(10_000, 10, 50, 1, 0), 5) {
        HireOutcome::Hired { cost, new_total } => {
            assert_eq!(cost, dec(2500));
            assert_eq!(new_total, 15);
        }
        other => panic!("unexpected {:?}", other),
    }
    match plan_hire(&company(10_000, 10, 50, 1, 0), 41) {
        HireOutcome::OverCapacity { count, capacity, workers } => {
            assert_eq!((count, capacity, workers), (41, 50, 10));
        }
        other => panic!("unexpected {:?}", other),
    }
    match plan_hire(&company(1_000, 10, 50, 1, 0), 3) {
        HireOutcome::InsufficientTreasury { need, have } => {
            assert_eq!(need, dec(1500));
            assert_eq!(have, dec(1000));
        }
        other => panic!("unexpected {:?}", other),
    }
}

#[test]
fn factory_cost_grows_quadratically() {
    match plan_factory(&company(100_000, 0, 50, 1, 0)) {
        FactoryOutcome::Built { cost, factories, worker_capacity } => {
            assert_eq!(cost, dec(40_000));
            assert_eq!(factories, 2);
            assert_eq!(worker_capacity, 100);
        }
        other => panic!("unexpected {:?}", other),
    }
    match plan_factory(&company(30_000, 0, 100, 2, 0)) {
        FactoryOutcome::InsufficientTreasury { need, have } => {
            assert_eq!(need, dec(90_000));
            assert_eq!(have, dec(30_000));
        }
        other => panic!("unexpected {:?}", other),
    }
    assert_eq!(company(0, 0, 50, 0, 0).next_factory_cost(), dec(10_000));
}

#[test]
fn research_costs_25000_times_next_level_squared() {
    match plan_research(&company(200_000, 0, 50, 1, 1)) {
        ResearchOutcome::Researched { cost, new_level } => {
            assert_eq!(cost, dec(100_000));
            assert_eq!(new_level, 2);
        }
        other => panic!("unexpected {:?}", other),
    }
    match plan_research(&company(20_000, 0, 50, 1, 0)) {
        ResearchOutcome::InsufficientTreasury { need, .. } => assert_eq!(need, dec(25_000)),
        other => panic!("unexpected {:?}", other),
    }
}

#[test]
fn buy_orders_need_treasury_for_the_limit_total() {
    match plan_buy(1, &company(1000, 0, 50, 1, 0), 4, dec(10), dec(100)) {
        OrderOutcome::Placed(o) => {
            assert_eq!(o.order_type, OrderType::Buy);
            assert_eq!(o.price, dec(100));
            assert_eq!(o.quantity, dec(10));
            assert_eq!(o.original_quantity, dec(10));
            assert_eq!(o.status, OrderStatus::Open);
            assert_eq!((o.player_id, o.company_id, o.resource_id), (1, 500, 4));
        }
        other => panic!("unexpected {:?}", other),
    }
    match plan_buy(1, &company(999, 0, 50, 1, 0), 4, dec(10), dec(100)) {
        OrderOutcome::InsufficientTreasury { need, have } => {
            assert_eq!(need, dec(1000));
            assert_eq!(have, dec(999));
        }
        other => panic!("unexpected {:?}", other),
    }
}

#[test]
fn sell_orders_need_the_quantity_held() {
    let inv = vec![
        Inventory { id: 1, owner_id: 500, resource_id: 4, quantity: dec(3) },
        Inventory { id: 2, owner_id: 500, resource_id: 4, quantity: dec(4) },
    ];
    match plan_sell(1, 500, 4, &inv, dec(8), dec(20)) {
        OrderOutcome::InsufficientInventory { have, want } => {
            assert_eq!(have, dec(7));
            assert_eq!(want, dec(8));
        }
        other => panic!("unexpected {:?}", other),
    }
    match plan_sell(1, 500, 4, &inv, dec(7), dec(20)) {
        OrderOutcome::Placed(o) => {
            assert_eq!(o.order_type, OrderType::Sell);
            assert_eq!(o.price, dec(20));
        }
        other => panic!("unexpected {:?}", other),
    }
}

fn smelt() -> Recipe {
    Recipe {
        id: 900,
        slug: "smelt_steel".to_string(),
        name: "Smelt Steel".to_string(),
        inputs: vec![RecipeItem { resource_id: 4, resource_slug: "iron".to_string(), quantity: dec(3) }],
        outputs: vec![RecipeItem { resource_id: 7, resource_slug: "steel".to_string(), quantity: dec(1) }],
        ticks_required: 2,
        min_tech_level: 0,
        workers_required: 5,
    }
}

#[test]
fn starting_production_finds_the_recipe_and_adds_workers() {
    let recipes = vec![smelt()];
    assert_eq!(recipe_by_slug(&recipes, "smelt_steel"), Some(0));
    assert_eq!(recipe_by_slug(&recipes, "bake"), None);
    let inv = vec![Inventory { id: 1, owner_id: 500, resource_id: 4, quantity: dec(9) }];
    match plan_start(&company(0, 10, 50, 1, 0), &recipes, "smelt_steel", 3, &inv) {
        StartOutcome::Started { plan, new_workers } => {
            assert_eq!(new_workers, 25);
            assert_eq!(plan.deductions[0].1, dec(9));
        }
        other => panic!("unexpected {:?}", other),
    }
    match plan_start(&company(0, 10, 50, 1, 0), &recipes, "bake", 3, &inv) {
        StartOutcome::UnknownRecipe => {}
        other => panic!("unexpected {:?}", other),
    }
    match plan_start(&company(0, 10, 50, 1, 0), &recipes, "smelt_steel", 4, &inv) {
        StartOutcome::Refused(ProductionError::InsufficientResource { need, .. }) => {
            assert_eq!(need, dec(12))
        }
        other => panic!("unexpected {:?}", other),
    }
}

fn world() -> GameWorld {
    GameWorld::new(
        vec![company(0, 0, 50, 1, 0)],
        vec![],
        vec![],
        vec![],
        vec![],
        vec![order(1, OrderType::Buy, 4)],
        vec![order(2, OrderType::Sell, 4)],
    )
}

#[test]
fn commands_are_applied_in_order() {
    let mut w = world();
    let mut renamed = company(5, 0, 50, 1, 0);
    renamed.name = "Renamed".to_string();
    let job = ProductionJob {
        id: 70,
        company_id: 500,
        recipe_id: 900,
        batch_size: 1,
        ticks_remaining: 2,
        status: ProductionStatus::Running,
    };
    let effects = w.process_commands(&[
        GameCommand::CreateOrder(order(3, OrderType::Buy, 4)),
        GameCommand::CreateOrder(order(4, OrderType::Sell, 4)),
        GameCommand::CancelOrder(1),
        GameCommand::UpdateCompany(renamed),
        GameCommand::StartProduction(job),
    ]);
    assert_eq!(w.buys.iter().map(|o| o.id).collect::<Vec<_>>(), vec![3]);
    assert_eq!(w.sells.iter().map(|o| o.id).collect::<Vec<_>>(), vec![2, 4]);
    assert_eq!(w.companies.len(), 1);
    assert_eq!(w.companies[0].name, "Renamed");
    assert_eq!(w.jobs.len(), 1);
    assert_eq!(effects.new_orders.len(), 2);
    assert_eq!(effects.cancelled_orders, vec![1]);
    assert_eq!(effects.updated_companies.len(), 1);
    assert_eq!(effects.new_jobs.len(), 1);
    assert!(effects.new_companies.is_empty());
}

#[test]
fn placed_then_cancelled_order_is_gone() {
    let mut w = world();
    let mut effects = ApiEffects::new();
    w.apply_command(&GameCommand::CreateOrder(order(9, OrderType::Sell, 4)), &mut effects);
    w.apply_command(&GameCommand::CancelOrder(9), &mut effects);
    assert!(w.sells.iter().all(|o| o.id != 9));
    assert!(w.buys.iter().all(|o| o.id != 9));
    assert_eq!(w.sells.len(), 1);
}

#[test]
fn update_of_an_unknown_company_changes_nothing() {
    let mut w = world();
    let mut other = company(0, 0, 50, 1, 0);
    other.id = 777;
    let effects = w.process_commands(&[GameCommand::UpdateCompany(other), GameCommand::CreateCompany(company(1, 0, 50, 1, 0))]);
    assert_eq!(w.companies.len(), 2);
    assert_eq!(w.companies[0].id, 500);
    assert_eq!(effects.updated_companies.len(), 1);
    assert_eq!(effects.new_companies.len(), 1);
}

#[test]
fn a_step_ticks_and_carries_the_commands_effects() {
    let mut w = GameWorld::new(
        vec![company(0, 2, 50, 1, 0)],
        vec![],
        vec![resource(4, "iron")],
        vec![market(4)],
        vec![],
        vec![],
        vec![],
    );
    let batch = w.step(&[GameCommand::CreateOrder(order(3, OrderType::Buy, 4))]).unwrap();
    assert_eq!(batch.tick_count, 1);
    assert_eq!(w.engine.tick_count, 1);
    assert_eq!(batch.effects.new_orders.len(), 1);
    assert_eq!(batch.effects.treasury_deltas[0], (500, dec(-200)));
    assert_eq!(batch.effects.npc_orders.len(), 1);
    assert_eq!(w.sells.len(), 1);
}

#[test]
fn a_step_ticks_on_a_quantity_with_many_decimals() {
    let mut w = world();
    let mut fine = order(3, OrderType::Buy, 4);
    fine.quantity = Decimal::new(1, 12);
    assert!(w.step(&[GameCommand::CreateOrder(fine)]).is_some());
    assert_eq!(w.engine.tick_count, 1);
}

#[test]
fn a_step_on_an_unrepresentable_amount_applies_the_commands_only() {
    let mut w = world();
    let mut broken = order(3, OrderType::Buy, 4);
    broken.quantity = Decimal { mantissa: 1, scale: 29 };
    assert!(w.step(&[GameCommand::CreateOrder(broken)]).is_none());
    assert_eq!(w.engine.tick_count, 0);
    assert_eq!(w.buys.len(), 2);
}

#[test]
fn listing_uses_the_first_resource_and_briefs_the_last() {
    let markets = vec![market(4), market(5), market(6)];
    let resources = vec![resource(4, "iron"), resource(6, "oil"), resource(4, "iron2")];
    let views = market_views(&markets, &resources);
    assert_eq!(views.len(), 2);
    assert_eq!(views[0].slug, "iron");
    assert_eq!(views[0].name, "IRON");
    assert_eq!(views[0].last_price, "123.45");
    assert_eq!(views[0].ema_price, "120");
    assert_eq!(views[0].total_volume, "7");
    assert_eq!(views[1].slug, "oil");
    let briefs = market_briefs(&markets, &resources);
    assert_eq!(briefs.len(), 2);
    assert_eq!(briefs[0].slug, "iron2");
    assert_eq!(briefs[0].price, "123.45");
    assert_eq!(briefs[0].supply, "5");
    assert_eq!(briefs[0].demand, "6");
    let v = market_view(&markets[1], &resources[1]);
    assert_eq!(v.total_supply, "5");
}

#[test]
fn history_limit_defaults_to_fifty() {
    assert_eq!(HistoryParams { limit: None }.effective_limit(), 50);
    assert_eq!(HistoryParams { limit: Some(7) }.effective_limit(), 7);
}

#[test]
fn registration_checks_name_then_password() {
    let req = |u: &str, p: &str| RegisterRequest { username: u.to_string(), password: p.to_string() };
    assert!(matches!(validate_registration(&req("ab", "secret1")), Err(AuthError::InvalidUsername)));
    assert!(matches!(validate_registration(&req(&"x".repeat(65), "secret1")), Err(AuthError::InvalidUsername)));
    assert!(matches!(validate_registration(&req("abc", "12345")), Err(AuthError::PasswordTooShort)));
    assert!(matches!(validate_registration(&req("ab", "1")), Err(AuthError::InvalidUsername)));
    assert!(validate_registration(&req("abc", "123456")).is_ok());
    // Lengths are counted in bytes: two two-byte letters make four bytes.
    assert!(validate_registration(&req("éé", "123456")).is_ok());
}

#[test]
fn bearer_tokens_are_read_from_the_header() {
    assert_eq!(bearer_token(Some("Bearer abc.def")).unwrap(), "abc.def");
    assert!(matches!(bearer_token(None), Err(AuthError::MissingHeader)));
    assert!(matches!(bearer_token(Some("Basic abc")), Err(AuthError::InvalidHeader)));
    assert!(matches!(bearer_token(Some("Bear")), Err(AuthError::InvalidHeader)));
    assert_eq!(bearer_token(Some("Bearer ")).unwrap(), "");
}

fn player_with_password(password: &str) -> Player {
    let salt = SaltString::encode_b64(b"fixed-salt-bytes").unwrap();
    let hash = argon2::Argon2::default().hash_password(password.as_bytes(), &salt).unwrap().to_string();
    Player {
        id: 42,
        username: "alice".to_string(),
        password_hash: hash,
        balance: dec(100),
        created_at: t0(),
        last_login: t0(),
        is_online: false,
    }
}

#[test]
fn login_accepts_only_the_right_password() {
    let p = player_with_password("hunter22");
    assert_eq!(check_login(Some(&p), "hunter22").unwrap().id, 42);
    assert!(matches!(check_login(Some(&p), "hunter23"), Err(AuthError::InvalidCredentials)));
    assert!(matches!(check_login(None, "hunter22"), Err(AuthError::InvalidCredentials)));
    let mut broken = p.clone();
    broken.password_hash = "not a hash".to_string();
    assert!(matches!(check_login(Some(&broken), "hunter22"), Err(AuthError::Internal(_))));
}

#[test]
fn session_tokens_expire_a_day_later() {
    let c = claims_at(42, "alice", t0()).unwrap();
    assert_eq!(c.sub, 42);
    assert_eq!(c.username, "alice");
    assert_eq!(c.exp, 1_700_086_400);
    let now = session_claims(42, "alice").unwrap();
    assert!(now.exp > 1_700_086_400);
}

#[test]
fn a_new_password_hash_logs_in_with_that_password() {
    let hash = hash_new_password("correct horse").unwrap();
    assert!(hash.starts_with("$argon2id$"));
    let again = hash_new_password("correct horse").unwrap();
    assert_ne!(hash, again);
    let mut p = player_with_password("unused1");
    p.password_hash = hash;
    assert_eq!(check_login(Some(&p), "correct horse").unwrap().id, 42);
    assert!(matches!(check_login(Some(&p), "correct horsE"), Err(AuthError::InvalidCredentials)));
}

#[test]
fn integers_are_written_as_display_writes_them() {
    for n in [0i64, 7, 10, -1, -42, 1_234_567, i64::MAX, i64::MIN] {
        assert_eq!(int_to_text(n), n.to_string());
    }
}

#[test]
fn hiring_answers_say_why_or_how_many() {
    let over = hire_answer(20, &plan_hire(&company(100_000, 0, 10, 1, 0), 20));
    assert!(!over.success);
    assert_eq!(over.message, "Cannot hire 20: capacity is 10, currently have 0");
    let poor = hire_answer(3, &plan_hire(&company(1000, 0, 10, 1, 0), 3));
    assert!(!poor.success);
    assert_eq!(poor.message, "Insufficient treasury: need 1500, have 1000");
    let hired = hire_answer(2, &plan_hire(&company(1000, 3, 10, 1, 0), 2));
    assert!(hired.success);
    assert_eq!(hired.message, "Hired 2 workers (total: 5)");
    assert!(hired.data.is_none());
}

#[test]
fn factory_and_research_answers() {
    let built = factory_answer(&plan_factory(&company(1_000_000, 0, 10, 1, 0)));
    assert!(built.success);
    assert_eq!(built.message, "Factory built! Total: 2. New capacity: 100 workers");
    let poor = factory_answer(&plan_factory(&company(10, 0, 10, 1, 0)));
    assert_eq!(poor.message, "Insufficient treasury: need 40000, have 10");
    let done = research_answer(&plan_research(&company(1_000_000, 0, 10, 1, 1)));
    assert!(done.success);
    assert_eq!(done.message, "Research complete! Tech level: 2");
    let poor = research_answer(&plan_research(&company(5, 0, 10, 1, 0)));
    assert!(!poor.success);
    assert_eq!(poor.message, "Insufficient treasury: need 25000, have 5");
}

#[test]
fn order_answers_repeat_the_order_or_the_shortfall() {
    let qty = Decimal::new(105, 1);
    let price = dec(40);
    let placed = order_answer(OrderType::Buy, "copper", qty, price, &plan_buy(1, &company(1000, 0, 10, 1, 0), 3, qty, price));
    assert!(placed.success);
    assert_eq!(placed.message, "Buy order placed: 10.5 copper @ 40. Awaiting execution.");
    let poor = order_answer(OrderType::Buy, "copper", qty, price, &plan_buy(1, &company(100, 0, 10, 1, 0), 3, qty, price));
    assert!(!poor.success);
    assert_eq!(poor.message, "Insufficient treasury: need 420.0, have 100");
    let inv = vec![Inventory { id: 1, owner_id: 500, resource_id: 3, quantity: Decimal::new(25, 1) }];
    let short = order_answer(OrderType::Sell, "copper", dec(5), price, &plan_sell(1, 500, 3, &inv, dec(5), price));
    assert!(!short.success);
    assert_eq!(short.message, "Insufficient inventory: have 2.5, trying to sell 5");
    let sold = order_answer(OrderType::Sell, "copper", dec(2), price, &plan_sell(1, 500, 3, &inv, dec(2), price));
    assert_eq!(sold.message, "Sell order placed: 2 copper @ 40. Awaiting execution.");
}

#[test]
fn production_answers_name_the_recipe_or_the_refusal() {
    let recipes = vec![smelt()];
    let inv = vec![Inventory { id: 1, owner_id: 500, resource_id: 4, quantity: dec(9) }];
    let c = company(0, 10, 50, 1, 0);
    let r = &recipes[0];
    let started = start_answer("smelt_steel", 3, &r.name, r.ticks_required, &plan_start(&c, &recipes, "smelt_steel", 3, &inv));
    assert!(started.success);
    assert_eq!(started.message, "Production started: Smelt Steel x3 (2 ticks)");
    let short = start_answer("smelt_steel", 4, &r.name, r.ticks_required, &plan_start(&c, &recipes, "smelt_steel", 4, &inv));
    assert!(!short.success);
    assert_eq!(short.message, "Cannot start production: Missing resource iron: have 9, need 12");
    let unknown = start_answer("bake", 1, "", 0, &plan_start(&c, &recipes, "bake", 1, &inv));
    assert_eq!(unknown.message, "Unknown recipe: bake");
    assert_eq!(
        production_error_text(&ProductionError::InsufficientTech { have: 1, need: 3 }),
        "Company tech level 1 is below required 3"
    );
    assert_eq!(
        production_error_text(&ProductionError::InsufficientWorkers { have: 0, need: 15 }),
        "Not enough workers: have 0, need 15"
    );
}

#[test]
fn other_answers() {
    assert_eq!(created_message("Acme"), "Company 'Acme' created");
    assert_eq!(funded_message(Decimal::new(250050, 2)), "Funded company with 2500.50");
    assert_eq!(unknown_resource_message("gold"), "Unknown resource: gold");
    assert_eq!(scan_message("iron", &market(4)), "iron: price=123.45 ema=120 supply=5 demand=6");
}

#[test]
fn claims_fail_only_outside_the_calendar() {
    let far = Timestamp { secs: 8_000_000_000_000, nanos: 999_999_999 };
    assert_eq!(claims_at(1, "bob", far).unwrap().exp, 8_000_000_086_400);
    let early = Timestamp { secs: -8_000_000_000_000, nanos: 0 };
    assert!(claims_at(1, "bob", early).is_ok());
    let beyond = Timestamp { secs: i64::MAX, nanos: 0 };
    assert!(matches!(claims_at(1, "bob", beyond), Err(AuthError::Internal(_))));
}
