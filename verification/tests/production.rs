use econwar::decimal::Decimal;
use econwar::engine::production::{ProductionEngine, ProductionError, TickResult};
use econwar::models::{Company, Inventory, ProductionJob, ProductionStatus, Recipe, RecipeItem, Timestamp};

fn dec(n: i128) -> Decimal {
    Decimal::new(n, 0)
}

fn company(workers: i32, capacity: i32, tech: i32) -> Company {
    Company {
        id: 500,
        owner_id: 1,
        name: "Acme".to_string(),
        treasury: dec(10000),
        workers,
        worker_capacity: capacity,
        factories: 1,
        tech_level: tech,
        created_at: Timestamp { secs: 0, nanos: 0 },
    }
}

fn smelt() -> Recipe {
    Recipe {
        id: 900,
        slug: "smelt_steel".to_string(),
        name: "Smelt Steel".to_string(),
        inputs: vec![RecipeItem { resource_id: 4, resource_slug: "iron".to_string(), quantity: dec(3) }],
        outputs: vec![RecipeItem { resource_id: 7, resource_slug: "steel".to_string(), quantity: dec(1) }],
        ticks_required: 2,
        min_tech_level: 1,
        workers_required: 5,
    }
}

fn held(resource_id: u128, qty: i128) -> Inventory {
    Inventory { id: 1, owner_id: 500, resource_id, quantity: dec(qty) }
}

#[test]
fn plan_refuses_low_tech_first() {
    let r = ProductionEngine::plan_production(&company(50, 50, 0), &smelt(), 2, &[]);
    match r {
        Err(ProductionError::InsufficientTech { have, need }) => {
            assert_eq!(have, 0);
            assert_eq!(need, 1);
        }
        other => panic!("unexpected {:?}", other),
    }
}

#[test]
fn plan_refuses_missing_workers() {
    let r = ProductionEngine::plan_production(&company(45, 50, 1), &smelt(), 2, &[]);
    match r {
        Err(ProductionError::InsufficientWorkers { have, need }) => {
            assert_eq!(have, 5);
            assert_eq!(need, 10);
        }
        other => panic!("unexpected {:?}", other),
    }
}

#[test]
fn plan_refuses_short_inputs_summing_all_holdings() {
    let inv = vec![held(4, 2), held(9, 100), held(4, 3)];
    let r = ProductionEngine::plan_production(&company(0, 50, 1), &smelt(), 2, &inv);
    match r {
        Err(ProductionError::InsufficientResource { slug, have, need }) => {
            assert_eq!(slug, "iron");
            assert_eq!(have, dec(5));
            assert_eq!(need, dec(6));
        }
        other => panic!("unexpected {:?}", other),
    }
}

#[test]
fn plan_deducts_scaled_inputs() {
    let inv = vec![held(4, 4), held(4, 3)];
    let plan = ProductionEngine::plan_production(&company(0, 50, 1), &smelt(), 2, &inv).unwrap();
    assert_eq!(plan.deductions.len(), 1);
    assert_eq!(plan.deductions[0].0, 4);
    assert_eq!(plan.deductions[0].1, dec(6));
    assert_eq!(plan.workers_allocated, 10);
    assert_eq!(plan.job.company_id, 500);
    assert_eq!(plan.job.recipe_id, 900);
    assert_eq!(plan.job.batch_size, 2);
    assert_eq!(plan.job.ticks_remaining, 2);
    assert_eq!(plan.job.status, ProductionStatus::Running);
}

#[test]
fn job_completes_after_its_ticks() {
    let recipe = smelt();
    let mut job = ProductionJob {
        id: 1,
        company_id: 500,
        recipe_id: 900,
        batch_size: 3,
        ticks_remaining: 2,
        status: ProductionStatus::Running,
    };
    match ProductionEngine::tick_job(&mut job, &recipe) {
        TickResult::InProgress(n) => assert_eq!(n, 1),
        other => panic!("unexpected {:?}", other),
    }
    match ProductionEngine::tick_job(&mut job, &recipe) {
        TickResult::Completed { outputs, workers_freed } => {
            assert_eq!(outputs, vec![(7, dec(3))]);
            assert_eq!(workers_freed, 15);
        }
        other => panic!("unexpected {:?}", other),
    }
    assert_eq!(job.status, ProductionStatus::Completed);
    match ProductionEngine::tick_job(&mut job, &recipe) {
        TickResult::NoOp => {}
        other => panic!("unexpected {:?}", other),
    }
    assert_eq!(job.ticks_remaining, 0);
}

#[test]
fn a_job_hands_out_its_outputs_once() {
    let recipe = smelt();
    let mut job = ProductionJob {
        id: 2,
        company_id: 5,
        recipe_id: recipe.id,
        batch_size: 1,
        ticks_remaining: 3,
        status: ProductionStatus::Running,
    };
    let mut completions = 0;
    let mut completed_at = 0;
    for k in 1..=8 {
        if let TickResult::Completed { .. } = ProductionEngine::tick_job(&mut job, &recipe) {
            completions += 1;
            completed_at = k;
        }
    }
    assert_eq!(completions, 1);
    assert_eq!(completed_at, 3);
    assert_eq!(job.status, ProductionStatus::Completed);
    assert_eq!(job.ticks_remaining, 0);
}
