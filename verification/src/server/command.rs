//! The decisions behind the unified command endpoint.
//!
//! Each player command that changes the game is validated against the
//! current state of the company (or inventory) it concerns; these functions
//! decide, from that state, whether the command goes through and with what
//! costs and results.  Loading the state and writing the results are the
//! server's I/O.
use vstd::prelude::*;

use crate::decimal::{mul_spec, product_safe, units, wf, Decimal};
use crate::engine::limits::{inventory_in_range, inventory_is_in_range, product_is_safe};
use crate::engine::production::{
    batch_decimal, error_amounts_wf, held_quantity, held_spec, planned, production_in_range,
    ProductionEngine, ProductionError, ProductionPlan,
};
use crate::models::{
    current_time, factory_cost_spec, fresh_id, is_whole, lemma_whole_product, Company, Inventory,
    OrderStatus, OrderType, Recipe, TradeOrder, WORKERS_PER_FACTORY,
};
use crate::text::str_equals;

verus! {

/// Cost of hiring one worker.
pub const HIRE_COST_PER_WORKER: i32 = 500;

/// Base cost of a research level.
pub const RESEARCH_BASE_COST: i32 = 25000;

/// The cost of researching the level after `tech_level`: 25 000 · (level + 1)².
pub open spec fn research_cost_spec(tech_level: int) -> int {
    25000 * ((tech_level + 1) * (tech_level + 1))
}

/// A freshly founded company of `owner_id`: no money, no workers, one
/// factory and its worker capacity, tech level zero.
pub open spec fn founded(c: Company, owner_id: u128, name: Seq<char>) -> bool {
    &&& c.owner_id == owner_id
    &&& c.name@ == name
    &&& c.treasury == Decimal { mantissa: 0, scale: 0 }
    &&& c.workers == 0
    &&& c.worker_capacity == WORKERS_PER_FACTORY
    &&& c.factories == 1
    &&& c.tech_level == 0
}

/// Founds a company for `owner_id`.
pub fn new_company(owner_id: u128, name: String) -> (r: Company)
    ensures
        founded(r, owner_id, name@),
{
    Company {
        id: fresh_id(),
        owner_id,
        name,
        treasury: Decimal::zero(),
        workers: 0,
        worker_capacity: WORKERS_PER_FACTORY,
        factories: 1,
        tech_level: 0,
        created_at: current_time(),
    }
}

/// Moving `amount` from a player's balance to a company's treasury: the
/// balance change and the treasury change.  No balance check is made.
pub fn funding_deltas(amount: Decimal) -> (r: (Decimal, Decimal))
    requires
        wf(amount),
    ensures
        r.0 == (Decimal { mantissa: (-amount.mantissa) as i128, scale: amount.scale }),
        r.1 == amount,
{
    (amount.neg(), amount)
}

/// The outcome of hiring workers.
#[derive(Debug)]
pub enum HireOutcome {
    /// Hired: the treasury pays `cost` and the company now employs `new_total`.
    Hired { cost: Decimal, new_total: i32 },
    /// More workers than the factories support.
    OverCapacity { count: i32, capacity: i32, workers: i32 },
    /// The treasury cannot pay.
    InsufficientTreasury { need: Decimal, have: Decimal },
}

/// The amounts of a hiring outcome are well formed.
pub open spec fn hire_amounts_wf(o: HireOutcome) -> bool {
    match o {
        HireOutcome::Hired { cost, .. } => wf(cost),
        HireOutcome::OverCapacity { .. } => true,
        HireOutcome::InsufficientTreasury { need, have } => wf(need) && wf(have),
    }
}

/// Decides on hiring `count` workers: 500 per worker, within the worker
/// capacity.
pub fn plan_hire(company: &Company, count: i32) -> (r: HireOutcome)
    requires
        i32::MIN <= company.workers + count <= i32::MAX,
        wf(company.treasury),
    ensures
        hire_amounts_wf(r),
        ({
            let new_total = company.workers + count;
            if new_total > company.worker_capacity {
                r == HireOutcome::OverCapacity {
                    count,
                    capacity: company.worker_capacity,
                    workers: company.workers,
                }
            } else {
                &&& (r is Hired || r is InsufficientTreasury)
                &&& r matches HireOutcome::Hired { cost, new_total: n } ==> {
                    &&& is_whole(cost, HIRE_COST_PER_WORKER * count)
                    &&& n == new_total
                    &&& units(cost) <= units(company.treasury)
                }
                &&& r matches HireOutcome::InsufficientTreasury { need, have } ==> {
                    &&& is_whole(need, HIRE_COST_PER_WORKER * count)
                    &&& have == company.treasury
                    &&& units(company.treasury) < units(need)
                }
            }
        }),
{
    let new_total = company.workers + count;
    if new_total > company.worker_capacity {
        return HireOutcome::OverCapacity {
            count,
            capacity: company.worker_capacity,
            workers: company.workers,
        };
    }
    let per_worker = Decimal::from_i32(HIRE_COST_PER_WORKER);
    let workers = Decimal::from_i32(count);
    proof {
        lemma_whole_product(per_worker, workers);
    }
    let hire_cost = per_worker.mul(&workers);
    proof {
        if count != 0 {
            assert(crate::decimal::product_fits(per_worker, workers)) by (nonlinear_arith)
                requires
                    per_worker.mantissa == 500,
                    i32::MIN <= workers.mantissa <= i32::MAX,
                    per_worker.scale == 0,
                    workers.scale == 0,
            ;
        }
    }
    if company.treasury.lt(&hire_cost) {
        return HireOutcome::InsufficientTreasury { need: hire_cost, have: company.treasury };
    }
    HireOutcome::Hired { cost: hire_cost, new_total }
}

/// The outcome of building a factory.
#[derive(Debug)]
pub enum FactoryOutcome {
    /// Built: the treasury pays `cost`; the company now has `factories`
    /// factories supporting `worker_capacity` workers.
    Built { cost: Decimal, factories: i32, worker_capacity: i32 },
    /// The treasury cannot pay.
    InsufficientTreasury { need: Decimal, have: Decimal },
}

/// The amounts of a factory outcome are well formed.
pub open spec fn factory_amounts_wf(o: FactoryOutcome) -> bool {
    match o {
        FactoryOutcome::Built { cost, .. } => wf(cost),
        FactoryOutcome::InsufficientTreasury { need, have } => wf(need) && wf(have),
    }
}

/// Decides on building one more factory, at the quadratic factory cost.
pub fn plan_factory(company: &Company) -> (r: FactoryOutcome)
    requires
        -46341 < company.factories + 1 < 46341,
        wf(company.treasury),
    ensures
        factory_amounts_wf(r),
        r matches FactoryOutcome::Built { cost, factories, worker_capacity } ==> is_whole(
            cost,
            factory_cost_spec(company.factories as int),
        ) && units(cost) <= units(company.treasury) && factories == company.factories + 1
            && worker_capacity == (company.factories + 1) * WORKERS_PER_FACTORY,
        r matches FactoryOutcome::InsufficientTreasury { need, have } ==> is_whole(
            need,
            factory_cost_spec(company.factories as int),
        ) && have == company.treasury && units(company.treasury) < units(need),
{
    let cost = company.next_factory_cost();
    if company.treasury.lt(&cost) {
        return FactoryOutcome::InsufficientTreasury { need: cost, have: company.treasury };
    }
    let mut built = Company {
        id: company.id,
        owner_id: company.owner_id,
        name: company.name.clone(),
        treasury: company.treasury,
        workers: company.workers,
        worker_capacity: company.worker_capacity,
        factories: company.factories + 1,
        tech_level: company.tech_level,
        created_at: company.created_at,
    };
    built.recalculate_capacity();
    FactoryOutcome::Built {
        cost,
        factories: built.factories,
        worker_capacity: built.worker_capacity,
    }
}

/// The outcome of researching the next tech level.
#[derive(Debug)]
pub enum ResearchOutcome {
    /// Researched: the treasury pays `cost` and the company reaches `new_level`.
    Researched { cost: Decimal, new_level: i32 },
    /// The treasury cannot pay.
    InsufficientTreasury { need: Decimal, have: Decimal },
}

/// The amounts of a research outcome are well formed.
pub open spec fn research_amounts_wf(o: ResearchOutcome) -> bool {
    match o {
        ResearchOutcome::Researched { cost, .. } => wf(cost),
        ResearchOutcome::InsufficientTreasury { need, have } => wf(need) && wf(have),
    }
}

/// Decides on researching the next tech level, at 25 000 · (level + 1)².
pub fn plan_research(company: &Company) -> (r: ResearchOutcome)
    requires
        -46341 < company.tech_level + 1 < 46341,
        wf(company.treasury),
    ensures
        research_amounts_wf(r),
        r matches ResearchOutcome::Researched { cost, new_level } ==> is_whole(
            cost,
            research_cost_spec(company.tech_level as int),
        ) && units(cost) <= units(company.treasury) && new_level == company.tech_level + 1,
        r matches ResearchOutcome::InsufficientTreasury { need, have } ==> is_whole(
            need,
            research_cost_spec(company.tech_level as int),
        ) && have == company.treasury && units(company.treasury) < units(need),
{
    let n = company.tech_level + 1;
    assert(n * n <= 46340 * 46340) by (nonlinear_arith)
        requires
            -46341 < n < 46341,
    ;
    assert(n * n >= 0) by (nonlinear_arith);
    let base = Decimal::from_i32(RESEARCH_BASE_COST);
    let multiplier = Decimal::from_i32(n * n);
    proof {
        lemma_whole_product(base, multiplier);
    }
    let cost = base.mul(&multiplier);
    proof {
        if n * n != 0 {
            assert(crate::decimal::product_fits(base, multiplier)) by (nonlinear_arith)
                requires
                    base.mantissa == 25000,
                    0 < multiplier.mantissa <= 46340 * 46340,
                    base.scale == 0,
                    multiplier.scale == 0,
            ;
        }
    }
    if company.treasury.lt(&cost) {
        return ResearchOutcome::InsufficientTreasury { need: cost, have: company.treasury };
    }
    ResearchOutcome::Researched { cost, new_level: n }
}

/// The outcome of placing a buy or sell order.
#[derive(Debug)]
pub enum OrderOutcome {
    /// The order to send to the market engine.
    Placed(TradeOrder),
    /// A buy order that the treasury cannot cover at its limit price.
    InsufficientTreasury { need: Decimal, have: Decimal },
    /// A sell order for more than the company holds.
    InsufficientInventory { have: Decimal, want: Decimal },
}

/// The amounts of an order outcome are well formed.
pub open spec fn order_amounts_wf(o: OrderOutcome) -> bool {
    match o {
        OrderOutcome::Placed(order) => wf(order.price) && wf(order.quantity),
        OrderOutcome::InsufficientTreasury { need, have } => wf(need) && wf(have),
        OrderOutcome::InsufficientInventory { have, want } => wf(have) && wf(want),
    }
}

/// An open limit order as placed by a player (identifier and time aside).
pub open spec fn placed_order(
    o: TradeOrder,
    player_id: u128,
    company_id: u128,
    resource_id: u128,
    order_type: OrderType,
    price: Decimal,
    quantity: Decimal,
) -> bool {
    &&& o.player_id == player_id
    &&& o.company_id == company_id
    &&& o.resource_id == resource_id
    &&& o.order_type == order_type
    &&& o.price == price
    &&& o.quantity == quantity
    &&& o.original_quantity == quantity
    &&& o.status == OrderStatus::Open
}

/// Decides on a buy order of `quantity` at `max_price`: the treasury must
/// cover `max_price * quantity`.
pub fn plan_buy(
    player_id: u128,
    company: &Company,
    resource_id: u128,
    quantity: Decimal,
    max_price: Decimal,
) -> (r: OrderOutcome)
    requires
        wf(company.treasury),
        wf(quantity),
        wf(max_price),
        product_safe(max_price, quantity),
    ensures
        order_amounts_wf(r),
        ({
            let total = mul_spec(max_price, quantity);
            if units(company.treasury) < units(total) {
                r == OrderOutcome::InsufficientTreasury { need: total, have: company.treasury }
            } else {
                r matches OrderOutcome::Placed(o) && placed_order(
                    o,
                    player_id,
                    company.id,
                    resource_id,
                    OrderType::Buy,
                    max_price,
                    quantity,
                )
            }
        }),
{
    let total_cost = max_price.mul(&quantity);
    if company.treasury.lt(&total_cost) {
        return OrderOutcome::InsufficientTreasury { need: total_cost, have: company.treasury };
    }
    OrderOutcome::Placed(
        TradeOrder {
            id: fresh_id(),
            player_id,
            company_id: company.id,
            resource_id,
            order_type: OrderType::Buy,
            price: max_price,
            quantity,
            original_quantity: quantity,
            status: OrderStatus::Open,
            created_at: current_time(),
        },
    )
}

/// Decides on a sell order of `quantity` at `min_price`: the company must
/// hold at least `quantity` of the resource across its inventory.
pub fn plan_sell(
    player_id: u128,
    company_id: u128,
    resource_id: u128,
    inventory: &[Inventory],
    quantity: Decimal,
    min_price: Decimal,
) -> (r: OrderOutcome)
    requires
        wf(quantity),
        inventory_in_range(inventory@),
        wf(min_price),
    ensures
        order_amounts_wf(r),
        ({
            let held = held_spec(inventory@, resource_id);
            if units(held) < units(quantity) {
                r == OrderOutcome::InsufficientInventory { have: held, want: quantity }
            } else {
                r matches OrderOutcome::Placed(o) && placed_order(
                    o,
                    player_id,
                    company_id,
                    resource_id,
                    OrderType::Sell,
                    min_price,
                    quantity,
                )
            }
        }),
{
    let held = held_quantity(inventory, resource_id);
    if held.lt(&quantity) {
        return OrderOutcome::InsufficientInventory { have: held, want: quantity };
    }
    OrderOutcome::Placed(
        TradeOrder {
            id: fresh_id(),
            player_id,
            company_id,
            resource_id,
            order_type: OrderType::Sell,
            price: min_price,
            quantity,
            original_quantity: quantity,
            status: OrderStatus::Open,
            created_at: current_time(),
        },
    )
}

/// The position of the first recipe called `slug`.
pub open spec fn find_recipe_by_slug(recipes: Seq<Recipe>, slug: Seq<char>, from: int) -> Option<int>
    decreases recipes.len() - from,
{
    if from < 0 || from >= recipes.len() {
        None
    } else if recipes[from].slug@ == slug {
        Some(from)
    } else {
        find_recipe_by_slug(recipes, slug, from + 1)
    }
}

/// Finds the first recipe called `slug`.
pub fn recipe_by_slug(recipes: &[Recipe], slug: &str) -> (r: Option<usize>)
    ensures
        r matches Some(k) ==> find_recipe_by_slug(recipes@, slug@, 0) == Some(k as int) && k
            < recipes@.len(),
        r is None ==> find_recipe_by_slug(recipes@, slug@, 0) is None,
{
    let mut k: usize = 0;
    while k < recipes.len()
        invariant
            k <= recipes@.len(),
            find_recipe_by_slug(recipes@, slug@, 0) == find_recipe_by_slug(recipes@, slug@, k as int),
        decreases recipes@.len() - k,
    {
        if str_equals(recipes[k].slug.as_str(), slug) {
            return Some(k);
        }
        k = k + 1;
    }
    None
}

/// The outcome of starting production.
#[derive(Debug)]
pub enum StartOutcome {
    /// Started: apply the plan; the company now employs `new_workers`.
    Started { plan: ProductionPlan, new_workers: i32 },
    /// No recipe has the requested slug.
    UnknownRecipe,
    /// The production engine refused the job.
    Refused(ProductionError),
}

/// Every recipe can be planned for the company with a batch of `batch_size`.
pub open spec fn plannable(company: Company, recipes: Seq<Recipe>, batch_size: i32, inventory: Seq<Inventory>) -> bool {
    &&& i32::MIN <= company.worker_capacity - company.workers <= i32::MAX
    &&& forall|k: int|
        0 <= k < recipes.len() ==> {
            &&& i32::MIN <= (#[trigger] recipes[k]).workers_required * batch_size <= i32::MAX
            &&& i32::MIN <= company.workers + recipes[k].workers_required * batch_size
                <= i32::MAX
            &&& production_in_range(recipes[k], batch_size, inventory)
        }
}

/// Decides on starting a production run of the recipe called `slug`: the
/// recipe must exist and the production engine must accept the job; the
/// workers it takes are added to the company's.
pub fn plan_start(
    company: &Company,
    recipes: &[Recipe],
    slug: &str,
    batch_size: i32,
    inventory: &[Inventory],
) -> (r: StartOutcome)
    requires
        plannable(*company, recipes@, batch_size, inventory@),
    ensures
        r matches StartOutcome::Refused(e) ==> error_amounts_wf(e),
        ({
            match find_recipe_by_slug(recipes@, slug@, 0) {
                None => r is UnknownRecipe,
                Some(k) => match r {
                    StartOutcome::Started { plan, new_workers } => {
                        &&& planned(*company, recipes@[k], batch_size, inventory@, Ok(plan))
                        &&& new_workers == company.workers + plan.workers_allocated
                    },
                    StartOutcome::Refused(e) => planned(
                        *company,
                        recipes@[k],
                        batch_size,
                        inventory@,
                        Err(e),
                    ),
                    StartOutcome::UnknownRecipe => false,
                },
            }
        }),
{
    let k = match recipe_by_slug(recipes, slug) {
        Some(k) => k,
        None => {
            return StartOutcome::UnknownRecipe;
        },
    };
    let recipe = &recipes[k];
    match ProductionEngine::plan_production(company, recipe, batch_size, inventory) {
        Ok(plan) => {
            let new_workers = company.workers + plan.workers_allocated;
            StartOutcome::Started { plan, new_workers }
        },
        Err(e) => StartOutcome::Refused(e),
    }
}

/// Whether `plan_start` can be asked to start production for `company`:
/// its worker figures and every recipe's amounts are within range.
pub fn start_in_range(
    company: &Company,
    recipes: &[Recipe],
    batch_size: i32,
    inventory: &[Inventory],
) -> (r: bool)
    ensures
        r == plannable(*company, recipes@, batch_size, inventory@),
{
    let free = company.worker_capacity as i64 - company.workers as i64;
    if free < i32::MIN as i64 || free > i32::MAX as i64 {
        return false;
    }
    let inventory_ok = inventory_is_in_range(inventory);
    let mut k: usize = 0;
    while k < recipes.len()
        invariant
            k <= recipes@.len(),
            i32::MIN <= company.worker_capacity - company.workers <= i32::MAX,
            inventory_ok == inventory_in_range(inventory@),
            forall|j: int|
                0 <= j < k ==> {
                    &&& i32::MIN <= (#[trigger] recipes@[j]).workers_required * batch_size
                        <= i32::MAX
                    &&& i32::MIN <= company.workers + recipes@[j].workers_required * batch_size
                        <= i32::MAX
                    &&& production_in_range(recipes@[j], batch_size, inventory@)
                },
        decreases recipes@.len() - k,
    {
        let recipe = &recipes[k];
        let w = recipe.workers_required as i64;
        let b = batch_size as i64;
        assert(-0x4000_0000_0000_0000 <= w * b <= 0x4000_0000_0000_0000) by (nonlinear_arith)
            requires
                -0x8000_0000 <= w <= 0x7fff_ffff,
                -0x8000_0000 <= b <= 0x7fff_ffff,
        ;
        let needed = w * b;
        if needed < i32::MIN as i64 || needed > i32::MAX as i64 {
            return false;
        }
        let total = company.workers as i64 + needed;
        if total < i32::MIN as i64 || total > i32::MAX as i64 {
            return false;
        }
        if !inventory_ok {
            return false;
        }
        let mut i: usize = 0;
        while i < recipe.inputs.len()
            invariant
                i <= recipe.inputs@.len(),
                k < recipes@.len(),
                *recipe == recipes@[k as int],
                forall|t: int|
                    0 <= t < i ==> {
                        &&& wf(#[trigger] recipe.inputs@[t].quantity)
                        &&& product_safe(recipe.inputs@[t].quantity, batch_decimal(batch_size))
                    },
            decreases recipe.inputs@.len() - i,
        {
            let q = &recipe.inputs[i].quantity;
            if !q.is_valid() || !product_is_safe(q, batch_size) {
                proof {
                    assert(!production_in_range(recipes@[k as int], batch_size, inventory@));
                }
                return false;
            }
            i = i + 1;
        }
        k = k + 1;
    }
    true
}

// ── Laws ───────────────────────────────────────────────────────────────────
/// Research costs 25 000 for the first level, and each next level costs
/// 25 000 · (2·level + 3) more than the one before: the cost grows with the
/// square of the level reached.
pub proof fn law_research_cost_grows_with_the_square(tech_level: int)
    ensures
        research_cost_spec(0) == 25000,
        research_cost_spec(tech_level + 1) - research_cost_spec(tech_level) == 25000 * (2
            * tech_level + 3),
        tech_level >= 0 ==> research_cost_spec(tech_level) >= 25000,
{
    assert(research_cost_spec(tech_level + 1) - research_cost_spec(tech_level) == 25000 * (2
        * tech_level + 3)) by (nonlinear_arith);
    assert(tech_level >= 0 ==> (tech_level + 1) * (tech_level + 1) >= 1) by (nonlinear_arith);
}

proof fn lemma_find_by_slug(recipes: Seq<Recipe>, slug: Seq<char>, from: int)
    requires
        0 <= from,
    ensures
        match find_recipe_by_slug(recipes, slug, from) {
            Some(k) => from <= k < recipes.len() && recipes[k].slug@ == slug && forall|j: int|
                from <= j < k ==> recipes[j].slug@ != slug,
            None => forall|j: int| from <= j < recipes.len() ==> recipes[j].slug@ != slug,
        },
    decreases recipes.len() - from,
{
    if from < recipes.len() && recipes[from].slug@ != slug {
        lemma_find_by_slug(recipes, slug, from + 1);
    }
}

/// The recipe that a slug names is the first recipe with that slug; none is
/// found exactly when no recipe has it.
pub proof fn law_recipe_by_slug_is_the_first_with_it(recipes: Seq<Recipe>, slug: Seq<char>)
    ensures
        find_recipe_by_slug(recipes, slug, 0) is None <==> forall|j: int|
            0 <= j < recipes.len() ==> (#[trigger] recipes[j]).slug@ != slug,
        find_recipe_by_slug(recipes, slug, 0) matches Some(k) ==> 0 <= k < recipes.len()
            && recipes[k].slug@ == slug && forall|j: int|
            0 <= j < k ==> (#[trigger] recipes[j]).slug@ != slug,
{
    lemma_find_by_slug(recipes, slug, 0);
}

} // verus!
