//! Top-level simulation coordinator.
//!
//! One tick of the economy:
//!   1. advance the production jobs and hand out finished goods;
//!   2. pay wages from company treasuries;
//!   3. let NPC producers offer raw materials at the price floor, and flood
//!      with supply every market whose price exceeds five times its base;
//!   4. run the matching engine on every market;
//!   5. record a snapshot of every market;
//!   6. decay the orders that have stood on the book for more than a day.
//!
//! The engine works on in-memory state and returns the effects of the tick;
//! applying them to the database is the caller's business.
use vstd::prelude::*;
use vstd::slice::SliceAdditionalExecFns;

use crate::decimal::{
    abs, add_spec, lemma_pow10_values, mul_spec, product_safe, units, within, wf, Decimal,
};
use crate::engine::matching::{
    book_wf, changed_orders, fill_wf, match_safe, match_spec, order_wf, same_trade, sum_limit,
    sum_ok, MatchResult, MatchingEngine,
};
use crate::engine::pricing::{
    ceiling_factor, ema_spec, floor_factor, with_price, PricingEngine,
};
use crate::engine::production::{
    batch_decimal, job_after_tick, outputs_spec, ProductionEngine, TickResult,
};
use crate::models::{
    fresh_id, Company, Market, MarketSnapshot, OrderStatus, OrderType, ProductionJob,
    ProductionStatus, Recipe, Resource, ResourceCategory, Timestamp, TradeOrder, Transaction,
    NIL_ID, WAGE_PER_WORKER,
};

verus! {

/// Drives the simulation and counts its ticks.
pub struct EconomicEngine {
    pub tick_count: u64,
}

/// Everything one tick changes, for the caller to apply.
pub struct TickEffects {
    // Effects of player commands, filled in by the caller.
    pub new_companies: Vec<Company>,
    pub updated_companies: Vec<Company>,
    pub new_jobs: Vec<ProductionJob>,
    pub new_orders: Vec<TradeOrder>,
    pub cancelled_orders: Vec<u128>,
    // Effects computed by the engine.
    /// Jobs that advanced this tick, as they now are.
    pub updated_jobs: Vec<ProductionJob>,
    /// (owner, resource, quantity added) for the inventories.
    pub inventory_deltas: Vec<(u128, u128, Decimal)>,
    /// (owner, amount added) for the treasuries.
    pub treasury_deltas: Vec<(u128, Decimal)>,
    /// Sell orders placed by NPC producers.
    pub npc_orders: Vec<TradeOrder>,
    /// (resource, outcome of its matching) for every market.
    pub match_results: Vec<(u128, MatchResult)>,
    pub snapshots: Vec<MarketSnapshot>,
    pub updated_markets: Vec<Market>,
    /// Orders taken off the book because they were placed more than a day
    /// before the tick.
    pub decayed_orders: Vec<u128>,
    /// Resources of the markets left as they were because matching or
    /// updating them would overflow the decimal range.
    pub overflowed_markets: Vec<u128>,
}

impl TickEffects {
    /// Effects with nothing in them.
    pub fn empty() -> (r: TickEffects)
        ensures
            r.new_companies@.len() == 0,
            r.updated_companies@.len() == 0,
            r.new_jobs@.len() == 0,
            r.new_orders@.len() == 0,
            r.cancelled_orders@.len() == 0,
            r.updated_jobs@.len() == 0,
            r.inventory_deltas@.len() == 0,
            r.treasury_deltas@.len() == 0,
            r.npc_orders@.len() == 0,
            r.match_results@.len() == 0,
            r.snapshots@.len() == 0,
            r.updated_markets@.len() == 0,
            r.decayed_orders@.len() == 0,
            r.overflowed_markets@.len() == 0,
    {
        TickEffects {
            new_companies: Vec::new(),
            updated_companies: Vec::new(),
            new_jobs: Vec::new(),
            new_orders: Vec::new(),
            cancelled_orders: Vec::new(),
            updated_jobs: Vec::new(),
            inventory_deltas: Vec::new(),
            treasury_deltas: Vec::new(),
            npc_orders: Vec::new(),
            match_results: Vec::new(),
            snapshots: Vec::new(),
            updated_markets: Vec::new(),
            decayed_orders: Vec::new(),
            overflowed_markets: Vec::new(),
        }
    }
}

// ── Phase 1: production ────────────────────────────────────────────────────
/// The position of the first recipe with identifier `id`, from `from` on.
pub open spec fn find_recipe(recipes: Seq<Recipe>, id: u128, from: int) -> Option<int>
    decreases recipes.len() - from,
{
    if from < 0 || from >= recipes.len() {
        None
    } else if recipes[from].id == id {
        Some(from)
    } else {
        find_recipe(recipes, id, from + 1)
    }
}

/// The inventory deltas of a completed job: its recipe's outputs, scaled by
/// the batch size, credited to its company.
pub open spec fn job_outputs(job: ProductionJob, recipe: Recipe) -> Seq<(u128, u128, Decimal)> {
    outputs_spec(recipe, job.batch_size).map_values(
        |o: (u128, Decimal)| (job.company_id, o.0, o.1),
    )
}

/// Phase 1 over `jobs` in order: the jobs afterwards, the jobs that advanced
/// (as they now are), and the goods that completed jobs produced.  Jobs that
/// are not running, or whose recipe is unknown, are left alone.
pub open spec fn advance_spec(jobs: Seq<ProductionJob>, recipes: Seq<Recipe>) -> (
    Seq<ProductionJob>,
    Seq<ProductionJob>,
    Seq<(u128, u128, Decimal)>,
)
    decreases jobs.len(),
{
    if jobs.len() == 0 {
        (Seq::empty(), Seq::empty(), Seq::empty())
    } else {
        let prev = advance_spec(jobs.drop_last(), recipes);
        let job = jobs.last();
        let found = find_recipe(recipes, job.recipe_id, 0);
        if job.status != ProductionStatus::Running || found is None {
            (prev.0.push(job), prev.1, prev.2)
        } else {
            let after = job_after_tick(job);
            let produced = if after.status == ProductionStatus::Completed {
                job_outputs(job, recipes[found->0])
            } else {
                Seq::empty()
            };
            (prev.0.push(after), prev.1.push(after), prev.2 + produced)
        }
    }
}

/// A running job can be ticked against its recipe without leaving the
/// integer and decimal ranges.
pub open spec fn job_tickable(job: ProductionJob, recipe: Recipe) -> bool {
    &&& job.ticks_remaining > i32::MIN
    &&& i32::MIN <= recipe.workers_required * job.batch_size <= i32::MAX
    &&& forall|i: int|
        0 <= i < recipe.outputs@.len() ==> {
            &&& wf(#[trigger] recipe.outputs@[i].quantity)
            &&& crate::decimal::product_safe(
                recipe.outputs@[i].quantity,
                batch_decimal(job.batch_size),
            )
        }
}

pub open spec fn jobs_tickable(jobs: Seq<ProductionJob>, recipes: Seq<Recipe>) -> bool {
    forall|i: int|
        0 <= i < jobs.len() && #[trigger] jobs[i].status == ProductionStatus::Running && find_recipe(
            recipes,
            jobs[i].recipe_id,
            0,
        ) is Some ==> job_tickable(jobs[i], recipes[find_recipe(recipes, jobs[i].recipe_id, 0)->0])
}

// ── Phase 2: wages ─────────────────────────────────────────────────────────
/// The wage payments of phase 2: each company with workers pays 100 per
/// worker, in order.
pub open spec fn wages_spec(companies: Seq<Company>) -> Seq<(u128, Decimal)>
    decreases companies.len(),
{
    if companies.len() == 0 {
        Seq::empty()
    } else {
        let prev = wages_spec(companies.drop_last());
        let c = companies.last();
        if c.workers != 0 {
            prev.push(
                (
                    c.id,
                    Decimal { mantissa: (-(WAGE_PER_WORKER * c.workers)) as i128, scale: 0 },
                ),
            )
        } else {
            prev
        }
    }
}

// ── Phase 3: NPC supply ────────────────────────────────────────────────────
/// The NPC sell order for a raw material: from no player, at half the base
/// price, for the spawn rate (identifier and time are fresh values, left at
/// zero here).
pub open spec fn npc_order_for(r: Resource) -> TradeOrder {
    TradeOrder {
        id: 0,
        player_id: NIL_ID,
        company_id: NIL_ID,
        resource_id: r.id,
        order_type: OrderType::Sell,
        price: mul_spec(r.base_price, floor_factor()),
        quantity: r.spawn_rate,
        original_quantity: r.spawn_rate,
        status: OrderStatus::Open,
        created_at: Timestamp { secs: 0, nanos: 0 },
    }
}

/// Whether phase 3 spawns an order for `r`: raw materials with a non-zero
/// spawn rate.
pub open spec fn spawns(r: Resource) -> bool {
    r.category == ResourceCategory::RawMaterial && r.spawn_rate.mantissa != 0
}

/// The NPC orders of phase 3, in order of the resources.
pub open spec fn npc_spec(resources: Seq<Resource>) -> Seq<TradeOrder>
    decreases resources.len(),
{
    if resources.len() == 0 {
        Seq::empty()
    } else {
        let prev = npc_spec(resources.drop_last());
        if spawns(resources.last()) {
            prev.push(npc_order_for(resources.last()))
        } else {
            prev
        }
    }
}

/// Two orders agree but for identifier and creation time.
pub open spec fn same_order_terms(o: TradeOrder, p: TradeOrder) -> bool {
    o == TradeOrder { id: o.id, created_at: o.created_at, ..p }
}

/// A resource's amounts are representable: its base price, and its spawn
/// rate when it spawns.
pub open spec fn resource_wf(r: Resource) -> bool {
    &&& wf(r.base_price)
    &&& spawns(r) ==> wf(r.spawn_rate)
}

// ── Phase 3, continued: NPC supply above the price ceiling ────────────────
/// The position of the first resource with identifier `id`, from `from` on.
pub open spec fn find_resource(resources: Seq<Resource>, id: u128, from: int) -> Option<int>
    decreases resources.len() - from,
{
    if from < 0 || from >= resources.len() {
        None
    } else if resources[from].id == id {
        Some(from)
    } else {
        find_resource(resources, id, from + 1)
    }
}

/// NPC sellers flood market `m`: its last price exceeds five times the base
/// price of its resource (a ceiling that the decimal range can hold).
pub open spec fn floods(m: Market, resources: Seq<Resource>) -> bool {
    match find_resource(resources, m.resource_id, 0) {
        Some(k) => product_safe(resources[k].base_price, ceiling_factor()) && units(
            mul_spec(resources[k].base_price, ceiling_factor()),
        ) < units(m.last_price),
        None => false,
    }
}

/// How much a flood offers: the whole demand on the market, or a single unit
/// when no demand stands.
pub open spec fn flood_quantity(m: Market) -> Decimal {
    if m.total_demand.mantissa > 0 {
        m.total_demand
    } else {
        Decimal { mantissa: 1, scale: 0 }
    }
}

/// The NPC sell order that floods market `m`: from no player, at the
/// ceiling price of its resource, for the flood quantity (identifier and
/// time are fresh values, left at zero here).
pub open spec fn flood_order_for(m: Market, resources: Seq<Resource>) -> TradeOrder {
    let k = find_resource(resources, m.resource_id, 0)->0;
    TradeOrder {
        id: 0,
        player_id: NIL_ID,
        company_id: NIL_ID,
        resource_id: m.resource_id,
        order_type: OrderType::Sell,
        price: mul_spec(resources[k].base_price, ceiling_factor()),
        quantity: flood_quantity(m),
        original_quantity: flood_quantity(m),
        status: OrderStatus::Open,
        created_at: Timestamp { secs: 0, nanos: 0 },
    }
}

/// The flooding NPC orders, in order of the markets.
pub open spec fn flood_spec(markets: Seq<Market>, resources: Seq<Resource>) -> Seq<TradeOrder>
    decreases markets.len(),
{
    if markets.len() == 0 {
        Seq::empty()
    } else {
        let prev = flood_spec(markets.drop_last(), resources);
        if floods(markets.last(), resources) {
            prev.push(flood_order_for(markets.last(), resources))
        } else {
            prev
        }
    }
}

/// All NPC orders of a tick: the spawned ones, then the flooding ones.
pub open spec fn npc_all(markets: Seq<Market>, resources: Seq<Resource>) -> Seq<TradeOrder> {
    npc_spec(resources) + flood_spec(markets, resources)
}

// ── Phase 6: decay ─────────────────────────────────────────────────────────
/// How long an order stands on the book before it decays: one day, in
/// seconds.
pub const ORDER_LIFETIME_SECS: i64 = 86400;

/// An order is stale at `now` when it was placed more than a day before.
pub open spec fn stale(o: TradeOrder, now: Timestamp) -> bool {
    o.created_at.secs + ORDER_LIFETIME_SECS < now.secs
}

/// The orders of `s` that are not stale at `now`, in order.
pub open spec fn kept(s: Seq<TradeOrder>, now: Timestamp) -> Seq<TradeOrder>
    decreases s.len(),
{
    if s.len() == 0 {
        Seq::empty()
    } else if stale(s.last(), now) {
        kept(s.drop_last(), now)
    } else {
        kept(s.drop_last(), now).push(s.last())
    }
}

/// The identifiers of the orders of `s` that are stale at `now`, in order.
pub open spec fn stale_ids(s: Seq<TradeOrder>, now: Timestamp) -> Seq<u128>
    decreases s.len(),
{
    if s.len() == 0 {
        Seq::empty()
    } else if stale(s.last(), now) {
        stale_ids(s.drop_last(), now).push(s.last().id)
    } else {
        stale_ids(s.drop_last(), now)
    }
}

// ── Phase 4: markets ───────────────────────────────────────────────────────
/// The open orders of `orders` for resource `rid`, in order.
pub open spec fn open_for(orders: Seq<TradeOrder>, rid: u128) -> Seq<TradeOrder>
    decreases orders.len(),
{
    if orders.len() == 0 {
        Seq::empty()
    } else {
        let prev = open_for(orders.drop_last(), rid);
        let o = orders.last();
        if o.resource_id == rid && o.status == OrderStatus::Open {
            prev.push(o)
        } else {
            prev
        }
    }
}

/// The traded volume of a sequence of fills: their quantities summed from
/// zero.
pub open spec fn fills_volume(fills: Seq<Transaction>) -> Decimal
    decreases fills.len(),
{
    if fills.len() == 0 {
        Decimal { mantissa: 0, scale: 0 }
    } else {
        add_spec(fills_volume(fills.drop_last()), fills.last().quantity)
    }
}

/// The quantity left on the open and partially filled orders of a side.
pub open spec fn remaining_spec(s: Seq<TradeOrder>) -> Decimal
    decreases s.len(),
{
    if s.len() == 0 {
        Decimal { mantissa: 0, scale: 0 }
    } else if s.last().status == OrderStatus::Open || s.last().status
        == OrderStatus::PartiallyFilled {
        add_spec(remaining_spec(s.drop_last()), s.last().quantity)
    } else {
        remaining_spec(s.drop_last())
    }
}

/// `d` negated (same scale).
pub open spec fn neg_spec(d: Decimal) -> Decimal {
    Decimal { mantissa: (-d.mantissa) as i128, scale: d.scale }
}

/// The position of the first order with identifier `id` in `book`, from
/// `from` on.
pub open spec fn order_position(book: Seq<TradeOrder>, id: u128, from: int) -> Option<int>
    decreases book.len() - from,
{
    if from < 0 || from >= book.len() {
        None
    } else if book[from].id == id {
        Some(from)
    } else {
        order_position(book, id, from + 1)
    }
}

/// The company that placed the order with identifier `id` on `book` (the
/// first such order), or the nil identifier when none is on it.
pub open spec fn company_of(book: Seq<TradeOrder>, id: u128) -> u128 {
    match order_position(book, id, 0) {
        Some(k) => book[k].company_id,
        None => NIL_ID,
    }
}

/// The treasury deltas of a sequence of fills on the book `buys`/`sells`:
/// the company of each fill's buy order pays, and the company of its sell
/// order receives, the trade's value.
pub open spec fn trade_payments(
    fills: Seq<Transaction>,
    buys: Seq<TradeOrder>,
    sells: Seq<TradeOrder>,
) -> Seq<(u128, Decimal)>
    decreases fills.len(),
{
    if fills.len() == 0 {
        Seq::empty()
    } else {
        let t = fills.last();
        trade_payments(fills.drop_last(), buys, sells) + seq![
            (company_of(buys, t.buy_order_id), neg_spec(t.total_value)),
            (company_of(sells, t.sell_order_id), t.total_value),
        ]
    }
}

/// The inventory deltas of a sequence of fills on the buy side `buys`: the
/// company of each fill's buy order receives the traded quantity (sellers
/// gave theirs up when they placed the order).
pub open spec fn trade_receipts(fills: Seq<Transaction>, buys: Seq<TradeOrder>) -> Seq<
    (u128, u128, Decimal),
>
    decreases fills.len(),
{
    if fills.len() == 0 {
        Seq::empty()
    } else {
        let t = fills.last();
        trade_receipts(fills.drop_last(), buys).push(
            (company_of(buys, t.buy_order_id), t.resource_id, t.quantity),
        )
    }
}

/// The matching of market `m`'s resource on the book `buys`/`sells`.
pub open spec fn market_match(m: Market, buys: Seq<TradeOrder>, sells: Seq<TradeOrder>) -> (
    Seq<TradeOrder>,
    Seq<TradeOrder>,
    Seq<Transaction>,
    Option<Decimal>,
) {
    match_spec(open_for(buys, m.resource_id), open_for(sells, m.resource_id))
}

/// Market `m` after its matching: when trades occurred, the last price and
/// moving average follow the last trade and the volume grows by the traded
/// quantity; supply and demand are what remains on the book.  (The update
/// time is the current instant and is not part of this value.)
pub open spec fn market_after(m: Market, buys: Seq<TradeOrder>, sells: Seq<TradeOrder>) -> Market {
    let mm = market_match(m, buys, sells);
    let traded = if mm.3 is Some {
        Market {
            total_volume: add_spec(m.total_volume, fills_volume(mm.2)),
            ..with_price(m, ema_spec(mm.3->0, m.ema_price), mm.3->0)
        }
    } else {
        m
    };
    Market { total_supply: remaining_spec(mm.1), total_demand: remaining_spec(mm.0), ..traded }
}

/// The treasury deltas of phase 4 over the markets that can be updated, in
/// order.
pub open spec fn markets_payments(
    markets: Seq<Market>,
    buys: Seq<TradeOrder>,
    sells: Seq<TradeOrder>,
) -> Seq<(u128, Decimal)>
    decreases markets.len(),
{
    if markets.len() == 0 {
        Seq::empty()
    } else {
        let rid = markets.last().resource_id;
        if market_ok(markets.last(), buys, sells) {
            markets_payments(markets.drop_last(), buys, sells) + trade_payments(
                market_match(markets.last(), buys, sells).2,
                open_for(buys, rid),
                open_for(sells, rid),
            )
        } else {
            markets_payments(markets.drop_last(), buys, sells)
        }
    }
}

/// The inventory deltas of phase 4 over the markets that can be updated, in
/// order.
pub open spec fn markets_receipts(
    markets: Seq<Market>,
    buys: Seq<TradeOrder>,
    sells: Seq<TradeOrder>,
) -> Seq<(u128, u128, Decimal)>
    decreases markets.len(),
{
    if markets.len() == 0 {
        Seq::empty()
    } else {
        let rid = markets.last().resource_id;
        if market_ok(markets.last(), buys, sells) {
            markets_receipts(markets.drop_last(), buys, sells) + trade_receipts(
                market_match(markets.last(), buys, sells).2,
                open_for(buys, rid),
            )
        } else {
            markets_receipts(markets.drop_last(), buys, sells)
        }
    }
}

/// Two markets agree but for their update time.
pub open spec fn same_market_state(m: Market, n: Market) -> bool {
    m == Market { updated_at: m.updated_at, ..n }
}

/// `r` is the outcome of matching `mm`: the same trades in order, the same
/// changed orders and the same last price.
pub open spec fn result_matches(
    r: MatchResult,
    mm: (Seq<TradeOrder>, Seq<TradeOrder>, Seq<Transaction>, Option<Decimal>),
) -> bool {
    &&& r.transactions@.len() == mm.2.len()
    &&& forall|i: int| 0 <= i < mm.2.len() ==> same_trade(#[trigger] r.transactions@[i], mm.2[i])
    &&& r.updated_orders@ == changed_orders(mm.0) + changed_orders(mm.1)
    &&& r.last_price == mm.3
}

/// A market's amounts are representable.
pub open spec fn market_wf(m: Market) -> bool {
    &&& wf(m.last_price)
    &&& wf(m.total_demand)
    &&& wf(m.ema_price)
    &&& wf(m.total_volume)
}

/// Summing the quantities of `fills` in order never overflows.
pub open spec fn volume_ok(fills: Seq<Transaction>) -> bool
    decreases fills.len(),
{
    if fills.len() == 0 {
        true
    } else {
        volume_ok(fills.drop_last()) && sum_ok(fills_volume(fills.drop_last()), fills.last().quantity)
    }
}

/// Summing what remains on the open and partially filled orders of a side
/// never overflows.
pub open spec fn remaining_ok(s: Seq<TradeOrder>) -> bool
    decreases s.len(),
{
    if s.len() == 0 {
        true
    } else {
        remaining_ok(s.drop_last()) && ((s.last().status == OrderStatus::Open || s.last().status
            == OrderStatus::PartiallyFilled) ==> sum_ok(remaining_spec(s.drop_last()), s.last().quantity))
    }
}

/// Market `m` can be matched and updated without overflow: the matching of
/// its open orders is safe (`match_safe`), and the traded volume and its
/// addition to the market's, the moving average, and the remaining supply
/// and demand are sums whose operands are at most 2^94, half the decimal
/// range.
pub open spec fn market_ok(m: Market, buys: Seq<TradeOrder>, sells: Seq<TradeOrder>) -> bool {
    let ob = open_for(buys, m.resource_id);
    let os = open_for(sells, m.resource_id);
    let mm = match_spec(ob, os);
    &&& match_safe(ob, os)
    &&& volume_ok(mm.2)
    &&& mm.3 is Some ==> {
        &&& within(mm.3->0, sum_limit())
        &&& within(m.ema_price, sum_limit())
        &&& sum_ok(m.total_volume, fills_volume(mm.2))
    }
    &&& remaining_ok(mm.0)
    &&& remaining_ok(mm.1)
}

/// The resources of the markets that cannot be updated without overflow,
/// in order.
pub open spec fn overflowed(markets: Seq<Market>, buys: Seq<TradeOrder>, sells: Seq<TradeOrder>) -> Seq<
    u128,
>
    decreases markets.len(),
{
    if markets.len() == 0 {
        Seq::empty()
    } else if market_ok(markets.last(), buys, sells) {
        overflowed(markets.drop_last(), buys, sells)
    } else {
        overflowed(markets.drop_last(), buys, sells).push(markets.last().resource_id)
    }
}

// ── Lemmas ─────────────────────────────────────────────────────────────────
proof fn lemma_open_for_subset(s: Seq<TradeOrder>, rid: u128)
    ensures
        open_for(s, rid).len() <= s.len(),
        forall|k: int|
            0 <= k < open_for(s, rid).len() ==> s.contains(#[trigger] open_for(s, rid)[k]),
    decreases s.len(),
{
    if s.len() > 0 {
        lemma_open_for_subset(s.drop_last(), rid);
        let p = open_for(s.drop_last(), rid);
        if s.last().resource_id == rid && s.last().status == OrderStatus::Open {
            assert(open_for(s, rid).drop_last() =~= p);
            assert(open_for(s, rid).last() == s.last());
        }
        assert forall|k: int| 0 <= k < open_for(s, rid).len() implies s.contains(
            #[trigger] open_for(s, rid)[k],
        ) by {
            let y = open_for(s, rid)[k];
            if k < p.len() {
                assert(y == p[k]);
                assert(s.drop_last().contains(y));
                let j = choose|j: int| 0 <= j < s.drop_last().len() && s.drop_last()[j] == y;
                assert(s[j] == y);
            } else {
                assert(y == s.last());
                assert(s[s.len() - 1] == y);
            }
        }
    }
}

proof fn lemma_open_books_wf(b: Seq<TradeOrder>, s: Seq<TradeOrder>, rid: u128)
    requires
        book_wf(b, s),
    ensures
        book_wf(open_for(b, rid), open_for(s, rid)),
{
    lemma_open_for_subset(b, rid);
    lemma_open_for_subset(s, rid);
    let ob = open_for(b, rid);
    let os = open_for(s, rid);
    assert forall|i: int| 0 <= i < ob.len() implies order_wf(#[trigger] ob[i]) by {
        assert(b.contains(ob[i]));
    }
    assert forall|i: int| 0 <= i < os.len() implies order_wf(#[trigger] os[i]) by {
        assert(s.contains(os[i]));
    }
}

proof fn lemma_volume_agrees(
    t: Seq<Transaction>,
    u: Seq<Transaction>,
    buys: Seq<TradeOrder>,
    sells: Seq<TradeOrder>,
)
    requires
        t.len() == u.len(),
        forall|i: int| 0 <= i < t.len() ==> same_trade(#[trigger] t[i], u[i]),
    ensures
        fills_volume(t) == fills_volume(u),
        trade_payments(t, buys, sells) == trade_payments(u, buys, sells),
        trade_receipts(t, buys) == trade_receipts(u, buys),
    decreases t.len(),
{
    if t.len() > 0 {
        assert(same_trade(t[t.len() - 1], u[u.len() - 1]));
        lemma_volume_agrees(t.drop_last(), u.drop_last(), buys, sells);
    }
}

/// The company that placed the order `id` on `book`.
fn company_of_order(book: &Vec<TradeOrder>, id: u128) -> (r: u128)
    ensures
        r == company_of(book@, id),
{
    let mut k: usize = 0;
    while k < book.len()
        invariant
            k <= book@.len(),
            order_position(book@, id, 0) == order_position(book@, id, k as int),
        decreases book@.len() - k,
    {
        if book[k].id == id {
            return book[k].company_id;
        }
        k = k + 1;
    }
    NIL_ID
}

// ── Executable phases ──────────────────────────────────────────────────────
/// The position of the first recipe with identifier `id`.
pub(crate) fn recipe_position(recipes: &[Recipe], id: u128) -> (r: Option<usize>)
    ensures
        r matches Some(k) ==> find_recipe(recipes@, id, 0) == Some(k as int) && k < recipes@.len(),
        r is None ==> find_recipe(recipes@, id, 0) is None,
{
    let mut k: usize = 0;
    while k < recipes.len()
        invariant
            k <= recipes@.len(),
            find_recipe(recipes@, id, 0) == find_recipe(recipes@, id, k as int),
        decreases recipes@.len() - k,
    {
        if recipes[k].id == id {
            return Some(k);
        }
        k = k + 1;
    }
    None
}

/// Phase 1.
fn advance_jobs(
    jobs: &mut [ProductionJob],
    recipes: &[Recipe],
    updated: &mut Vec<ProductionJob>,
    deltas: &mut Vec<(u128, u128, Decimal)>,
)
    requires
        jobs_tickable(old(jobs)@, recipes@),
    ensures
        ({
            let a = advance_spec(old(jobs)@, recipes@);
            &&& final(jobs)@ == a.0
            &&& final(updated)@ == old(updated)@ + a.1
            &&& final(deltas)@ == old(deltas)@ + a.2
        }),
{
    let ghost j0 = jobs@;
    let mut i: usize = 0;
    while i < jobs.len()
        invariant
            i <= jobs@.len(),
            jobs@.len() == j0.len(),
            jobs_tickable(j0, recipes@),
            jobs@.subrange(0, i as int) == advance_spec(j0.take(i as int), recipes@).0,
            jobs@.subrange(i as int, jobs@.len() as int) == j0.subrange(i as int, j0.len() as int),
            updated@ == old(updated)@ + advance_spec(j0.take(i as int), recipes@).1,
            deltas@ == old(deltas)@ + advance_spec(j0.take(i as int), recipes@).2,
        decreases jobs@.len() - i,
    {
        let ghost before = jobs@;
        let ghost i0 = i as int;
        let ghost prev = advance_spec(j0.take(i as int), recipes@);
        proof {
            assert(j0.take(i as int + 1).drop_last() =~= j0.take(i as int));
            assert(j0.take(i as int + 1).last() == j0[i as int]);
            assert(before[i as int] == before.subrange(i as int, before.len() as int)[0]);
            assert(before[i as int] == j0[i as int]);
        }
        let mut job = jobs[i];
        if job.status == ProductionStatus::Running {
            match recipe_position(recipes, job.recipe_id) {
                Some(k) => {
                    proof {
                        assert(job_tickable(j0[i as int], recipes@[k as int]));
                    }
                    let result = ProductionEngine::tick_job(&mut job, &recipes[k]);
                    jobs.set(i, job);
                    match result {
                        TickResult::Completed { outputs, workers_freed: _ } => {
                            let ghost d0 = deltas@;
                            let mut o: usize = 0;
                            while o < outputs.len()
                                invariant
                                    o <= outputs@.len(),
                                    outputs@ == outputs_spec(recipes@[k as int], j0[i as int].batch_size),
                                    job.company_id == j0[i as int].company_id,
                                    deltas@ == d0 + job_outputs(j0[i as int], recipes@[k as int]).take(
                                        o as int,
                                    ),
                                decreases outputs@.len() - o,
                            {
                                let (resource_id, qty) = outputs[o];
                                deltas.push((job.company_id, resource_id, qty));
                                o = o + 1;
                                proof {
                                    assert(deltas@ =~= d0 + job_outputs(
                                        j0[i as int],
                                        recipes@[k as int],
                                    ).take(o as int));
                                }
                            }
                            proof {
                                assert(job_outputs(j0[i as int], recipes@[k as int]).take(
                                    o as int,
                                ) =~= job_outputs(j0[i as int], recipes@[k as int]));
                            }
                            updated.push(job);
                        },
                        TickResult::InProgress(_) => {
                            updated.push(job);
                        },
                        TickResult::NoOp => {},
                    }
                },
                None => {},
            }
        }
        i = i + 1;
        proof {
            let cur = advance_spec(j0.take(i as int), recipes@);
            assert forall|k: int| i0 < k < jobs@.len() implies jobs@[k] == j0[k] by {
                assert(jobs@[k] == before[k]);
                assert(before[k] == before.subrange(i0, before.len() as int)[k - i0]);
            }
            assert(jobs@.subrange(0, i as int) =~= prev.0.push(jobs@[i - 1]));
            assert(jobs@.subrange(i as int, jobs@.len() as int) =~= j0.subrange(
                i as int,
                j0.len() as int,
            ));
            assert(jobs@.subrange(0, i as int) =~= cur.0);
            assert(updated@ =~= old(updated)@ + cur.1);
            assert(deltas@ =~= old(deltas)@ + cur.2);
        }
    }
    proof {
        assert(j0.take(j0.len() as int) =~= j0);
        assert(jobs@.subrange(0, jobs@.len() as int) =~= jobs@);
    }
}

/// Phase 2.
fn pay_wages(companies: &[Company], deltas: &mut Vec<(u128, Decimal)>)
    ensures
        final(deltas)@ == old(deltas)@ + wages_spec(companies@),
{
    let mut i: usize = 0;
    while i < companies.len()
        invariant
            i <= companies@.len(),
            deltas@ == old(deltas)@ + wages_spec(companies@.take(i as int)),
        decreases companies@.len() - i,
    {
        proof {
            assert(companies@.take(i as int + 1).drop_last() =~= companies@.take(i as int));
            assert(companies@.take(i as int + 1).last() == companies@[i as int]);
        }
        let wage = companies[i].daily_wage_cost();
        if !wage.is_zero() {
            deltas.push((companies[i].id, wage.neg()));
        }
        i = i + 1;
        proof {
            assert(deltas@ =~= old(deltas)@ + wages_spec(companies@.take(i as int)));
        }
    }
    proof {
        assert(companies@.take(companies@.len() as int) =~= companies@);
    }
}

/// Phase 3.
fn spawn_npc_orders(
    resources: &[Resource],
    sell_orders: &mut Vec<TradeOrder>,
    npc_orders: &mut Vec<TradeOrder>,
    now: Timestamp,
)
    requires
        forall|i: int| 0 <= i < resources@.len() ==> resource_wf(#[trigger] resources@[i]),
    ensures
        final(npc_orders)@.len() == old(npc_orders)@.len() + npc_spec(resources@).len(),
        final(npc_orders)@.subrange(0, old(npc_orders)@.len() as int) == old(npc_orders)@,
        forall|k: int|
            0 <= k < npc_spec(resources@).len() ==> same_order_terms(
                #[trigger] final(npc_orders)@[old(npc_orders)@.len() + k],
                npc_spec(resources@)[k],
            ),
        final(sell_orders)@ == old(sell_orders)@ + final(npc_orders)@.subrange(
            old(npc_orders)@.len() as int,
            final(npc_orders)@.len() as int,
        ),
        forall|k: int|
            0 <= k < npc_spec(resources@).len() ==> order_wf(
                #[trigger] final(npc_orders)@[old(npc_orders)@.len() + k],
            ),
        forall|k: int|
            0 <= k < npc_spec(resources@).len() ==> (#[trigger] final(npc_orders)@[old(
                npc_orders,
            )@.len() + k]).created_at == now,
{
    let ghost n0 = npc_orders@.len();
    let mut i: usize = 0;
    while i < resources.len()
        invariant
            i <= resources@.len(),
            forall|k: int| 0 <= k < resources@.len() ==> resource_wf(#[trigger] resources@[k]),
            npc_orders@.len() == n0 + npc_spec(resources@.take(i as int)).len(),
            npc_orders@.subrange(0, n0 as int) == old(npc_orders)@,
            forall|k: int|
                0 <= k < npc_spec(resources@.take(i as int)).len() ==> same_order_terms(
                    #[trigger] npc_orders@[n0 + k],
                    npc_spec(resources@.take(i as int))[k],
                ),
            forall|k: int|
                0 <= k < npc_spec(resources@.take(i as int)).len() ==> order_wf(
                    #[trigger] npc_orders@[n0 + k],
                ),
            forall|k: int|
                0 <= k < npc_spec(resources@.take(i as int)).len() ==> (
                #[trigger] npc_orders@[n0 + k]).created_at == now,
            sell_orders@ == old(sell_orders)@ + npc_orders@.subrange(
                n0 as int,
                npc_orders@.len() as int,
            ),
        decreases resources@.len() - i,
    {
        proof {
            assert(resources@.take(i as int + 1).drop_last() =~= resources@.take(i as int));
            assert(resources@.take(i as int + 1).last() == resources@[i as int]);
        }
        let r = &resources[i];
        if r.category == ResourceCategory::RawMaterial && !r.spawn_rate.is_zero() {
            proof {
                assert(resource_wf(resources@[i as int]));
            }
            let floor_price = PricingEngine::npc_floor_price(r.base_price);
            let npc_order = TradeOrder {
                id: fresh_id(),
                player_id: NIL_ID,
                company_id: NIL_ID,
                resource_id: r.id,
                order_type: OrderType::Sell,
                price: floor_price,
                quantity: r.spawn_rate,
                original_quantity: r.spawn_rate,
                status: OrderStatus::Open,
                created_at: now,
            };
            npc_orders.push(npc_order);
            sell_orders.push(npc_order);
        }
        i = i + 1;
        proof {
            let cur = npc_spec(resources@.take(i as int));
            assert(npc_orders@.subrange(0, n0 as int) =~= old(npc_orders)@);
            assert(sell_orders@ =~= old(sell_orders)@ + npc_orders@.subrange(
                n0 as int,
                npc_orders@.len() as int,
            ));
        }
    }
    proof {
        assert(resources@.take(resources@.len() as int) =~= resources@);
    }
}

/// The position of the first resource with identifier `id`.
fn resource_position(resources: &[Resource], id: u128) -> (r: Option<usize>)
    ensures
        r matches Some(k) ==> find_resource(resources@, id, 0) == Some(k as int) && k
            < resources@.len(),
        r is None ==> find_resource(resources@, id, 0) is None,
{
    let mut k: usize = 0;
    while k < resources.len()
        invariant
            k <= resources@.len(),
            find_resource(resources@, id, 0) == find_resource(resources@, id, k as int),
        decreases resources@.len() - k,
    {
        if resources[k].id == id {
            return Some(k);
        }
        k = k + 1;
    }
    None
}

/// Phase 3, continued: NPC sellers flood every market above its ceiling.
fn flood_markets(
    markets: &[Market],
    resources: &[Resource],
    sell_orders: &mut Vec<TradeOrder>,
    npc_orders: &mut Vec<TradeOrder>,
    now: Timestamp,
)
    requires
        forall|i: int| 0 <= i < resources@.len() ==> resource_wf(#[trigger] resources@[i]),
        forall|i: int| 0 <= i < markets@.len() ==> market_wf(#[trigger] markets@[i]),
    ensures
        final(npc_orders)@.len() == old(npc_orders)@.len() + flood_spec(markets@, resources@).len(),
        final(npc_orders)@.subrange(0, old(npc_orders)@.len() as int) == old(npc_orders)@,
        forall|k: int|
            0 <= k < flood_spec(markets@, resources@).len() ==> same_order_terms(
                #[trigger] final(npc_orders)@[old(npc_orders)@.len() + k],
                flood_spec(markets@, resources@)[k],
            ),
        final(sell_orders)@ == old(sell_orders)@ + final(npc_orders)@.subrange(
            old(npc_orders)@.len() as int,
            final(npc_orders)@.len() as int,
        ),
        forall|k: int|
            0 <= k < flood_spec(markets@, resources@).len() ==> order_wf(
                #[trigger] final(npc_orders)@[old(npc_orders)@.len() + k],
            ),
        forall|k: int|
            0 <= k < flood_spec(markets@, resources@).len() ==> (#[trigger] final(npc_orders)@[old(
                npc_orders,
            )@.len() + k]).created_at == now,
{
    let ghost n0 = npc_orders@.len();
    let mut i: usize = 0;
    while i < markets.len()
        invariant
            i <= markets@.len(),
            forall|k: int| 0 <= k < resources@.len() ==> resource_wf(#[trigger] resources@[k]),
            forall|k: int| 0 <= k < markets@.len() ==> market_wf(#[trigger] markets@[k]),
            npc_orders@.len() == n0 + flood_spec(markets@.take(i as int), resources@).len(),
            npc_orders@.subrange(0, n0 as int) == old(npc_orders)@,
            forall|k: int|
                0 <= k < flood_spec(markets@.take(i as int), resources@).len() ==> same_order_terms(
                    #[trigger] npc_orders@[n0 + k],
                    flood_spec(markets@.take(i as int), resources@)[k],
                ),
            forall|k: int|
                0 <= k < flood_spec(markets@.take(i as int), resources@).len() ==> order_wf(
                    #[trigger] npc_orders@[n0 + k],
                ),
            forall|k: int|
                0 <= k < flood_spec(markets@.take(i as int), resources@).len() ==> (
                #[trigger] npc_orders@[n0 + k]).created_at == now,
            sell_orders@ == old(sell_orders)@ + npc_orders@.subrange(
                n0 as int,
                npc_orders@.len() as int,
            ),
        decreases markets@.len() - i,
    {
        proof {
            assert(markets@.take(i as int + 1).drop_last() =~= markets@.take(i as int));
            assert(markets@.take(i as int + 1).last() == markets@[i as int]);
        }
        let m = &markets[i];
        proof {
            assert(market_wf(markets@[i as int]));
        }
        match resource_position(resources, m.resource_id) {
            Some(k) => {
                let r = &resources[k];
                proof {
                    assert(resource_wf(resources@[k as int]));
                    lemma_pow10_values();
                }
                let five = Decimal { mantissa: 50, scale: 1 };
                if crate::engine::limits::product_within_range(&r.base_price, &five) {
                    let ceiling = PricingEngine::npc_ceiling_price(r.base_price);
                    if ceiling.lt(&m.last_price) {
                        let quantity = if m.total_demand.mantissa > 0 {
                            m.total_demand
                        } else {
                            Decimal { mantissa: 1, scale: 0 }
                        };
                        let npc_order = TradeOrder {
                            id: fresh_id(),
                            player_id: NIL_ID,
                            company_id: NIL_ID,
                            resource_id: m.resource_id,
                            order_type: OrderType::Sell,
                            price: ceiling,
                            quantity,
                            original_quantity: quantity,
                            status: OrderStatus::Open,
                            created_at: now,
                        };
                        npc_orders.push(npc_order);
                        sell_orders.push(npc_order);
                    }
                }
            },
            None => {},
        }
        i = i + 1;
        proof {
            assert(npc_orders@.subrange(0, n0 as int) =~= old(npc_orders)@);
            assert(sell_orders@ =~= old(sell_orders)@ + npc_orders@.subrange(
                n0 as int,
                npc_orders@.len() as int,
            ));
        }
    }
    proof {
        assert(markets@.take(markets@.len() as int) =~= markets@);
    }
}

/// Phase 6: takes the stale orders off `orders` and records their
/// identifiers.
fn decay_stale(orders: &mut Vec<TradeOrder>, now: Timestamp, cancelled: &mut Vec<u128>)
    ensures
        final(orders)@ == kept(old(orders)@, now),
        final(cancelled)@ == old(cancelled)@ + stale_ids(old(orders)@, now),
{
    let mut keep: Vec<TradeOrder> = Vec::new();
    let ghost c0 = cancelled@;
    let mut i: usize = 0;
    while i < orders.len()
        invariant
            i <= orders@.len(),
            orders@ == old(orders)@,
            keep@ == kept(orders@.take(i as int), now),
            cancelled@ == c0 + stale_ids(orders@.take(i as int), now),
        decreases orders@.len() - i,
    {
        proof {
            assert(orders@.take(i as int + 1).drop_last() =~= orders@.take(i as int));
            assert(orders@.take(i as int + 1).last() == orders@[i as int]);
        }
        let o = orders[i];
        if (o.created_at.secs as i128) + (ORDER_LIFETIME_SECS as i128) < (now.secs as i128) {
            cancelled.push(o.id);
        } else {
            keep.push(o);
        }
        i = i + 1;
        proof {
            assert(cancelled@ =~= c0 + stale_ids(orders@.take(i as int), now));
        }
    }
    proof {
        assert(orders@.take(orders@.len() as int) =~= orders@);
    }
    *orders = keep;
}

/// The open orders of `orders` for resource `rid`.
fn open_orders_for(orders: &Vec<TradeOrder>, rid: u128) -> (r: Vec<TradeOrder>)
    ensures
        r@ == open_for(orders@, rid),
{
    let mut r: Vec<TradeOrder> = Vec::new();
    let mut i: usize = 0;
    while i < orders.len()
        invariant
            i <= orders@.len(),
            r@ == open_for(orders@.take(i as int), rid),
        decreases orders@.len() - i,
    {
        proof {
            assert(orders@.take(i as int + 1).drop_last() =~= orders@.take(i as int));
            assert(orders@.take(i as int + 1).last() == orders@[i as int]);
        }
        if orders[i].resource_id == rid && orders[i].status == OrderStatus::Open {
            r.push(orders[i]);
        }
        i = i + 1;
    }
    proof {
        assert(orders@.take(orders@.len() as int) =~= orders@);
    }
    r
}

/// The traded volume of the fills, when summing it never overflows.
fn traded_volume(fills: &Vec<Transaction>) -> (r: Option<Decimal>)
    requires
        forall|i: int| 0 <= i < fills@.len() ==> fill_wf(#[trigger] fills@[i]),
    ensures
        r is Some <==> volume_ok(fills@),
        r matches Some(v) ==> v == fills_volume(fills@) && wf(v),
{
    let mut sum = Decimal::zero();
    let mut i: usize = 0;
    while i < fills.len()
        invariant
            i <= fills@.len(),
            forall|k: int| 0 <= k < fills@.len() ==> fill_wf(#[trigger] fills@[k]),
            sum == fills_volume(fills@.take(i as int)),
            wf(sum),
            volume_ok(fills@.take(i as int)),
        decreases fills@.len() - i,
    {
        let ghost p = fills@.take(i as int + 1);
        proof {
            assert(p.drop_last() =~= fills@.take(i as int));
            assert(p.last() == fills@[i as int]);
            assert(fill_wf(fills@[i as int]));
        }
        let q = fills[i].quantity;
        if !crate::engine::limits::is_within(&sum, 19807040628566084398385987584)
            || !crate::engine::limits::is_within(&q, 19807040628566084398385987584) {
            proof {
                if volume_ok(fills@) {
                    lemma_volume_ok_prefix(fills@, i as int + 1);
                }
            }
            return None;
        }
        proof {
            lemma_pow10_values();
        }
        sum = sum.add(&q);
        i = i + 1;
    }
    proof {
        assert(fills@.take(fills@.len() as int) =~= fills@);
    }
    Some(sum)
}

proof fn lemma_volume_ok_prefix(f: Seq<Transaction>, k: int)
    requires
        0 <= k <= f.len(),
        volume_ok(f),
    ensures
        volume_ok(f.take(k)),
    decreases f.len(),
{
    if k == f.len() {
        assert(f.take(k) =~= f);
    } else {
        lemma_volume_ok_prefix(f.drop_last(), k);
        assert(f.drop_last().take(k) =~= f.take(k));
    }
}

proof fn lemma_remaining_ok_prefix(s: Seq<TradeOrder>, k: int)
    requires
        0 <= k <= s.len(),
        remaining_ok(s),
    ensures
        remaining_ok(s.take(k)),
    decreases s.len(),
{
    if k == s.len() {
        assert(s.take(k) =~= s);
    } else {
        lemma_remaining_ok_prefix(s.drop_last(), k);
        assert(s.drop_last().take(k) =~= s.take(k));
    }
}

/// The quantity left on the open and partially filled orders, when summing
/// it never overflows.
fn remaining_quantity(orders: &Vec<TradeOrder>) -> (r: Option<Decimal>)
    requires
        forall|i: int| 0 <= i < orders@.len() ==> order_wf(#[trigger] orders@[i]),
    ensures
        r is Some <==> remaining_ok(orders@),
        r matches Some(v) ==> v == remaining_spec(orders@) && wf(v),
{
    let mut sum = Decimal::zero();
    let mut i: usize = 0;
    while i < orders.len()
        invariant
            i <= orders@.len(),
            forall|k: int| 0 <= k < orders@.len() ==> order_wf(#[trigger] orders@[k]),
            sum == remaining_spec(orders@.take(i as int)),
            wf(sum),
            remaining_ok(orders@.take(i as int)),
        decreases orders@.len() - i,
    {
        let ghost p = orders@.take(i as int + 1);
        proof {
            assert(p.drop_last() =~= orders@.take(i as int));
            assert(p.last() == orders@[i as int]);
            assert(order_wf(orders@[i as int]));
        }
        if orders[i].status == OrderStatus::Open || orders[i].status == OrderStatus::PartiallyFilled {
            let q = orders[i].quantity;
            if !crate::engine::limits::is_within(&sum, 19807040628566084398385987584)
                || !crate::engine::limits::is_within(&q, 19807040628566084398385987584) {
                proof {
                    if remaining_ok(orders@) {
                        lemma_remaining_ok_prefix(orders@, i as int + 1);
                    }
                }
                return None;
            }
            proof {
                lemma_pow10_values();
            }
            sum = sum.add(&q);
        }
        i = i + 1;
    }
    proof {
        assert(orders@.take(orders@.len() as int) =~= orders@);
    }
    Some(sum)
}

/// An empty matching result.
fn no_match() -> (r: MatchResult)
    ensures
        r.transactions@.len() == 0,
        r.updated_orders@.len() == 0,
        r.last_price is None,
{
    MatchResult { transactions: Vec::new(), updated_orders: Vec::new(), last_price: None }
}

/// A matching result records no trade.
pub open spec fn empty_result(r: MatchResult) -> bool {
    r.transactions@.len() == 0 && r.updated_orders@.len() == 0 && r.last_price is None
}

/// A snapshot of market `m` at `now`.
fn snapshot_of(m: &Market, now: Timestamp) -> (r: MarketSnapshot)
    ensures
        r.resource_id == m.resource_id,
        r.price == m.last_price,
        r.volume == m.total_volume,
        r.supply == m.total_supply,
        r.demand == m.total_demand,
        r.recorded_at == now,
{
    MarketSnapshot {
        id: fresh_id(),
        resource_id: m.resource_id,
        price: m.last_price,
        volume: m.total_volume,
        supply: m.total_supply,
        demand: m.total_demand,
        recorded_at: now,
    }
}

/// Phase 4 and 5 for one market.  A market that cannot be matched and
/// updated without overflow is left as it is, with no trade.
#[verifier::spinoff_prover]
#[verifier::rlimit(50)]
fn run_market(
    market: &mut Market,
    buy_orders: &Vec<TradeOrder>,
    sell_orders: &Vec<TradeOrder>,
    treasury: &mut Vec<(u128, Decimal)>,
    inventory: &mut Vec<(u128, u128, Decimal)>,
    now: Timestamp,
) -> (r: (MatchResult, MarketSnapshot, bool))
    requires
        market_wf(*old(market)),
        book_wf(buy_orders@, sell_orders@),
    ensures
        ({
            let mm = market_match(*old(market), buy_orders@, sell_orders@);
            let rid = old(market).resource_id;
            if market_ok(*old(market), buy_orders@, sell_orders@) {
                &&& *final(market) == (Market {
                    updated_at: now,
                    ..market_after(*old(market), buy_orders@, sell_orders@)
                })
                &&& final(treasury)@ == old(treasury)@ + trade_payments(
                    mm.2,
                    open_for(buy_orders@, rid),
                    open_for(sell_orders@, rid),
                )
                &&& final(inventory)@ == old(inventory)@ + trade_receipts(
                    mm.2,
                    open_for(buy_orders@, rid),
                )
                &&& result_matches(r.0, mm)
            } else {
                &&& *final(market) == *old(market)
                &&& final(treasury)@ == old(treasury)@
                &&& final(inventory)@ == old(inventory)@
                &&& empty_result(r.0)
            }
        }),
        r.2 == market_ok(*old(market), buy_orders@, sell_orders@),
        r.1.resource_id == old(market).resource_id,
        r.1.recorded_at == now,
        r.1.price == final(market).last_price,
        r.1.volume == final(market).total_volume,
        r.1.supply == final(market).total_supply,
        r.1.demand == final(market).total_demand,
        market_wf(*final(market)),
{
    let rid = market.resource_id;
    let mut res_buys = open_orders_for(buy_orders, rid);
    let mut res_sells = open_orders_for(sell_orders, rid);
    proof {
        lemma_open_books_wf(buy_orders@, sell_orders@, rid);
    }
    let ghost ob = res_buys@;
    let ghost os = res_sells@;
    let ghost mm = match_spec(ob, os);
    let book_buys = open_orders_for(buy_orders, rid);
    let book_sells = open_orders_for(sell_orders, rid);
    let result = match MatchingEngine::try_match(&mut res_buys, &mut res_sells) {
        Some(res) => res,
        None => {
            let snap = snapshot_of(market, now);
            return (no_match(), snap, false);
        },
    };
    proof {
        lemma_volume_agrees(result.transactions@, mm.2, ob, os);
    }
    let volume = match traded_volume(&result.transactions) {
        Some(v) => v,
        None => {
            proof {
                lemma_volume_ok_agrees(result.transactions@, mm.2);
            }
            let snap = snapshot_of(market, now);
            return (no_match(), snap, false);
        },
    };
    proof {
        lemma_volume_ok_agrees(result.transactions@, mm.2);
    }
    match result.last_price {
        Some(p) => {
            if !crate::engine::limits::is_within(&p, 19807040628566084398385987584)
                || !crate::engine::limits::is_within(&market.ema_price, 19807040628566084398385987584)
                || !crate::engine::limits::is_within(&market.total_volume, 19807040628566084398385987584)
                || !crate::engine::limits::is_within(&volume, 19807040628566084398385987584) {
                let snap = snapshot_of(market, now);
                return (no_match(), snap, false);
            }
        },
        None => {},
    }
    let supply = match remaining_quantity(&res_sells) {
        Some(x) => x,
        None => {
            let snap = snapshot_of(market, now);
            return (no_match(), snap, false);
        },
    };
    let demand = match remaining_quantity(&res_buys) {
        Some(x) => x,
        None => {
            let snap = snapshot_of(market, now);
            return (no_match(), snap, false);
        },
    };
    proof {
        assert(market_ok(*old(market), buy_orders@, sell_orders@));
        lemma_pow10_values();
    }
    match result.last_price {
        Some(last_price) => {
            PricingEngine::update_ema(market, last_price);
            market.total_volume = market.total_volume.add(&volume);
        },
        None => {},
    }
    PricingEngine::recalculate_supply_demand(market, supply, demand);
    market.updated_at = now;
    let ghost t0 = treasury@;
    let ghost i0 = inventory@;
    let mut k: usize = 0;
    while k < result.transactions.len()
        invariant
            k <= result.transactions@.len(),
            book_buys@ == ob,
            book_sells@ == os,
            treasury@ == t0 + trade_payments(result.transactions@.take(k as int), ob, os),
            inventory@ == i0 + trade_receipts(result.transactions@.take(k as int), ob),
            forall|j: int|
                0 <= j < result.transactions@.len() ==> fill_wf(#[trigger] result.transactions@[j]),
        decreases result.transactions@.len() - k,
    {
        proof {
            assert(result.transactions@.take(k as int + 1).drop_last() =~= result.transactions@.take(
                k as int,
            ));
            assert(result.transactions@.take(k as int + 1).last() == result.transactions@[k as int]);
            assert(fill_wf(result.transactions@[k as int]));
        }
        let txn = result.transactions[k];
        let buyer = company_of_order(&book_buys, txn.buy_order_id);
        let seller = company_of_order(&book_sells, txn.sell_order_id);
        // The buyer's company pays, the seller's company receives.
        treasury.push((buyer, txn.total_value.neg()));
        treasury.push((seller, txn.total_value));
        // The buyer's company receives the resource (the seller's was set
        // aside with the order).
        inventory.push((buyer, txn.resource_id, txn.quantity));
        k = k + 1;
        proof {
            assert(treasury@ =~= t0 + trade_payments(result.transactions@.take(k as int), ob, os));
            assert(inventory@ =~= i0 + trade_receipts(result.transactions@.take(k as int), ob));
        }
    }
    proof {
        assert(result.transactions@.take(result.transactions@.len() as int) =~= result.transactions@);
    }
    let snapshot = snapshot_of(market, now);
    (result, snapshot, true)
}

/// Fills recording the same trades agree on whether their volume can be
/// summed.
proof fn lemma_volume_ok_agrees(t: Seq<Transaction>, u: Seq<Transaction>)
    requires
        t.len() == u.len(),
        forall|i: int| 0 <= i < t.len() ==> same_trade(#[trigger] t[i], u[i]),
    ensures
        volume_ok(t) == volume_ok(u),
        fills_volume(t) == fills_volume(u),
    decreases t.len(),
{
    if t.len() > 0 {
        assert(same_trade(t[t.len() - 1], u[u.len() - 1]));
        lemma_volume_ok_agrees(t.drop_last(), u.drop_last());
    }
}

/// The inputs of a tick are representable and production can advance: every
/// running job can be ticked, and the amounts of every resource, market and
/// order are representable decimals.
pub open spec fn tick_inputs_ok(
    jobs: Seq<ProductionJob>,
    recipes: Seq<Recipe>,
    resources: Seq<Resource>,
    markets: Seq<Market>,
    buys: Seq<TradeOrder>,
    sells: Seq<TradeOrder>,
) -> bool {
    &&& jobs_tickable(jobs, recipes)
    &&& forall|i: int| 0 <= i < resources.len() ==> resource_wf(#[trigger] resources[i])
    &&& forall|i: int| 0 <= i < markets.len() ==> market_wf(#[trigger] markets[i])
    &&& book_wf(buys, sells)
}

/// What one tick at `now` does: production advances, wages are paid, the NPC
/// orders (raw-material spawns at the floor, then floods of the markets above
/// their ceiling) join the sell side, every market that can be updated
/// without overflow is matched against the same book, the open orders of its
/// resource, and updated from its fills (the others are left as they are and
/// reported), and at last the orders placed more than a day before `now`
/// decay.
pub open spec fn ticked(
    companies: Seq<Company>,
    jobs_before: Seq<ProductionJob>,
    jobs_after: Seq<ProductionJob>,
    recipes: Seq<Recipe>,
    resources: Seq<Resource>,
    markets_before: Seq<Market>,
    markets_after: Seq<Market>,
    buys_before: Seq<TradeOrder>,
    buys_after: Seq<TradeOrder>,
    sells_before: Seq<TradeOrder>,
    sells_after: Seq<TradeOrder>,
    now: Timestamp,
    r: TickEffects,
) -> bool {
    let a = advance_spec(jobs_before, recipes);
    let b = buys_before;
    let ms = markets_before;
    let npc = npc_all(ms, resources);
    let s = sells_before + r.npc_orders@;
    &&& jobs_after == a.0
    &&& r.updated_jobs@ == a.1
    &&& r.npc_orders@.len() == npc.len()
    &&& forall|k: int|
        0 <= k < npc.len() ==> same_order_terms(#[trigger] r.npc_orders@[k], npc[k])
            && r.npc_orders@[k].created_at == now
    &&& buys_after == kept(b, now)
    &&& sells_after == kept(s, now)
    &&& r.decayed_orders@ == stale_ids(b, now) + stale_ids(s, now)
    &&& r.treasury_deltas@ == wages_spec(companies) + markets_payments(ms, b, s)
    &&& r.inventory_deltas@ == a.2 + markets_receipts(ms, b, s)
    &&& r.overflowed_markets@ == overflowed(ms, b, s)
    &&& markets_after.len() == ms.len()
    &&& forall|i: int|
        0 <= i < ms.len() ==> #[trigger] markets_after[i] == if market_ok(ms[i], b, s) {
            Market { updated_at: now, ..market_after(ms[i], b, s) }
        } else {
            ms[i]
        }
    &&& r.updated_markets@ == markets_after
    &&& r.match_results@.len() == ms.len()
    &&& forall|i: int|
        0 <= i < ms.len() ==> (#[trigger] r.match_results@[i]).0 == ms[i].resource_id && if market_ok(
            ms[i],
            b,
            s,
        ) {
            result_matches(r.match_results@[i].1, market_match(ms[i], b, s))
        } else {
            empty_result(r.match_results@[i].1)
        }
    &&& r.snapshots@.len() == ms.len()
    &&& forall|i: int|
        0 <= i < ms.len() ==> {
            let snap = #[trigger] r.snapshots@[i];
            let m = markets_after[i];
            &&& snap.resource_id == ms[i].resource_id
            &&& snap.price == m.last_price
            &&& snap.volume == m.total_volume
            &&& snap.supply == m.total_supply
            &&& snap.demand == m.total_demand
            &&& snap.recorded_at == now
        }
}

impl EconomicEngine {
    pub fn new() -> (r: Self)
        ensures
            r.tick_count == 0,
    {
        EconomicEngine { tick_count: 0 }
    }

    /// Executes one full simulation tick at `now` and returns its effects.
    ///
    /// The NPC orders are appended to `sell_orders`; every market is matched
    /// against the same book, the open orders of its resource, unless its
    /// amounts would overflow (it is then left as it is and reported); at the
    /// end the orders placed more than a day before `now` are taken off both
    /// sides.
    pub fn tick(
        &mut self,
        companies: &[Company],
        jobs: &mut [ProductionJob],
        recipes: &[Recipe],
        resources: &[Resource],
        markets: &mut [Market],
        buy_orders: &mut Vec<TradeOrder>,
        sell_orders: &mut Vec<TradeOrder>,
        now: Timestamp,
    ) -> (r: TickEffects)
        requires
            old(self).tick_count < u64::MAX,
            tick_inputs_ok(
                old(jobs)@,
                recipes@,
                resources@,
                old(markets)@,
                old(buy_orders)@,
                old(sell_orders)@,
            ),
        ensures
            final(self).tick_count == old(self).tick_count + 1,
            r.new_companies@.len() == 0,
            r.updated_companies@.len() == 0,
            r.new_jobs@.len() == 0,
            r.new_orders@.len() == 0,
            r.cancelled_orders@.len() == 0,
            ticked(
                companies@,
                old(jobs)@,
                final(jobs)@,
                recipes@,
                resources@,
                old(markets)@,
                final(markets)@,
                old(buy_orders)@,
                final(buy_orders)@,
                old(sell_orders)@,
                final(sell_orders)@,
                now,
                r,
            ),
    {
        self.tick_count = self.tick_count + 1;
        let mut effects = TickEffects::empty();
        // Phase 1: advance production.
        advance_jobs(jobs, recipes, &mut effects.updated_jobs, &mut effects.inventory_deltas);
        // Phase 2: pay wages.
        pay_wages(companies, &mut effects.treasury_deltas);
        // Phase 3: NPC supply of raw materials, at the price floor.  Markets
        // never dry up completely, while player production stays the main
        // source of supply.  Above five times its base price, a market is
        // flooded with NPC supply at the ceiling.
        let ghost s0 = sell_orders@;
        spawn_npc_orders(resources, sell_orders, &mut effects.npc_orders, now);
        let ghost npc1 = effects.npc_orders@;
        let ghost n1 = effects.npc_orders@.len();
        flood_markets(markets, resources, sell_orders, &mut effects.npc_orders, now);
        proof {
            let npc = effects.npc_orders@;
            assert(npc1.subrange(0, npc1.len() as int) =~= npc1);
            assert(npc =~= npc.subrange(0, n1 as int) + npc.subrange(n1 as int, npc.len() as int));
            assert(sell_orders@ =~= s0 + npc);
            lemma_npc_orders(effects.npc_orders@, npc1, markets@, resources@, now);
            assert forall|i: int| 0 <= i < sell_orders@.len() implies order_wf(
                #[trigger] sell_orders@[i],
            ) by {
                if i >= s0.len() {
                    assert(sell_orders@[i] == npc[i - s0.len()]);
                } else {
                    assert(sell_orders@[i] == s0[i]);
                }
            }
        }
        // Phase 4 and 5: match every market and record its snapshot.
        let ghost ms = markets@;
        let ghost jobs_done = effects.updated_jobs@;
        let ghost npc_done = effects.npc_orders@;
        let ghost w0 = effects.treasury_deltas@;
        let ghost d0 = effects.inventory_deltas@;
        let mut i: usize = 0;
        while i < markets.len()
            invariant
                i <= markets@.len(),
                markets@.len() == ms.len(),
                effects.new_companies@.len() == 0,
                effects.updated_companies@.len() == 0,
                effects.new_jobs@.len() == 0,
                effects.new_orders@.len() == 0,
                effects.cancelled_orders@.len() == 0,
                effects.decayed_orders@.len() == 0,
                effects.updated_jobs@ == jobs_done,
                effects.npc_orders@ == npc_done,
                forall|k: int| 0 <= k < ms.len() ==> market_wf(#[trigger] ms[k]),
                book_wf(buy_orders@, sell_orders@),
                forall|k: int| i <= k < ms.len() ==> #[trigger] markets@[k] == ms[k],
                forall|k: int|
                    0 <= k < i ==> #[trigger] markets@[k] == if market_ok(
                        ms[k],
                        buy_orders@,
                        sell_orders@,
                    ) {
                        Market { updated_at: now, ..market_after(ms[k], buy_orders@, sell_orders@) }
                    } else {
                        ms[k]
                    },
                effects.updated_markets@ == markets@.take(i as int),
                effects.treasury_deltas@ == w0 + markets_payments(
                    ms.take(i as int),
                    buy_orders@,
                    sell_orders@,
                ),
                effects.inventory_deltas@ == d0 + markets_receipts(
                    ms.take(i as int),
                    buy_orders@,
                    sell_orders@,
                ),
                effects.overflowed_markets@ == overflowed(ms.take(i as int), buy_orders@, sell_orders@),
                effects.match_results@.len() == i,
                forall|k: int|
                    0 <= k < i ==> (#[trigger] effects.match_results@[k]).0 == ms[k].resource_id
                        && if market_ok(ms[k], buy_orders@, sell_orders@) {
                        result_matches(
                            effects.match_results@[k].1,
                            market_match(ms[k], buy_orders@, sell_orders@),
                        )
                    } else {
                        empty_result(effects.match_results@[k].1)
                    },
                effects.snapshots@.len() == i,
                forall|k: int|
                    0 <= k < i ==> {
                        let snap = #[trigger] effects.snapshots@[k];
                        let m = markets@[k];
                        &&& snap.resource_id == ms[k].resource_id
                        &&& snap.price == m.last_price
                        &&& snap.volume == m.total_volume
                        &&& snap.supply == m.total_supply
                        &&& snap.demand == m.total_demand
                        &&& snap.recorded_at == now
                    },
            decreases markets@.len() - i,
        {
            let mut market = markets[i];
            proof {
                assert(market == ms[i as int]);
                assert(ms.take(i as int + 1).drop_last() =~= ms.take(i as int));
                assert(ms.take(i as int + 1).last() == ms[i as int]);
                assert(market_wf(ms[i as int]));
            }
            let rid = market.resource_id;
            let (result, snapshot, ok) = run_market(
                &mut market,
                buy_orders,
                sell_orders,
                &mut effects.treasury_deltas,
                &mut effects.inventory_deltas,
                now,
            );
            if !ok {
                effects.overflowed_markets.push(rid);
            }
            markets.set(i, market);
            effects.updated_markets.push(market);
            effects.match_results.push((rid, result));
            effects.snapshots.push(snapshot);
            i = i + 1;
            proof {
                assert(effects.updated_markets@ =~= markets@.take(i as int));
                assert(effects.treasury_deltas@ =~= w0 + markets_payments(
                    ms.take(i as int),
                    buy_orders@,
                    sell_orders@,
                ));
                assert(effects.inventory_deltas@ =~= d0 + markets_receipts(
                    ms.take(i as int),
                    buy_orders@,
                    sell_orders@,
                ));
            }
        }
        let ghost b_matched = buy_orders@;
        let ghost s_matched = sell_orders@;
        // Phase 6: orders older than a day decay.
        decay_stale(buy_orders, now, &mut effects.decayed_orders);
        decay_stale(sell_orders, now, &mut effects.decayed_orders);
        proof {
            assert(ms.take(ms.len() as int) =~= ms);
            assert(markets@.take(markets@.len() as int) =~= markets@);
            assert(effects.decayed_orders@ =~= stale_ids(b_matched, now) + stale_ids(
                s_matched,
                now,
            ));
        }
        effects
    }
}

/// The NPC orders of a tick, spawned then flooded, are the terms of
/// `npc_all` placed at `now`, each representable.
proof fn lemma_npc_orders(
    npc: Seq<TradeOrder>,
    npc1: Seq<TradeOrder>,
    markets: Seq<Market>,
    resources: Seq<Resource>,
    now: Timestamp,
)
    requires
        npc1.len() == npc_spec(resources).len(),
        forall|k: int|
            0 <= k < npc_spec(resources).len() ==> same_order_terms(
                #[trigger] npc1[0 + k],
                npc_spec(resources)[k],
            ),
        forall|k: int| 0 <= k < npc_spec(resources).len() ==> order_wf(#[trigger] npc1[0 + k]),
        forall|k: int| 0 <= k < npc_spec(resources).len() ==> (#[trigger] npc1[0 + k]).created_at == now,
        npc.len() == npc1.len() + flood_spec(markets, resources).len(),
        npc.subrange(0, npc1.len() as int) == npc1,
        forall|k: int|
            0 <= k < flood_spec(markets, resources).len() ==> same_order_terms(
                #[trigger] npc[npc1.len() + k],
                flood_spec(markets, resources)[k],
            ),
        forall|k: int|
            0 <= k < flood_spec(markets, resources).len() ==> order_wf(#[trigger] npc[npc1.len() + k]),
        forall|k: int|
            0 <= k < flood_spec(markets, resources).len() ==> (#[trigger] npc[npc1.len()
                + k]).created_at == now,
    ensures
        npc.len() == npc_all(markets, resources).len(),
        forall|k: int|
            0 <= k < npc.len() ==> {
                &&& same_order_terms(#[trigger] npc[k], npc_all(markets, resources)[k])
                &&& order_wf(npc[k])
                &&& npc[k].created_at == now
            },
{
    let n1 = npc1.len() as int;
    let all = npc_all(markets, resources);
    assert forall|k: int| 0 <= k < npc.len() implies {
        &&& same_order_terms(#[trigger] npc[k], all[k])
        &&& order_wf(npc[k])
        &&& npc[k].created_at == now
    } by {
        if k < n1 {
            assert(npc[k] == npc.subrange(0, n1)[k]);
            assert(npc1[0 + k] == npc1[k]);
            assert(all[k] == npc_spec(resources)[k]);
        } else {
            let j = k - n1;
            assert(npc[n1 + j] == npc[k]);
            assert(all[k] == flood_spec(markets, resources)[j]);
        }
    }
}

} // verus!
