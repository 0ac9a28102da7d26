//! Properties of a simulation tick.
use vstd::prelude::*;

use crate::decimal::{
    abs, lemma_add_exact, lemma_pow10_monotone, lemma_total_bounds, max_nat, max_scale, pow10,
    total_magnitude, MANTISSA_LIMIT, lemma_running_sum_exact, lemma_units_negate, one_whole, running_sum, sum_exact, total_units,
    units, wf, Decimal,
};
use crate::engine::pricing::{ema_spec, floor_factor};
use crate::decimal::mul_spec;
use crate::engine::pricing::ceiling_factor;
use crate::engine::simulation::{
    company_of, fills_volume, find_resource, flood_order_for, flood_quantity, remaining_spec, flood_spec, floods, kept, neg_spec,
    npc_order_for, npc_spec, spawns, stale, stale_ids, trade_payments, trade_receipts,
    wages_spec, open_for, order_position, advance_spec, find_recipe, job_outputs, market_after,
    market_match,
};
use crate::models::{Market, ProductionJob, ProductionStatus, Recipe, Timestamp};
use crate::engine::production::job_after_tick;
use crate::engine::matching::changed_orders;
use crate::models::{
    Company, OrderStatus, OrderType, Resource, TradeOrder, Transaction, NIL_ID, WAGE_PER_WORKER,
};

verus! {

/// The total of a sequence of treasury deltas, in units.
pub open spec fn delta_total(s: Seq<(u128, Decimal)>) -> int
    decreases s.len(),
{
    if s.len() == 0 {
        0
    } else {
        delta_total(s.drop_last()) + units(s.last().1)
    }
}

/// The total number of workers of the companies.
pub open spec fn total_workers(cs: Seq<Company>) -> int
    decreases cs.len(),
{
    if cs.len() == 0 {
        0
    } else {
        total_workers(cs.drop_last()) + cs.last().workers
    }
}

proof fn lemma_delta_total_concat(a: Seq<(u128, Decimal)>, b: Seq<(u128, Decimal)>)
    ensures
        delta_total(a + b) == delta_total(a) + delta_total(b),
    decreases b.len(),
{
    if b.len() == 0 {
        assert(a + b =~= a);
    } else {
        lemma_delta_total_concat(a, b.drop_last());
        assert((a + b).drop_last() =~= a + b.drop_last());
        assert((a + b).last() == b.last());
    }
}

/// Trading moves money and creates none: every trade debits the company of
/// its buy order and credits the company of its sell order the same value,
/// so the treasury deltas of any sequence of fills add up to zero.
pub proof fn law_trades_conserve_money(
    fills: Seq<Transaction>,
    buys: Seq<TradeOrder>,
    sells: Seq<TradeOrder>,
)
    requires
        forall|i: int| 0 <= i < fills.len() ==> wf(#[trigger] fills[i].total_value),
    ensures
        delta_total(trade_payments(fills, buys, sells)) == 0,
        trade_payments(fills, buys, sells).len() == 2 * fills.len(),
        forall|i: int|
            0 <= i < fills.len() ==> {
                &&& #[trigger] trade_payments(fills, buys, sells)[2 * i] == (
                    company_of(buys, fills[i].buy_order_id),
                    neg_spec(fills[i].total_value),
                )
                &&& trade_payments(fills, buys, sells)[2 * i + 1] == (
                    company_of(sells, fills[i].sell_order_id),
                    fills[i].total_value,
                )
            },
    decreases fills.len(),
{
    if fills.len() > 0 {
        let t = fills.last();
        assert(wf(fills[fills.len() - 1].total_value));
        law_trades_conserve_money(fills.drop_last(), buys, sells);
        let pair = seq![
            (company_of(buys, t.buy_order_id), neg_spec(t.total_value)),
            (company_of(sells, t.sell_order_id), t.total_value),
        ];
        lemma_delta_total_concat(trade_payments(fills.drop_last(), buys, sells), pair);
        lemma_units_negate(t.total_value);
        assert(pair.drop_last() =~= seq![(company_of(buys, t.buy_order_id), neg_spec(t.total_value))]);
        assert(pair.drop_last().drop_last() =~= Seq::<(u128, Decimal)>::empty());
        assert(pair.last().1 == t.total_value);
        assert(pair.drop_last().last().1 == neg_spec(t.total_value));
        let single = pair.drop_last();
        assert(delta_total(single.drop_last()) == 0);
        assert(delta_total(single) == delta_total(single.drop_last()) + units(single.last().1));
        assert(delta_total(pair.drop_last()) == units(neg_spec(t.total_value)));
        assert(delta_total(pair) == 0);
        let prev = trade_payments(fills.drop_last(), buys, sells);
        assert forall|i: int| 0 <= i < fills.len() implies {
            &&& #[trigger] trade_payments(fills, buys, sells)[2 * i] == (
                company_of(buys, fills[i].buy_order_id),
                neg_spec(fills[i].total_value),
            )
            &&& trade_payments(fills, buys, sells)[2 * i + 1] == (
                company_of(sells, fills[i].sell_order_id),
                fills[i].total_value,
            )
        } by {
            if i < fills.len() - 1 {
                assert(fills.drop_last()[i] == fills[i]);
                assert(prev[2 * i] == trade_payments(fills.drop_last(), buys, sells)[2 * i]);
            }
        }
    }
}

/// Buyers receive what was traded: one inventory delta per fill, crediting
/// the company of the fill's buy order with the fill's resource and
/// quantity.
pub proof fn law_buyers_receive_fills(fills: Seq<Transaction>, buys: Seq<TradeOrder>)
    ensures
        trade_receipts(fills, buys).len() == fills.len(),
        forall|i: int|
            0 <= i < fills.len() ==> #[trigger] trade_receipts(fills, buys)[i] == (
                company_of(buys, fills[i].buy_order_id),
                fills[i].resource_id,
                fills[i].quantity,
            ),
    decreases fills.len(),
{
    if fills.len() > 0 {
        law_buyers_receive_fills(fills.drop_last(), buys);
    }
}

/// Wages cost exactly 100 per employed worker: the wage deltas of a tick add
/// up to -100 times the workers of all companies.
pub proof fn law_wages_are_100_per_worker(cs: Seq<Company>)
    ensures
        delta_total(wages_spec(cs)) == -(WAGE_PER_WORKER * total_workers(cs)) * one_whole(),
    decreases cs.len(),
{
    crate::decimal::lemma_pow10_values();
    if cs.len() > 0 {
        law_wages_are_100_per_worker(cs.drop_last());
        let c = cs.last();
        if c.workers != 0 {
            let d = Decimal { mantissa: (-(WAGE_PER_WORKER * c.workers)) as i128, scale: 0 };
            assert(units(d) == -(WAGE_PER_WORKER * c.workers) * one_whole());
            assert(wages_spec(cs).drop_last() =~= wages_spec(cs.drop_last()));
        }
        assert(-(WAGE_PER_WORKER * total_workers(cs)) * one_whole() == -(WAGE_PER_WORKER
            * total_workers(cs.drop_last())) * one_whole() - (WAGE_PER_WORKER * c.workers)
            * one_whole()) by (nonlinear_arith)
            requires
                total_workers(cs) == total_workers(cs.drop_last()) + c.workers,
        ;
    }
}

/// NPC supply: exactly the raw materials with a non-zero spawn rate get an
/// order each, in the order of the resources, and each is an open sell order
/// of no player for the spawn rate at half the base price.
pub proof fn law_npc_orders_sell_raw_materials_at_floor(resources: Seq<Resource>)
    ensures
        forall|k: int|
            0 <= k < npc_spec(resources).len() ==> exists|i: int|
                0 <= i < resources.len() && spawns(#[trigger] resources[i])
                    && #[trigger] npc_spec(resources)[k] == npc_order_for(resources[i]),
        forall|k: int|
            0 <= k < npc_spec(resources).len() ==> {
                let o = #[trigger] npc_spec(resources)[k];
                &&& o.order_type == OrderType::Sell
                &&& o.status == OrderStatus::Open
                &&& o.player_id == NIL_ID
                &&& o.company_id == NIL_ID
                &&& o.quantity == o.original_quantity
            },
        forall|i: int|
            0 <= i < resources.len() && spawns(#[trigger] resources[i]) ==> npc_spec(
                resources,
            ).contains(npc_order_for(resources[i])),
    decreases resources.len(),
{
    if resources.len() > 0 {
        let p = resources.drop_last();
        law_npc_orders_sell_raw_materials_at_floor(p);
        let prev = npc_spec(p);
        let cur = npc_spec(resources);
        assert forall|k: int| 0 <= k < cur.len() implies exists|i: int|
            0 <= i < resources.len() && spawns(#[trigger] resources[i]) && #[trigger] cur[k]
                == npc_order_for(resources[i]) by {
            if k < prev.len() {
                assert(cur[k] == prev[k]);
                let i = choose|i: int|
                    0 <= i < p.len() && spawns(#[trigger] p[i]) && #[trigger] prev[k]
                        == npc_order_for(p[i]);
                assert(resources[i] == p[i]);
            } else {
                assert(resources[resources.len() - 1] == resources.last());
            }
        }
        assert forall|i: int| 0 <= i < resources.len() && spawns(#[trigger] resources[i]) implies cur.contains(
            npc_order_for(resources[i]),
        ) by {
            if i < p.len() {
                assert(p[i] == resources[i]);
                assert(prev.contains(npc_order_for(p[i])));
                let k = choose|k: int| 0 <= k < prev.len() && prev[k] == npc_order_for(p[i]);
                assert(cur[k] == prev[k]);
            } else {
                assert(cur[cur.len() - 1] == npc_order_for(resources.last()));
            }
        }
    }
}

/// Decay takes off exactly the stale orders: what stays is the book filtered
/// on the orders placed within a day of `now`, in order, and every order is
/// either kept or reported.
pub proof fn law_decay_removes_exactly_the_stale(s: Seq<TradeOrder>, now: Timestamp)
    ensures
        kept(s, now) == s.filter(|o: TradeOrder| !stale(o, now)),
        kept(s, now).len() + stale_ids(s, now).len() == s.len(),
    decreases s.len(),
{
    reveal_with_fuel(Seq::filter, 1);
    if s.len() > 0 {
        law_decay_removes_exactly_the_stale(s.drop_last(), now);
    }
}

/// NPC flooding: every flooding order sells, for no player, at the ceiling of
/// a market whose price exceeds five times its resource's base price, a
/// positive quantity (the market's whole demand, or one unit when none
/// stands); and every such market gets one.
pub proof fn law_floods_supply_above_the_ceiling(
    markets: Seq<Market>,
    resources: Seq<Resource>,
)
    ensures
        forall|k: int|
            0 <= k < flood_spec(markets, resources).len() ==> exists|i: int|
                0 <= i < markets.len() && floods(#[trigger] markets[i], resources)
                    && #[trigger] flood_spec(markets, resources)[k] == flood_order_for(
                    markets[i],
                    resources,
                ),
        forall|i: int|
            0 <= i < markets.len() && floods(#[trigger] markets[i], resources) ==> flood_spec(
                markets,
                resources,
            ).contains(flood_order_for(markets[i], resources)),
        forall|i: int|
            0 <= i < markets.len() && floods(#[trigger] markets[i], resources) ==> {
                let o = flood_order_for(markets[i], resources);
                let r = resources[find_resource(resources, markets[i].resource_id, 0)->0];
                &&& o.order_type == OrderType::Sell
                &&& o.status == OrderStatus::Open
                &&& o.player_id == NIL_ID
                &&& o.resource_id == markets[i].resource_id
                &&& o.price == mul_spec(r.base_price, ceiling_factor())
                &&& units(o.price) < units(markets[i].last_price)
                &&& o.quantity == flood_quantity(markets[i])
                &&& o.quantity.mantissa > 0
            },
    decreases markets.len(),
{
    if markets.len() > 0 {
        let p = markets.drop_last();
        law_floods_supply_above_the_ceiling(p, resources);
        let prev = flood_spec(p, resources);
        let cur = flood_spec(markets, resources);
        assert forall|k: int| 0 <= k < cur.len() implies exists|i: int|
            0 <= i < markets.len() && floods(#[trigger] markets[i], resources) && #[trigger] cur[k]
                == flood_order_for(markets[i], resources) by {
            if k < prev.len() {
                assert(cur[k] == prev[k]);
                let i = choose|i: int|
                    0 <= i < p.len() && floods(#[trigger] p[i], resources) && #[trigger] prev[k]
                        == flood_order_for(p[i], resources);
                assert(markets[i] == p[i]);
            } else {
                assert(markets[markets.len() - 1] == markets.last());
            }
        }
        assert forall|i: int| 0 <= i < markets.len() && floods(#[trigger] markets[i], resources) implies cur.contains(
            flood_order_for(markets[i], resources),
        ) by {
            if i < p.len() {
                assert(p[i] == markets[i]);
                assert(prev.contains(flood_order_for(p[i], resources)));
                let k = choose|k: int| 0 <= k < prev.len() && prev[k] == flood_order_for(p[i], resources);
                assert(cur[k] == prev[k]);
            } else {
                assert(cur[cur.len() - 1] == flood_order_for(markets.last(), resources));
            }
        }
    }
}

// ── Volume, supply and demand ──────────────────────────────────────────────
/// The quantities of a sequence of fills, in order.
pub open spec fn fill_quantities(fills: Seq<Transaction>) -> Seq<Decimal> {
    fills.map_values(|t: Transaction| t.quantity)
}

/// The orders of a side that still stand: open or partially filled.
pub open spec fn standing(s: Seq<TradeOrder>) -> Seq<TradeOrder> {
    s.filter(|o: TradeOrder| o.status == OrderStatus::Open || o.status == OrderStatus::PartiallyFilled)
}

/// The quantities of a sequence of orders, in order.
pub open spec fn order_quantities(s: Seq<TradeOrder>) -> Seq<Decimal> {
    s.map_values(|o: TradeOrder| o.quantity)
}

proof fn lemma_volume_runs(fills: Seq<Transaction>)
    ensures
        fills_volume(fills) == running_sum(fill_quantities(fills)),
    decreases fills.len(),
{
    if fills.len() > 0 {
        lemma_volume_runs(fills.drop_last());
        assert(fill_quantities(fills).drop_last() =~= fill_quantities(fills.drop_last()));
        assert(fill_quantities(fills).last() == fills.last().quantity);
    }
}

/// The volume that a market's fills add up to is the sum of the quantities
/// of all of them, whenever adding them up cannot round.
pub proof fn law_volume_is_the_sum_of_the_fills(fills: Seq<Transaction>)
    requires
        sum_exact(fill_quantities(fills)),
    ensures
        units(fills_volume(fills)) == total_units(fill_quantities(fills)),
{
    lemma_volume_runs(fills);
    lemma_running_sum_exact(fill_quantities(fills));
}

proof fn lemma_remaining_runs(s: Seq<TradeOrder>)
    ensures
        remaining_spec(s) == running_sum(order_quantities(standing(s))),
    decreases s.len(),
{
    reveal_with_fuel(Seq::filter, 1);
    if s.len() > 0 {
        lemma_remaining_runs(s.drop_last());
        let p = standing(s.drop_last());
        let o = s.last();
        if o.status == OrderStatus::Open || o.status == OrderStatus::PartiallyFilled {
            assert(standing(s) == p.push(o));
            assert(order_quantities(p.push(o)).drop_last() =~= order_quantities(p));
            assert(order_quantities(p.push(o)).last() == o.quantity);
        } else {
            assert(standing(s) == p);
        }
    }
}

/// The supply (or demand) left on a side after matching is the sum of the
/// quantities of every order of it that still stands, open or partially
/// filled, whenever adding them up cannot round: an order that did not
/// trade counts in full, a filled one not at all.
pub proof fn law_remaining_is_the_standing_quantity(s: Seq<TradeOrder>)
    requires
        sum_exact(order_quantities(standing(s))),
    ensures
        units(remaining_spec(s)) == total_units(order_quantities(standing(s))),
{
    lemma_remaining_runs(s);
    lemma_running_sum_exact(order_quantities(standing(s)));
}

// ── Wages, books and production, element by element ────────────────────────
/// The wage payment of one company: 100 per worker, as a whole amount
/// debited to the company.
pub open spec fn wage_of(c: Company) -> (u128, Decimal) {
    (c.id, Decimal { mantissa: (-(WAGE_PER_WORKER * c.workers)) as i128, scale: 0 })
}

/// The wage payments are one per company that employs workers, in the order
/// of the companies, each debiting that company 100 per worker; companies
/// without workers pay nothing.
pub proof fn law_wages_charge_each_employer(cs: Seq<Company>)
    ensures
        wages_spec(cs) == cs.filter(|c: Company| c.workers != 0).map_values(
            |c: Company| wage_of(c),
        ),
    decreases cs.len(),
{
    reveal_with_fuel(Seq::filter, 1);
    if cs.len() > 0 {
        law_wages_charge_each_employer(cs.drop_last());
        let p = cs.drop_last().filter(|c: Company| c.workers != 0);
        if cs.last().workers != 0 {
            assert(p.push(cs.last()).map_values(|c: Company| wage_of(c)) =~= p.map_values(
                |c: Company| wage_of(c),
            ).push(wage_of(cs.last())));
        }
    }
}

/// The open orders of a resource are the orders of the book for that
/// resource still open, in the order of the book.
pub proof fn law_open_orders_are_the_open_ones_of_the_resource(s: Seq<TradeOrder>, rid: u128)
    ensures
        open_for(s, rid) == s.filter(
            |o: TradeOrder| o.resource_id == rid && o.status == OrderStatus::Open,
        ),
    decreases s.len(),
{
    reveal_with_fuel(Seq::filter, 1);
    if s.len() > 0 {
        law_open_orders_are_the_open_ones_of_the_resource(s.drop_last(), rid);
    }
}

/// The orders that matching reports as changed are exactly those of the
/// book that are no longer open, in the order of the book.
pub proof fn law_changed_orders_are_the_ones_no_longer_open(s: Seq<TradeOrder>)
    ensures
        changed_orders(s) == s.filter(|o: TradeOrder| o.status != OrderStatus::Open),
    decreases s.len(),
{
    reveal_with_fuel(Seq::filter, 1);
    if s.len() > 0 {
        law_changed_orders_are_the_ones_no_longer_open(s.drop_last());
    }
}

proof fn lemma_order_position(book: Seq<TradeOrder>, id: u128, from: int)
    requires
        0 <= from,
    ensures
        match order_position(book, id, from) {
            Some(k) => from <= k < book.len() && book[k].id == id && forall|j: int|
                from <= j < k ==> book[j].id != id,
            None => forall|j: int| from <= j < book.len() ==> book[j].id != id,
        },
    decreases book.len() - from,
{
    if from < book.len() && book[from].id != id {
        lemma_order_position(book, id, from + 1);
    }
}

/// The company paid or credited for an order is the company of the first
/// order of the book with that identifier, and no company (the nil
/// identifier) when no order of the book has it.
pub proof fn law_company_of_is_the_first_orders(book: Seq<TradeOrder>, id: u128)
    ensures
        (forall|j: int| 0 <= j < book.len() ==> (#[trigger] book[j]).id != id) ==> company_of(
            book,
            id,
        ) == NIL_ID,
        forall|k: int|
            0 <= k < book.len() && (#[trigger] book[k]).id == id && (forall|j: int|
                0 <= j < k ==> (#[trigger] book[j]).id != id) ==> company_of(book, id)
                == book[k].company_id,
{
    lemma_order_position(book, id, 0);
    assert forall|k: int|
        0 <= k < book.len() && (#[trigger] book[k]).id == id && (forall|j: int|
            0 <= j < k ==> (#[trigger] book[j]).id != id) implies company_of(book, id)
        == book[k].company_id by {
        let m = order_position(book, id, 0)->0;
        if m < k {
            assert(book[m].id == id);
        } else if m > k {
            assert(book[k].id != id);
        }
    }
}

/// Whether production advances `job` this tick: it runs and its recipe is
/// known.
pub open spec fn advances(job: ProductionJob, recipes: Seq<Recipe>) -> bool {
    job.status == ProductionStatus::Running && find_recipe(recipes, job.recipe_id, 0) is Some
}

/// The goods that `job` hands out this tick: its recipe's outputs when this
/// tick completes it, none otherwise.
pub open spec fn goods_of(job: ProductionJob, recipes: Seq<Recipe>) -> Seq<(u128, u128, Decimal)> {
    if advances(job, recipes) && job_after_tick(job).status == ProductionStatus::Completed {
        job_outputs(job, recipes[find_recipe(recipes, job.recipe_id, 0)->0])
    } else {
        Seq::empty()
    }
}

/// Production over a list of jobs works job by job: each job that runs and
/// has a known recipe advances by one tick and is reported, every other job
/// stays as it is, and the goods handed out are those of the jobs that this
/// tick completes, in the order of the jobs.
pub proof fn law_production_advances_job_by_job(jobs: Seq<ProductionJob>, recipes: Seq<Recipe>)
    ensures
        ({
            let a = advance_spec(jobs, recipes);
            &&& a.0.len() == jobs.len()
            &&& forall|i: int|
                0 <= i < jobs.len() ==> #[trigger] a.0[i] == if advances(jobs[i], recipes) {
                    job_after_tick(jobs[i])
                } else {
                    jobs[i]
                }
            &&& a.1 == jobs.filter(|j: ProductionJob| advances(j, recipes)).map_values(
                |j: ProductionJob| job_after_tick(j),
            )
            &&& a.2 == jobs.map_values(|j: ProductionJob| goods_of(j, recipes)).flatten_alt()
        }),
    decreases jobs.len(),
{
    reveal_with_fuel(Seq::filter, 1);
    if jobs.len() > 0 {
        let p = jobs.drop_last();
        law_production_advances_job_by_job(p, recipes);
        let a = advance_spec(jobs, recipes);
        let ap = advance_spec(p, recipes);
        assert forall|i: int| 0 <= i < jobs.len() implies #[trigger] a.0[i] == if advances(
            jobs[i],
            recipes,
        ) {
            job_after_tick(jobs[i])
        } else {
            jobs[i]
        } by {
            if i < p.len() {
                assert(a.0[i] == ap.0[i]);
                assert(jobs[i] == p[i]);
            }
        }
        let fp = p.filter(|j: ProductionJob| advances(j, recipes));
        if advances(jobs.last(), recipes) {
            assert(fp.push(jobs.last()).map_values(|j: ProductionJob| job_after_tick(j))
                =~= fp.map_values(|j: ProductionJob| job_after_tick(j)).push(
                job_after_tick(jobs.last()),
            ));
        }
        let g = jobs.map_values(|j: ProductionJob| goods_of(j, recipes));
        assert(g.drop_last() =~= p.map_values(|j: ProductionJob| goods_of(j, recipes)));
        assert(g.last() == goods_of(jobs.last(), recipes));
        if !advances(jobs.last(), recipes) || job_after_tick(jobs.last()).status
            != ProductionStatus::Completed {
            assert(ap.2 + Seq::<(u128, u128, Decimal)>::empty() =~= ap.2);
        }
    }
}

proof fn lemma_find_recipe(recipes: Seq<Recipe>, id: u128, from: int)
    requires
        0 <= from,
    ensures
        match find_recipe(recipes, id, from) {
            Some(k) => from <= k < recipes.len() && recipes[k].id == id && forall|j: int|
                from <= j < k ==> recipes[j].id != id,
            None => forall|j: int| from <= j < recipes.len() ==> recipes[j].id != id,
        },
    decreases recipes.len() - from,
{
    if from < recipes.len() && recipes[from].id != id {
        lemma_find_recipe(recipes, id, from + 1);
    }
}

/// A job's recipe is the first recipe with the job's recipe identifier; a
/// job has none when no recipe carries that identifier.
pub proof fn law_recipe_is_the_first_with_its_id(recipes: Seq<Recipe>, id: u128)
    ensures
        find_recipe(recipes, id, 0) is None <==> forall|j: int|
            0 <= j < recipes.len() ==> (#[trigger] recipes[j]).id != id,
        find_recipe(recipes, id, 0) matches Some(k) ==> 0 <= k < recipes.len() && recipes[k].id
            == id && forall|j: int| 0 <= j < k ==> (#[trigger] recipes[j]).id != id,
{
    lemma_find_recipe(recipes, id, 0);
}

proof fn lemma_find_resource(resources: Seq<Resource>, id: u128, from: int)
    requires
        0 <= from,
    ensures
        match find_resource(resources, id, from) {
            Some(k) => from <= k < resources.len() && resources[k].id == id && forall|j: int|
                from <= j < k ==> resources[j].id != id,
            None => forall|j: int| from <= j < resources.len() ==> resources[j].id != id,
        },
    decreases resources.len() - from,
{
    if from < resources.len() && resources[from].id != id {
        lemma_find_resource(resources, id, from + 1);
    }
}

/// A market's resource, for its price ceiling, is the first resource with
/// the market's resource identifier; there is none when no resource carries
/// it.
pub proof fn law_resource_is_the_first_with_its_id(resources: Seq<Resource>, id: u128)
    ensures
        find_resource(resources, id, 0) is None <==> forall|j: int|
            0 <= j < resources.len() ==> (#[trigger] resources[j]).id != id,
        find_resource(resources, id, 0) matches Some(k) ==> 0 <= k < resources.len()
            && resources[k].id == id && forall|j: int|
            0 <= j < k ==> (#[trigger] resources[j]).id != id,
{
    lemma_find_resource(resources, id, 0);
}

/// A market after its matching: supply is what stands on its sell side and
/// demand what stands on its buy side; when something traded, the last price
/// is the last fill's price, the moving average moves toward it, and the
/// volume grows by all the quantities traded; when nothing traded, price,
/// average and volume stay as they were.  (The sums are stated where adding
/// up cannot round.)
pub proof fn law_market_after_its_matching(m: Market, buys: Seq<TradeOrder>, sells: Seq<TradeOrder>)
    ensures
        ({
            let mm = market_match(m, buys, sells);
            let a = market_after(m, buys, sells);
            let fq = fill_quantities(mm.2);
            &&& a.resource_id == m.resource_id
            &&& sum_exact(order_quantities(standing(mm.1))) ==> units(a.total_supply)
                == total_units(order_quantities(standing(mm.1)))
            &&& sum_exact(order_quantities(standing(mm.0))) ==> units(a.total_demand)
                == total_units(order_quantities(standing(mm.0)))
            &&& mm.2.len() == 0 ==> {
                &&& a.last_price == m.last_price
                &&& a.ema_price == m.ema_price
                &&& a.total_volume == m.total_volume
            }
            &&& mm.2.len() > 0 ==> {
                &&& a.last_price == mm.2[mm.2.len() - 1].price
                &&& a.ema_price == ema_spec(mm.2[mm.2.len() - 1].price, m.ema_price)
            }
            &&& (sum_exact(fq) && crate::decimal::wf(m.total_volume) && abs(units(m.total_volume))
                + total_magnitude(fq) <= MANTISSA_LIMIT * pow10(
                (28 - max_nat(m.total_volume.scale as nat, max_scale(fq))) as nat,
            )) ==> units(a.total_volume) == units(m.total_volume) + total_units(fq)
        }),
{
    let mm = market_match(m, buys, sells);
    let fq = fill_quantities(mm.2);
    crate::engine::matching_laws::law_last_price_is_the_last_fills(
        open_for(buys, m.resource_id),
        open_for(sells, m.resource_id),
    );
    if sum_exact(order_quantities(standing(mm.1))) {
        law_remaining_is_the_standing_quantity(mm.1);
    }
    if sum_exact(order_quantities(standing(mm.0))) {
        law_remaining_is_the_standing_quantity(mm.0);
    }
    let v = m.total_volume;
    if sum_exact(fq) && crate::decimal::wf(v) && abs(units(v)) + total_magnitude(fq) <= MANTISSA_LIMIT
        * pow10((28 - max_nat(v.scale as nat, max_scale(fq))) as nat) {
        law_volume_is_the_sum_of_the_fills(mm.2);
        lemma_volume_runs(mm.2);
        lemma_running_sum_exact(fq);
        lemma_total_bounds(fq);
        let f = fills_volume(mm.2);
        let k = pow10((28 - max_nat(v.scale as nat, f.scale as nat)) as nat);
        crate::decimal::lemma_max_scale_bound(fq);
        lemma_pow10_monotone(
            (28 - max_nat(v.scale as nat, max_scale(fq))) as nat,
            (28 - max_nat(v.scale as nat, f.scale as nat)) as nat,
        );
        assert(MANTISSA_LIMIT * pow10((28 - max_nat(v.scale as nat, max_scale(fq))) as nat)
            <= MANTISSA_LIMIT * k) by (nonlinear_arith)
            requires
                pow10((28 - max_nat(v.scale as nat, max_scale(fq))) as nat) <= k,
        ;
        lemma_add_exact(v, f);
    }
}

} // verus!
