//! Production engine: turning input resources into output resources.
//!
//! When a player starts a production job:
//!   1. the company must meet the recipe's tech level;
//!   2. the company must have enough free workers;
//!   3. the company must hold the inputs, which are deducted;
//!   4. a job is created with `ticks_remaining = ticks_required`.
//!
//! Each simulation tick decrements the running jobs' remaining ticks; when it
//! reaches zero the outputs are added to the company's inventory.
use vstd::prelude::*;

use crate::decimal::{
    abs, add_spec, lemma_running_sum_exact, mul_spec, one_whole, product_safe, running_sum,
    safe_magnitude, sum_exact, total_units, units, wf, Decimal,
};
use crate::models::{
    fresh_id, Company, Inventory, ProductionJob, ProductionStatus, Recipe, RecipeItem,
};

verus! {

pub struct ProductionEngine;

/// Why a production job cannot start.
#[derive(Debug)]
pub enum ProductionError {
    /// The company's tech level is below the recipe's.
    InsufficientTech { have: i32, need: i32 },
    /// Not enough free workers.
    InsufficientWorkers { have: i32, need: i32 },
    /// An input is not held in the needed quantity.
    InsufficientResource { slug: String, have: Decimal, need: Decimal },
}

/// What to deduct and allocate once a job has been validated.
#[derive(Debug)]
pub struct ProductionPlan {
    /// (resource, quantity to deduct) for each input of the recipe.
    pub deductions: Vec<(u128, Decimal)>,
    /// Workers taken by the job.
    pub workers_allocated: i32,
    /// The job to insert.
    pub job: ProductionJob,
}

/// The result of advancing one job by one tick.
#[derive(Debug)]
pub enum TickResult {
    /// Still running, with this many ticks left.
    InProgress(i32),
    /// Completed: these resources go to the inventory and the workers are free.
    Completed { outputs: Vec<(u128, Decimal)>, workers_freed: i32 },
    /// The job was not running: nothing happens.
    NoOp,
}

/// A job after one tick: a running job loses one tick and is completed
/// once none remain; any other job is unchanged.
pub open spec fn job_after_tick(job: ProductionJob) -> ProductionJob {
    if job.status == ProductionStatus::Running {
        let left = job.ticks_remaining - 1;
        ProductionJob {
            ticks_remaining: left as i32,
            status: if left <= 0 {
                ProductionStatus::Completed
            } else {
                ProductionStatus::Running
            },
            ..job
        }
    } else {
        job
    }
}

/// A job after `n` ticks.
pub open spec fn job_after_ticks(job: ProductionJob, n: nat) -> ProductionJob
    decreases n,
{
    if n == 0 {
        job
    } else {
        job_after_tick(job_after_ticks(job, (n - 1) as nat))
    }
}

/// A running job with `t >= 1` ticks remaining keeps running for `t - 1`
/// ticks, counting down, and is completed by exactly the `t`-th tick.
pub proof fn law_job_completes_after_its_ticks(job: ProductionJob, n: nat)
    requires
        job.status == ProductionStatus::Running,
        job.ticks_remaining >= 1,
        n <= job.ticks_remaining,
    ensures
        job_after_ticks(job, n).ticks_remaining == job.ticks_remaining - n,
        n < job.ticks_remaining ==> job_after_ticks(job, n).status == ProductionStatus::Running,
        n == job.ticks_remaining ==> job_after_ticks(job, n).status
            == ProductionStatus::Completed,
        job_after_ticks(job, n).batch_size == job.batch_size,
    decreases n,
{
    if n > 0 {
        law_job_completes_after_its_ticks(job, (n - 1) as nat);
    }
}

/// Over any sequence of ticks, a running job with `t >= 1` ticks remaining
/// turns from running to completed at exactly one of them, the `t`-th (so
/// `tick_job` hands its outputs out once), and every later tick leaves it as
/// it is.
pub proof fn law_job_outputs_once(job: ProductionJob, k: nat, m: nat)
    requires
        job.status == ProductionStatus::Running,
        job.ticks_remaining >= 1,
        k >= 1,
        m >= job.ticks_remaining,
    ensures
        (job_after_ticks(job, (k - 1) as nat).status == ProductionStatus::Running
            && job_after_ticks(job, k).status == ProductionStatus::Completed) <==> k
            == job.ticks_remaining,
        job_after_ticks(job, m) == job_after_ticks(job, job.ticks_remaining as nat),
    decreases m,
{
    let t = job.ticks_remaining as nat;
    if k <= t {
        law_job_completes_after_its_ticks(job, k);
        law_job_completes_after_its_ticks(job, (k - 1) as nat);
    } else {
        lemma_done_stays(job, (k - 1) as nat);
        lemma_done_stays(job, k);
    }
    lemma_done_stays(job, m);
}

/// Ticks compose: `n` ticks and then `m` more are `n + m` ticks, so every
/// run of successive `tick_job` calls (each giving `job_after_tick` of the
/// job it is handed) leaves a job as `job_after_ticks` of the calls made.
pub proof fn law_ticks_compose(job: ProductionJob, n: nat, m: nat)
    ensures
        job_after_ticks(job_after_ticks(job, n), m) == job_after_ticks(job, n + m),
    decreases m,
{
    if m > 0 {
        law_ticks_compose(job, n, (m - 1) as nat);
        assert((n + m - 1) as nat == n + (m - 1) as nat);
    }
}

proof fn lemma_done_stays(job: ProductionJob, m: nat)
    requires
        job.status == ProductionStatus::Running,
        job.ticks_remaining >= 1,
        m >= job.ticks_remaining,
    ensures
        job_after_ticks(job, m) == job_after_ticks(job, job.ticks_remaining as nat),
        job_after_ticks(job, m).status == ProductionStatus::Completed,
    decreases m,
{
    if m == job.ticks_remaining {
        law_job_completes_after_its_ticks(job, m);
    } else {
        lemma_done_stays(job, (m - 1) as nat);
    }
}

/// The quantity of resource `rid` held across `inv`, summed in order from
/// zero as the decimal sum does it.
pub open spec fn held_spec(inv: Seq<Inventory>, rid: u128) -> Decimal
    decreases inv.len(),
{
    if inv.len() == 0 {
        Decimal { mantissa: 0, scale: 0 }
    } else if inv.last().resource_id == rid {
        add_spec(held_spec(inv.drop_last(), rid), inv.last().quantity)
    } else {
        held_spec(inv.drop_last(), rid)
    }
}

/// Total magnitude of the quantities in `inv`, in units.
pub open spec fn inventory_mass(inv: Seq<Inventory>) -> int
    decreases inv.len(),
{
    if inv.len() == 0 {
        0
    } else {
        inventory_mass(inv.drop_last()) + abs(units(inv.last().quantity))
    }
}

/// The batch size as a decimal (`Decimal::from(batch_size)`).
pub open spec fn batch_decimal(batch_size: i32) -> Decimal {
    Decimal { mantissa: batch_size as i128, scale: 0 }
}

/// The quantity of an item that a batch of `batch_size` takes or gives.
pub open spec fn scaled_quantity(item: RecipeItem, batch_size: i32) -> Decimal {
    mul_spec(item.quantity, batch_decimal(batch_size))
}

/// Input `i` of `recipe` is held in a smaller quantity than the batch needs.
pub open spec fn input_short(recipe: Recipe, batch_size: i32, inv: Seq<Inventory>, i: int) -> bool {
    let item = recipe.inputs@[i];
    units(held_spec(inv, item.resource_id)) < units(scaled_quantity(item, batch_size))
}

/// The first input, from position `from` on, that is held short.
pub open spec fn first_short(recipe: Recipe, batch_size: i32, inv: Seq<Inventory>, from: int) -> Option<int>
    decreases recipe.inputs@.len() - from,
{
    if from < 0 || from >= recipe.inputs@.len() {
        None
    } else if input_short(recipe, batch_size, inv, from) {
        Some(from)
    } else {
        first_short(recipe, batch_size, inv, from + 1)
    }
}

/// The amounts of a recipe and an inventory are representable, and small
/// enough that scaling the recipe's items by the batch size and summing the
/// inventory stay within the decimal range.
pub open spec fn production_in_range(recipe: Recipe, batch_size: i32, inv: Seq<Inventory>) -> bool {
    &&& forall|i: int|
        0 <= i < recipe.inputs@.len() ==> {
            &&& wf(#[trigger] recipe.inputs@[i].quantity)
            &&& product_safe(recipe.inputs@[i].quantity, batch_decimal(batch_size))
        }
    &&& forall|i: int| 0 <= i < inv.len() ==> wf(#[trigger] inv[i].quantity)
    &&& inventory_mass(inv) + inv.len() * one_whole() <= safe_magnitude() * one_whole()
}

/// The deductions of a plan: each input scaled by the batch size, in order.
pub open spec fn deductions_spec(recipe: Recipe, batch_size: i32) -> Seq<(u128, Decimal)> {
    recipe.inputs@.map_values(|item: RecipeItem| (item.resource_id, scaled_quantity(item, batch_size)))
}

/// The outputs of a completed job: each output scaled by the batch size.
pub open spec fn outputs_spec(recipe: Recipe, batch_size: i32) -> Seq<(u128, Decimal)> {
    recipe.outputs@.map_values(|item: RecipeItem| (item.resource_id, scaled_quantity(item, batch_size)))
}

proof fn lemma_mass_prefix(inv: Seq<Inventory>, k: int)
    requires
        0 <= k <= inv.len(),
    ensures
        inventory_mass(inv.take(k)) <= inventory_mass(inv),
        inventory_mass(inv.take(k)) >= 0,
    decreases inv.len(),
{
    if k == inv.len() {
        assert(inv.take(k) =~= inv);
        lemma_mass_nonneg(inv);
    } else {
        lemma_mass_prefix(inv.drop_last(), k);
        assert(inv.drop_last().take(k) =~= inv.take(k));
    }
}

proof fn lemma_mass_nonneg(inv: Seq<Inventory>)
    ensures
        inventory_mass(inv) >= 0,
    decreases inv.len(),
{
    if inv.len() > 0 {
        lemma_mass_nonneg(inv.drop_last());
    }
}

/// Sums the quantities of resource `rid` held across `inv`.
pub(crate) fn held_quantity(inv: &[Inventory], rid: u128) -> (r: Decimal)
    requires
        forall|i: int| 0 <= i < inv@.len() ==> wf(#[trigger] inv@[i].quantity),
        inventory_mass(inv@) + inv@.len() * one_whole() <= safe_magnitude() * one_whole(),
    ensures
        r == held_spec(inv@, rid),
        wf(r),
{
    let mut sum = Decimal::zero();
    let mut i: usize = 0;
    while i < inv.len()
        invariant
            i <= inv@.len(),
            forall|k: int| 0 <= k < inv@.len() ==> wf(#[trigger] inv@[k].quantity),
            inventory_mass(inv@) + inv@.len() * one_whole() <= safe_magnitude() * one_whole(),
            sum == held_spec(inv@.take(i as int), rid),
            wf(sum),
            abs(units(sum)) <= inventory_mass(inv@.take(i as int)) + i * one_whole(),
        decreases inv.len() - i,
    {
        proof {
            let p = inv@.take(i as int + 1);
            assert(p.drop_last() =~= inv@.take(i as int));
            assert(p.last() == inv@[i as int]);
            lemma_mass_prefix(inv@, i as int + 1);
            crate::decimal::lemma_pow10_values();
        }
        if inv[i].resource_id == rid {
            sum = sum.add(&inv[i].quantity);
        }
        i = i + 1;
    }
    proof {
        assert(inv@.take(inv@.len() as int) =~= inv@);
    }
    sum
}

/// What planning `batch_size` runs of `recipe` for `company` gives: the
/// checks come in order (tech level, free workers, then each input in turn)
/// and the first that fails gives the error; otherwise the plan deducts each
/// input scaled by the batch, allocates the workers and starts the job.
pub open spec fn planned(
    company: Company,
    recipe: Recipe,
    batch_size: i32,
    inventories: Seq<Inventory>,
    r: Result<ProductionPlan, ProductionError>,
) -> bool {
    ({
        let needed = recipe.workers_required * batch_size;
        let available = company.worker_capacity - company.workers;
        if company.tech_level < recipe.min_tech_level {
            r matches Err(ProductionError::InsufficientTech { have, need }) && have
                == company.tech_level && need == recipe.min_tech_level
        } else if available < needed {
            r matches Err(ProductionError::InsufficientWorkers { have, need }) && have
                == available && need == needed
        } else if first_short(recipe, batch_size, inventories, 0) is Some {
            let k = first_short(recipe, batch_size, inventories, 0)->0;
            let item = recipe.inputs@[k];
            r matches Err(ProductionError::InsufficientResource { slug, have, need })
                && slug@ == item.resource_slug@ && have == held_spec(
                inventories,
                item.resource_id,
            ) && need == scaled_quantity(item, batch_size)
        } else {
            r matches Ok(plan) && plan.deductions@ == deductions_spec(recipe, batch_size)
                && plan.workers_allocated == needed && plan.job.company_id == company.id
                && plan.job.recipe_id == recipe.id && plan.job.batch_size == batch_size
                && plan.job.ticks_remaining == recipe.ticks_required && plan.job.status
                == ProductionStatus::Running
        }
    })
}

/// The amounts of a production error are well formed.
pub open spec fn error_amounts_wf(e: ProductionError) -> bool {
    match e {
        ProductionError::InsufficientResource { have, need, .. } => wf(have) && wf(need),
        _ => true,
    }
}

impl ProductionEngine {
    /// Validates and plans a new production job of `batch_size` runs.  Does
    /// not change any state: the caller applies the plan.
    ///
    /// The checks come in order: tech level, free workers, then each input in
    /// turn; the first that fails gives the error.
    pub fn plan_production(
        company: &Company,
        recipe: &Recipe,
        batch_size: i32,
        inventories: &[Inventory],
    ) -> (r: Result<ProductionPlan, ProductionError>)
        requires
            i32::MIN <= recipe.workers_required * batch_size <= i32::MAX,
            i32::MIN <= company.worker_capacity - company.workers <= i32::MAX,
            production_in_range(*recipe, batch_size, inventories@),
        ensures
            planned(*company, *recipe, batch_size, inventories@, r),
            r matches Err(e) ==> error_amounts_wf(e),
    {
        // 1. Tech level.
        if company.tech_level < recipe.min_tech_level {
            return Err(
                ProductionError::InsufficientTech {
                    have: company.tech_level,
                    need: recipe.min_tech_level,
                },
            );
        }
        // 2. Workers.

        let workers_needed = recipe.workers_required * batch_size;
        let available_workers = company.worker_capacity - company.workers;
        if available_workers < workers_needed {
            return Err(
                ProductionError::InsufficientWorkers { have: available_workers, need: workers_needed },
            );
        }
        // 3. Inputs.

        let batch = Decimal::from_i32(batch_size);
        let mut deductions: Vec<(u128, Decimal)> = Vec::new();
        let mut i: usize = 0;
        while i < recipe.inputs.len()
            invariant
                i <= recipe.inputs@.len(),
                company.tech_level >= recipe.min_tech_level,
                workers_needed == recipe.workers_required * batch_size,
                available_workers == company.worker_capacity - company.workers,
                available_workers >= workers_needed,
                production_in_range(*recipe, batch_size, inventories@),
                batch == batch_decimal(batch_size),
                first_short(*recipe, batch_size, inventories@, 0) == first_short(
                    *recipe,
                    batch_size,
                    inventories@,
                    i as int,
                ),
                deductions@ == deductions_spec(*recipe, batch_size).take(i as int),
            decreases recipe.inputs@.len() - i,
        {
            let input = &recipe.inputs[i];
            proof {
                assert(wf(recipe.inputs@[i as int].quantity));
            }
            let needed = input.quantity.mul(&batch);
            let held = held_quantity(inventories, input.resource_id);
            if held.lt(&needed) {
                proof {
                    assert(input_short(*recipe, batch_size, inventories@, i as int));
                    assert(first_short(*recipe, batch_size, inventories@, i as int) == Some(
                        i as int,
                    ));
                }
                let slug = input.resource_slug.clone();
                proof {
                    assert(slug@ == recipe.inputs@[i as int].resource_slug@);
                    assert(held == held_spec(inventories@, recipe.inputs@[i as int].resource_id));
                    assert(needed == scaled_quantity(recipe.inputs@[i as int], batch_size));
                    assert(first_short(*recipe, batch_size, inventories@, 0) == Some(i as int));
                }
                return Err(ProductionError::InsufficientResource { slug, have: held, need: needed });
            }
            deductions.push((input.resource_id, needed));
            proof {
                assert(!input_short(*recipe, batch_size, inventories@, i as int));
            }
            i = i + 1;
            proof {
                assert(deductions@ =~= deductions_spec(*recipe, batch_size).take(i as int));
            }
        }
        proof {
            assert(deductions_spec(*recipe, batch_size).take(i as int) =~= deductions_spec(
                *recipe,
                batch_size,
            ));
        }
        // 4. The job.
        let job = ProductionJob {
            id: fresh_id(),
            company_id: company.id,
            recipe_id: recipe.id,
            batch_size,
            ticks_remaining: recipe.ticks_required,
            status: ProductionStatus::Running,
        };
        Ok(ProductionPlan { deductions, workers_allocated: workers_needed, job })
    }

    /// Advances a production job by one tick.  A running job loses one tick;
    /// when none remain it is completed and yields the recipe's outputs
    /// scaled by the batch size and frees the workers it took.  Other jobs
    /// are left as they are.
    pub fn tick_job(job: &mut ProductionJob, recipe: &Recipe) -> (r: TickResult)
        requires
            old(job).status == ProductionStatus::Running ==> {
                &&& old(job).ticks_remaining > i32::MIN
                &&& i32::MIN <= recipe.workers_required * old(job).batch_size <= i32::MAX
                &&& forall|i: int|
                    0 <= i < recipe.outputs@.len() ==> {
                        &&& wf(#[trigger] recipe.outputs@[i].quantity)
                        &&& product_safe(
                            recipe.outputs@[i].quantity,
                            batch_decimal(old(job).batch_size),
                        )
                    }
            },
        ensures
            *final(job) == job_after_tick(*old(job)),
            old(job).status != ProductionStatus::Running ==> r is NoOp && *final(job) == *old(job),
            old(job).status == ProductionStatus::Running ==> {
                let left = old(job).ticks_remaining - 1;
                &&& final(job).ticks_remaining == left
                &&& final(job).id == old(job).id
                &&& final(job).company_id == old(job).company_id
                &&& final(job).recipe_id == old(job).recipe_id
                &&& final(job).batch_size == old(job).batch_size
                &&& if left <= 0 {
                    &&& final(job).status == ProductionStatus::Completed
                    &&& r matches TickResult::Completed { outputs, workers_freed } && outputs@
                        == outputs_spec(*recipe, old(job).batch_size) && workers_freed
                        == recipe.workers_required * old(job).batch_size
                } else {
                    &&& final(job).status == ProductionStatus::Running
                    &&& r == TickResult::InProgress(left as i32)
                }
            },
    {
        match job.status {
            ProductionStatus::Running => {
                job.ticks_remaining = job.ticks_remaining - 1;
                if job.ticks_remaining <= 0 {
                    job.status = ProductionStatus::Completed;
                    let batch = Decimal::from_i32(job.batch_size);
                    let mut outputs: Vec<(u128, Decimal)> = Vec::new();
                    let mut i: usize = 0;
                    while i < recipe.outputs.len()
                        invariant
                            i <= recipe.outputs@.len(),
                            batch == batch_decimal(job.batch_size),
                            forall|k: int|
                                0 <= k < recipe.outputs@.len() ==> {
                                    &&& wf(#[trigger] recipe.outputs@[k].quantity)
                                    &&& product_safe(recipe.outputs@[k].quantity, batch)
                                },
                            outputs@ == outputs_spec(*recipe, job.batch_size).take(i as int),
                        decreases recipe.outputs@.len() - i,
                    {
                        let o = &recipe.outputs[i];
                        proof {
                            assert(wf(recipe.outputs@[i as int].quantity));
                        }
                        let q = o.quantity.mul(&batch);
                        outputs.push((o.resource_id, q));
                        i = i + 1;
                        proof {
                            assert(outputs@ =~= outputs_spec(*recipe, job.batch_size).take(
                                i as int,
                            ));
                        }
                    }
                    proof {
                        assert(outputs_spec(*recipe, job.batch_size).take(i as int)
                            =~= outputs_spec(*recipe, job.batch_size));
                    }
                    TickResult::Completed {
                        outputs,
                        workers_freed: recipe.workers_required * job.batch_size,
                    }
                } else {
                    TickResult::InProgress(job.ticks_remaining)
                }
            },
            _ => TickResult::NoOp,
        }
    }
}

// ── Laws of planning ───────────────────────────────────────────────────────
/// The entries of `inv` for resource `rid`, in order.
pub open spec fn entries_of(inv: Seq<Inventory>, rid: u128) -> Seq<Inventory> {
    inv.filter(|e: Inventory| e.resource_id == rid)
}

/// The quantities of inventory entries, in order.
pub open spec fn entry_quantities(inv: Seq<Inventory>) -> Seq<Decimal> {
    inv.map_values(|e: Inventory| e.quantity)
}

proof fn lemma_held_runs(inv: Seq<Inventory>, rid: u128)
    ensures
        held_spec(inv, rid) == running_sum(entry_quantities(entries_of(inv, rid))),
    decreases inv.len(),
{
    reveal_with_fuel(Seq::filter, 1);
    if inv.len() > 0 {
        lemma_held_runs(inv.drop_last(), rid);
        let p = entries_of(inv.drop_last(), rid);
        if inv.last().resource_id == rid {
            assert(entries_of(inv, rid) == p.push(inv.last()));
            assert(entry_quantities(p.push(inv.last())).drop_last() =~= entry_quantities(p));
            assert(entry_quantities(p.push(inv.last())).last() == inv.last().quantity);
        } else {
            assert(entries_of(inv, rid) == p);
        }
    }
}

/// What a company holds of a resource is the sum of the quantities of all
/// its entries for that resource, whenever adding them up cannot round.
pub proof fn law_held_is_the_sum_of_the_entries(inv: Seq<Inventory>, rid: u128)
    requires
        sum_exact(entry_quantities(entries_of(inv, rid))),
    ensures
        units(held_spec(inv, rid)) == total_units(entry_quantities(entries_of(inv, rid))),
{
    lemma_held_runs(inv, rid);
    lemma_running_sum_exact(entry_quantities(entries_of(inv, rid)));
}

proof fn lemma_first_short(recipe: Recipe, batch_size: i32, inv: Seq<Inventory>, from: int)
    requires
        0 <= from,
    ensures
        match first_short(recipe, batch_size, inv, from) {
            None => forall|i: int|
                from <= i < recipe.inputs@.len() ==> !input_short(recipe, batch_size, inv, i),
            Some(k) => {
                &&& from <= k < recipe.inputs@.len()
                &&& input_short(recipe, batch_size, inv, k)
                &&& forall|i: int| from <= i < k ==> !input_short(recipe, batch_size, inv, i)
            },
        },
    decreases recipe.inputs@.len() - from,
{
    if from < recipe.inputs@.len() && !input_short(recipe, batch_size, inv, from) {
        lemma_first_short(recipe, batch_size, inv, from + 1);
    }
}

/// A plan is made only when the company has the tech level and the free
/// workers and holds every input in the quantity the batch needs; when some
/// input is held short, planning fails, and a shortage it reports is of the
/// first input held short.
pub proof fn law_plan_needs_every_input_held(
    company: Company,
    recipe: Recipe,
    batch_size: i32,
    inv: Seq<Inventory>,
    r: Result<ProductionPlan, ProductionError>,
)
    requires
        planned(company, recipe, batch_size, inv, r),
    ensures
        r is Ok ==> {
            &&& company.tech_level >= recipe.min_tech_level
            &&& company.worker_capacity - company.workers >= recipe.workers_required * batch_size
            &&& forall|i: int|
                0 <= i < recipe.inputs@.len() ==> units(
                    held_spec(inv, (#[trigger] recipe.inputs@[i]).resource_id),
                ) >= units(scaled_quantity(recipe.inputs@[i], batch_size))
        },
        (exists|i: int|
            0 <= i < recipe.inputs@.len() && units(
                held_spec(inv, (#[trigger] recipe.inputs@[i]).resource_id),
            ) < units(scaled_quantity(recipe.inputs@[i], batch_size))) ==> r is Err,
        r matches Err(ProductionError::InsufficientResource { slug, have, need }) ==> exists|k: int|
            0 <= k < recipe.inputs@.len() && slug@ == (#[trigger] recipe.inputs@[k]).resource_slug@
                && have == held_spec(inv, recipe.inputs@[k].resource_id) && need
                == scaled_quantity(recipe.inputs@[k], batch_size) && units(have) < units(need)
                && forall|i: int|
                0 <= i < k ==> units(held_spec(inv, (#[trigger] recipe.inputs@[i]).resource_id))
                    >= units(scaled_quantity(recipe.inputs@[i], batch_size)),
{
    lemma_first_short(recipe, batch_size, inv, 0);
    assert forall|i: int| 0 <= i < recipe.inputs@.len() implies (units(
        held_spec(inv, (#[trigger] recipe.inputs@[i]).resource_id),
    ) < units(scaled_quantity(recipe.inputs@[i], batch_size))) == input_short(
        recipe,
        batch_size,
        inv,
        i,
    ) by {}
    if let Some(k) = first_short(recipe, batch_size, inv, 0) {
        assert(input_short(recipe, batch_size, inv, k));
    }
}

} // verus!
