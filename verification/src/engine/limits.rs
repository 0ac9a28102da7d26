//! Checks on amounts: whether decimals are representable and within given
//! magnitudes, whether products stay in range, and whether a tick can run
//! on a game state.
use vstd::prelude::*;

use crate::engine::matching::order_wf;
use crate::engine::production::{batch_decimal, inventory_mass};
use crate::engine::simulation::{
    job_tickable, jobs_tickable, market_wf, recipe_position, resource_wf, spawns, tick_inputs_ok,
};
use crate::models::{
    Inventory, Market, ProductionJob, ProductionStatus, Recipe, Resource, ResourceCategory,
    TradeOrder,
};
use crate::decimal::{
    abs, lemma_pow10_adds, lemma_pow10_positive, lemma_pow10_values, one_whole, pow10, product_safe,
    safe_magnitude, units, wf, within, Decimal,
};

verus! {

/// The magnitude of a mantissa.
fn magnitude(m: i128) -> (r: u128)
    requires
        m > i128::MIN,
    ensures
        r == abs(m as int),
{
    if m < 0 {
        (-m) as u128
    } else {
        m as u128
    }
}

/// Whether `a <= bound * 10^s`, without forming the product.
fn at_most_scaled(a: u128, bound: u128, s: u32) -> (r: bool)
    requires
        a < 0x8000_0000_0000_0000_0000_0000_0000_0000,
    ensures
        r == (a <= bound * pow10(s as nat)),
{
    // c stays the ceiling of a / 10^j.
    let mut c: u128 = a;
    let mut j: u32 = 0;
    proof {
        reveal_with_fuel(pow10, 1);
    }
    while j < s
        invariant
            j <= s,
            c <= a,
            a < 0x8000_0000_0000_0000_0000_0000_0000_0000,
            c * pow10(j as nat) >= a,
            (c - 1) * pow10(j as nat) < a,
        decreases s - j,
    {
        let ghost p = pow10(j as nat);
        let next = (c + 9) / 10;
        proof {
            lemma_pow10_positive(j as nat);
            assert(pow10((j + 1) as nat) == 10 * p);
            assert(next * 10 >= c && (next - 1) * 10 <= c - 1) by (nonlinear_arith)
                requires
                    next == (c + 9) / 10,
                    c >= 0,
            ;
            assert(next * (10 * p) >= a) by (nonlinear_arith)
                requires
                    next * 10 >= c,
                    c * p >= a,
                    p >= 1,
            ;
            assert((next - 1) * (10 * p) < a) by (nonlinear_arith)
                requires
                    (next - 1) * 10 <= c - 1,
                    (c - 1) * p < a,
                    p >= 1,
            ;
            assert(next <= c) by (nonlinear_arith)
                requires
                    next == (c + 9) / 10,
                    c >= 0,
            ;
        }
        c = next;
        j = j + 1;
    }
    proof {
        let p = pow10(s as nat);
        lemma_pow10_positive(s as nat);
        assert((c <= bound) == (a <= bound * p)) by (nonlinear_arith)
            requires
                c * p >= a,
                (c - 1) * p < a,
                p >= 1,
                c >= 0,
                bound >= 0,
        ;
    }
    c <= bound
}

/// `within(d, bound)` is `|mantissa| <= bound * 10^scale`.
proof fn lemma_within_by_mantissa(d: Decimal, bound: int)
    requires
        wf(d),
        bound >= 0,
    ensures
        within(d, bound) == (abs(d.mantissa as int) <= bound * pow10(d.scale as nat)),
{
    let k = pow10((28 - d.scale) as nat);
    let p = pow10(d.scale as nat);
    lemma_pow10_adds(d.scale as nat, (28 - d.scale) as nat);
    lemma_pow10_positive((28 - d.scale) as nat);
    assert(one_whole() == p * k);
    assert(abs(units(d)) == abs(d.mantissa as int) * k) by (nonlinear_arith)
        requires
            units(d) == d.mantissa * k,
            k >= 1,
    ;
    assert((abs(d.mantissa as int) * k <= bound * (p * k)) == (abs(d.mantissa as int) <= bound
        * p)) by (nonlinear_arith)
        requires
            k >= 1,
    ;
}

/// Whether the magnitude of `d` is at most `bound` wholes.
pub fn is_within(d: &Decimal, bound: u128) -> (r: bool)
    requires
        wf(*d),
    ensures
        r == within(*d, bound as int),
{
    proof {
        lemma_within_by_mantissa(*d, bound as int);
    }
    at_most_scaled(magnitude(d.mantissa), bound, d.scale)
}

/// `product_safe(a, n)` for a whole `n` is `|mantissa(a) * n| <= 2^95 * 10^scale(a)`.
proof fn lemma_product_safe_by_mantissa(a: Decimal, n: i32)
    requires
        wf(a),
    ensures
        product_safe(a, batch_decimal(n)) == (abs(a.mantissa * n) <= safe_magnitude() * pow10(
            a.scale as nat,
        )),
{
    let k = pow10((28 - a.scale) as nat);
    let p = pow10(a.scale as nat);
    let w = one_whole();
    lemma_pow10_adds(a.scale as nat, (28 - a.scale) as nat);
    lemma_pow10_positive((28 - a.scale) as nat);
    lemma_pow10_positive(28);
    assert(w == p * k);
    assert(units(batch_decimal(n)) == n * w);
    let m = a.mantissa as int;
    let s = safe_magnitude();
    assert(abs(units(a) * units(batch_decimal(n))) == abs(m * n) * (k * w)) by (nonlinear_arith)
        requires
            units(a) == m * k,
            units(batch_decimal(n)) == n * w,
            k >= 1,
            w >= 1,
    ;
    assert((abs(m * n) * (k * w) <= s * w * w) == (abs(m * n) <= s * p)) by (nonlinear_arith)
        requires
            w == p * k,
            k >= 1,
            w >= 1,
    ;
}

/// Whether `a` times the whole number `n` stays within the safe magnitude.
pub fn product_is_safe(a: &Decimal, n: i32) -> (r: bool)
    requires
        wf(*a),
    ensures
        r == product_safe(*a, batch_decimal(n)),
{
    proof {
        lemma_product_safe_by_mantissa(*a, n);
        lemma_pow10_values();
    }
    let x = magnitude(a.mantissa);
    let y: u128 = if n < 0 {
        (-(n as i64)) as u128
    } else {
        n as u128
    };
    assert(x * y < 0x8000_0000_0000_0000_0000_0000_0000_0000) by (nonlinear_arith)
        requires
            x <= 79228162514264337593543950335,
            y <= 2147483648,
    ;
    assert(abs(a.mantissa * n) == x * y) by (nonlinear_arith)
        requires
            x == abs(a.mantissa as int),
            y == abs(n as int),
    ;
    at_most_scaled(x * y, 39614081257132168796771975168, a.scale)
}

/// Whether an order's price and quantity are representable.
pub fn order_is_wf(o: &TradeOrder) -> (r: bool)
    ensures
        r == order_wf(*o),
{
    o.price.is_valid() && o.quantity.is_valid()
}

/// Whether a market's amounts are representable.
pub fn market_is_wf(m: &Market) -> (r: bool)
    ensures
        r == market_wf(*m),
{
    m.last_price.is_valid() && m.total_demand.is_valid() && m.ema_price.is_valid()
        && m.total_volume.is_valid()
}

/// Whether a resource produces NPC orders each tick.
pub fn spawns_orders(r: &Resource) -> (b: bool)
    ensures
        b == spawns(*r),
{
    r.category == ResourceCategory::RawMaterial && r.spawn_rate.mantissa != 0
}

/// Whether a resource's base price, and its spawn rate when it spawns, are
/// representable.
pub fn resource_is_wf(r: &Resource) -> (b: bool)
    ensures
        b == resource_wf(*r),
{
    r.base_price.is_valid() && (!spawns_orders(r) || r.spawn_rate.is_valid())
}

/// Whether a job can be advanced with its recipe: its worker count and the
/// products of its outputs with the batch size stay in range.
pub fn job_is_tickable(job: &ProductionJob, recipe: &Recipe) -> (r: bool)
    ensures
        r == job_tickable(*job, *recipe),
{
    if job.ticks_remaining == i32::MIN {
        return false;
    }
    let w = recipe.workers_required as i64;
    let b = job.batch_size as i64;
    assert(-0x4000_0000_0000_0000 <= w * b <= 0x4000_0000_0000_0000) by (nonlinear_arith)
        requires
            -0x8000_0000 <= w <= 0x7fff_ffff,
            -0x8000_0000 <= b <= 0x7fff_ffff,
    ;
    let workers: i64 = w * b;
    if workers < i32::MIN as i64 || workers > i32::MAX as i64 {
        return false;
    }
    let mut i: usize = 0;
    while i < recipe.outputs.len()
        invariant
            i <= recipe.outputs@.len(),
            forall|k: int|
                0 <= k < i ==> {
                    &&& wf(#[trigger] recipe.outputs@[k].quantity)
                    &&& product_safe(recipe.outputs@[k].quantity, batch_decimal(job.batch_size))
                },
        decreases recipe.outputs@.len() - i,
    {
        let q = &recipe.outputs[i].quantity;
        if !q.is_valid() || !product_is_safe(q, job.batch_size) {
            return false;
        }
        i = i + 1;
    }
    true
}

/// Whether every running job whose recipe is known can be advanced.
pub fn jobs_are_tickable(jobs: &[ProductionJob], recipes: &[Recipe]) -> (r: bool)
    ensures
        r == jobs_tickable(jobs@, recipes@),
{
    let mut i: usize = 0;
    while i < jobs.len()
        invariant
            i <= jobs@.len(),
            forall|k: int|
                0 <= k < i && #[trigger] jobs@[k].status == ProductionStatus::Running
                    && crate::engine::simulation::find_recipe(recipes@, jobs@[k].recipe_id, 0) is Some
                    ==> job_tickable(
                    jobs@[k],
                    recipes@[crate::engine::simulation::find_recipe(recipes@, jobs@[k].recipe_id, 0)->0],
                ),
        decreases jobs@.len() - i,
    {
        if jobs[i].status == ProductionStatus::Running {
            match recipe_position(recipes, jobs[i].recipe_id) {
                Some(k) => {
                    if !job_is_tickable(&jobs[i], &recipes[k]) {
                        assert(jobs@[i as int].status == ProductionStatus::Running);
                        return false;
                    }
                },
                None => {},
            }
        }
        i = i + 1;
    }
    true
}

/// Whether every order of `orders` is representable.
pub fn orders_are_wf(orders: &[TradeOrder]) -> (r: bool)
    ensures
        r == (forall|k: int| 0 <= k < orders@.len() ==> order_wf(#[trigger] orders@[k])),
{
    let mut i: usize = 0;
    while i < orders.len()
        invariant
            i <= orders@.len(),
            forall|k: int| 0 <= k < i ==> order_wf(#[trigger] orders@[k]),
        decreases orders@.len() - i,
    {
        if !order_is_wf(&orders[i]) {
            return false;
        }
        i = i + 1;
    }
    true
}

/// Whether every resource is representable.
pub fn resources_are_wf(resources: &[Resource]) -> (r: bool)
    ensures
        r == (forall|k: int| 0 <= k < resources@.len() ==> resource_wf(#[trigger] resources@[k])),
{
    let mut i: usize = 0;
    while i < resources.len()
        invariant
            i <= resources@.len(),
            forall|k: int| 0 <= k < i ==> resource_wf(#[trigger] resources@[k]),
        decreases resources@.len() - i,
    {
        if !resource_is_wf(&resources[i]) {
            return false;
        }
        i = i + 1;
    }
    true
}

/// Whether every market is representable.
pub fn markets_are_wf(markets: &[Market]) -> (r: bool)
    ensures
        r == (forall|k: int| 0 <= k < markets@.len() ==> market_wf(#[trigger] markets@[k])),
{
    let mut i: usize = 0;
    while i < markets.len()
        invariant
            i <= markets@.len(),
            forall|k: int| 0 <= k < i ==> market_wf(#[trigger] markets@[k]),
        decreases markets@.len() - i,
    {
        if !market_is_wf(&markets[i]) {
            return false;
        }
        i = i + 1;
    }
    true
}

/// Whether a tick can run on this state: exactly the condition that the
/// engine's tick requires (every running job can be advanced, and every
/// amount is a representable decimal).
pub fn tick_admissible(
    jobs: &[ProductionJob],
    recipes: &[Recipe],
    resources: &[Resource],
    markets: &[Market],
    buys: &[TradeOrder],
    sells: &[TradeOrder],
) -> (r: bool)
    ensures
        r == tick_inputs_ok(jobs@, recipes@, resources@, markets@, buys@, sells@),
{
    jobs_are_tickable(jobs, recipes) && resources_are_wf(resources) && markets_are_wf(markets)
        && orders_are_wf(buys) && orders_are_wf(sells)
}

/// `product_safe(a, b)` is `|mantissa(a) * mantissa(b)| <= 2^95 * 10^(scale(a) + scale(b))`.
proof fn lemma_product_safe_by_mantissas(a: Decimal, b: Decimal)
    requires
        wf(a),
        wf(b),
    ensures
        product_safe(a, b) == (abs(a.mantissa * b.mantissa) <= safe_magnitude() * pow10(
            (a.scale + b.scale) as nat,
        )),
{
    let ka = pow10((28 - a.scale) as nat);
    let kb = pow10((28 - b.scale) as nat);
    let pa = pow10(a.scale as nat);
    let pb = pow10(b.scale as nat);
    let w = one_whole();
    lemma_pow10_adds(a.scale as nat, (28 - a.scale) as nat);
    lemma_pow10_adds(b.scale as nat, (28 - b.scale) as nat);
    lemma_pow10_adds(a.scale as nat, b.scale as nat);
    lemma_pow10_positive((28 - a.scale) as nat);
    lemma_pow10_positive((28 - b.scale) as nat);
    assert(w == pa * ka);
    assert(w == pb * kb);
    let m = a.mantissa * b.mantissa;
    let sm = safe_magnitude();
    assert(abs(units(a) * units(b)) == abs(m) * (ka * kb)) by (nonlinear_arith)
        requires
            units(a) == a.mantissa * ka,
            units(b) == b.mantissa * kb,
            m == a.mantissa * b.mantissa,
            ka >= 1,
            kb >= 1,
    ;
    assert(sm * w * w == sm * (pa * pb) * (ka * kb)) by (nonlinear_arith)
        requires
            w == pa * ka,
            w == pb * kb,
    ;
    assert((abs(m) * (ka * kb) <= sm * (pa * pb) * (ka * kb)) == (abs(m) <= sm * (pa * pb)))
        by (nonlinear_arith)
        requires
            ka >= 1,
            kb >= 1,
    ;
}

/// Whether the product of `a` and `b` stays within the safe magnitude.
pub fn product_within_range(a: &Decimal, b: &Decimal) -> (r: bool)
    requires
        wf(*a),
        wf(*b),
    ensures
        r == product_safe(*a, *b),
{
    proof {
        lemma_product_safe_by_mantissas(*a, *b);
        lemma_pow10_positive((a.scale + b.scale) as nat);
    }
    let x = magnitude(a.mantissa);
    let y = magnitude(b.mantissa);
    let k: u32 = a.scale + b.scale;
    assert(abs(a.mantissa * b.mantissa) == x * y) by (nonlinear_arith)
        requires
            x == abs(a.mantissa as int),
            y == abs(b.mantissa as int),
    ;
    if x == 0 || y == 0 {
        proof {
            assert(x * y == 0) by (nonlinear_arith)
                requires
                    x == 0 || y == 0,
            ;
            assert(safe_magnitude() * pow10(k as nat) >= 0) by (nonlinear_arith)
                requires
                    pow10(k as nat) >= 1,
            ;
        }
        return true;
    }
    // q and rem are the quotient and remainder of 2^95 * 10^j by y.
    let big: u128 = 39614081257132168796771975168;
    let mut q: u128 = big / y;
    let mut rem: u128 = big % y;
    let mut j: u32 = 0;
    proof {
        reveal_with_fuel(pow10, 1);
        assert(q * y + rem == big && rem < y) by (nonlinear_arith)
            requires
                y > 0,
                q == big / y,
                rem == big % y,
        ;
        crate::decimal::lemma_pow10_monotone(0, k as nat);
    }
    if q > x {
        proof {
            assert(x * y < safe_magnitude() * pow10(k as nat)) by (nonlinear_arith)
                requires
                    x < q,
                    y > 0,
                    q * y + rem == safe_magnitude(),
                    rem >= 0,
                    1 <= pow10(k as nat),
                    safe_magnitude() > 0,
            ;
        }
        return true;
    }
    while j < k
        invariant
            0 < y <= 79228162514264337593543950335,
            x <= 79228162514264337593543950335,
            j <= k,
            k == a.scale + b.scale,
            q * y + rem == safe_magnitude() * pow10(j as nat),
            rem < y,
            q <= x,
            product_safe(*a, *b) == (x * y <= safe_magnitude() * pow10(k as nat)),
        decreases k - j,
    {
        let ghost p = pow10(j as nat);
        let t = rem * 10;
        assert(t / y <= 9) by (nonlinear_arith)
            requires
                t == rem * 10,
                rem < y,
                y > 0,
        ;
        let next_q = q * 10 + t / y;
        let next_rem = t % y;
        proof {
            assert(pow10((j + 1) as nat) == 10 * p);
            assert(t == (t / y) * y + t % y && t % y < y) by (nonlinear_arith)
                requires
                    y > 0,
            ;
            assert(next_q * y + next_rem == 10 * (q * y + rem)) by (nonlinear_arith)
                requires
                    next_q == q * 10 + t / y,
                    next_rem == t % y,
                    t == rem * 10,
                    t == (t / y) * y + t % y,
            ;
        }
        if next_q > x {
            proof {
                lemma_pow10_positive((j + 1) as nat);
                crate::decimal::lemma_pow10_monotone((j + 1) as nat, k as nat);
                assert(x * y < safe_magnitude() * pow10(k as nat)) by (nonlinear_arith)
                    requires
                        x < next_q,
                        y > 0,
                        next_q * y + next_rem == safe_magnitude() * pow10((j + 1) as nat),
                        next_rem >= 0,
                        pow10((j + 1) as nat) <= pow10(k as nat),
                ;
            }
            return true;
        }
        q = next_q;
        rem = next_rem;
        j = j + 1;
    }
    proof {
        if x <= q {
            assert(x * y <= safe_magnitude() * pow10(k as nat)) by (nonlinear_arith)
                requires
                    x <= q,
                    y > 0,
                    q * y + rem == safe_magnitude() * pow10(k as nat),
                    rem >= 0,
            ;
        } else {
            assert(x * y > safe_magnitude() * pow10(k as nat)) by (nonlinear_arith)
                requires
                    x >= q + 1,
                    y > 0,
                    q * y + rem == safe_magnitude() * pow10(k as nat),
                    rem < y,
            ;
        }
    }
    x <= q
}

/// 10^s.
fn power_of_ten(s: u32) -> (r: u128)
    requires
        s <= 28,
    ensures
        r == pow10(s as nat),
{
    let mut r: u128 = 1;
    let mut j: u32 = 0;
    proof {
        reveal_with_fuel(pow10, 1);
    }
    while j < s
        invariant
            j <= s <= 28,
            r == pow10(j as nat),
        decreases s - j,
    {
        proof {
            crate::decimal::lemma_pow10_monotone((j + 1) as nat, 28);
            lemma_pow10_values();
            assert(pow10((j + 1) as nat) == 10 * pow10(j as nat));
        }
        r = r * 10;
        j = j + 1;
    }
    r
}

/// Every quantity of `inv` is representable, and the magnitudes of the
/// quantities, with one whole added for each, stay within the safe magnitude.
pub open spec fn inventory_in_range(inv: Seq<Inventory>) -> bool {
    &&& forall|i: int| 0 <= i < inv.len() ==> wf(#[trigger] inv[i].quantity)
    &&& inventory_mass(inv) + inv.len() * one_whole() <= safe_magnitude() * one_whole()
}

/// Whether the quantities of `inv` are within range for summing.
pub fn inventory_is_in_range(inv: &[Inventory]) -> (r: bool)
    ensures
        r == inventory_in_range(inv@),
{
    proof {
        lemma_pow10_values();
    }
    let w: u128 = 10000000000000000000000000000;
    let limit: u128 = 39614081257132168796771975168;
    let mut whole: u128 = 0;
    let mut frac: u128 = 0;
    let mut i: usize = 0;
    while i < inv.len()
        invariant
            i <= inv@.len(),
            w == one_whole(),
            w == 10000000000000000000000000000,
            limit == safe_magnitude(),
            limit == 39614081257132168796771975168,
            forall|k: int| 0 <= k < i ==> wf(#[trigger] inv@[k].quantity),
            whole <= limit,
            frac < w,
            whole * w + frac == inventory_mass(inv@.take(i as int)) + i * w,
        decreases inv@.len() - i,
    {
        proof {
            let p = inv@.take(i as int + 1);
            assert(p.drop_last() =~= inv@.take(i as int));
            assert(p.last() == inv@[i as int]);
        }
        let d = inv[i].quantity;
        if !d.is_valid() {
            return false;
        }
        let m = magnitude(d.mantissa);
        let ps = power_of_ten(d.scale);
        let ks = power_of_ten(28 - d.scale);
        proof {
            lemma_pow10_positive(d.scale as nat);
            lemma_pow10_positive((28 - d.scale) as nat);
            lemma_pow10_adds(d.scale as nat, (28 - d.scale) as nat);
            assert(w == ps * ks);
        }
        let q = m / ps;
        let mm = m % ps;
        assert(mm * ks < w) by (nonlinear_arith)
            requires
                mm == m % ps,
                ps > 0,
                w == ps * ks,
                ks >= 1,
        ;
        let rr = mm * ks;
        proof {
            assert(m == q * ps + m % ps && m % ps < ps) by (nonlinear_arith)
                requires
                    ps > 0,
                    q == m / ps,
            ;
            assert(abs(units(d)) == q * w + rr) by (nonlinear_arith)
                requires
                    units(d) == d.mantissa * ks,
                    m == abs(d.mantissa as int),
                    m == q * ps + m % ps,
                    rr == (m % ps) * ks,
                    w == ps * ks,
                    ks >= 1,
            ;
            assert(rr < w) by (nonlinear_arith)
                requires
                    rr == (m % ps) * ks,
                    m % ps < ps,
                    w == ps * ks,
                    ks >= 1,
            ;
            assert(q <= m) by (nonlinear_arith)
                requires
                    q == m / ps,
                    ps >= 1,
            ;
        }
        let sum = frac + rr;
        let next_whole = if sum >= w {
            whole + q + 2
        } else {
            whole + q + 1
        };
        let next_frac = if sum >= w {
            sum - w
        } else {
            sum
        };
        proof {
            assert(next_whole * w + next_frac == whole * w + frac + q * w + rr + w) by (nonlinear_arith)
                requires
                    sum == frac + rr,
                    sum >= w ==> next_whole == whole + q + 2 && next_frac == sum - w,
                    sum < w ==> next_whole == whole + q + 1 && next_frac == sum,
            ;
        }
        if next_whole > limit {
            proof {
                lemma_mass_inventory_prefix(inv@, i as int + 1);
                assert(next_whole * w > limit * w) by (nonlinear_arith)
                    requires
                        next_whole > limit,
                        w > 0,
                ;
            }
            return false;
        }
        whole = next_whole;
        frac = next_frac;
        i = i + 1;
    }
    proof {
        assert(inv@.take(inv@.len() as int) =~= inv@);
        assert((whole * w + frac <= limit * w) == (whole < limit || (whole == limit && frac == 0)))
            by (nonlinear_arith)
            requires
                frac < w,
                0 <= frac,
                w > 0,
        ;
    }
    whole < limit || (whole == limit && frac == 0)
}

proof fn lemma_mass_inventory_prefix(inv: Seq<Inventory>, k: int)
    requires
        0 <= k <= inv.len(),
    ensures
        inventory_mass(inv.take(k)) + k * one_whole() <= inventory_mass(inv) + inv.len() * one_whole(),
    decreases inv.len(),
{
    lemma_pow10_positive(28);
    if k < inv.len() {
        lemma_mass_inventory_prefix(inv.drop_last(), k);
        assert(inv.drop_last().take(k) =~= inv.take(k));
        assert(inventory_mass(inv) == inventory_mass(inv.drop_last()) + abs(units(inv.last().quantity)));
        assert(abs(units(inv.last().quantity)) >= 0);
        assert(inv.drop_last().len() * one_whole() + one_whole() == inv.len() * one_whole())
            by (nonlinear_arith)
            requires
                inv.drop_last().len() + 1 == inv.len(),
        ;
    } else {
        assert(inv.take(k) =~= inv);
    }
}

} // verus!
