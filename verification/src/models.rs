//! Domain models of the game world.
//!
//! Identifiers are 128-bit values (the bits of a UUID) and instants are
//! seconds and nanoseconds since the Unix epoch.  Amounts are [`Decimal`]s.
use vstd::prelude::*;

use crate::decimal::{
    abs, lemma_pow10_positive, one_whole, product_fits, product_safe, safe_magnitude, units, wf,
    Decimal,
};

verus! {

/// An instant: whole seconds since the Unix epoch and the nanoseconds within
/// that second.
#[derive(Clone, Copy, Debug, PartialEq, Eq, Structural)]
pub struct Timestamp {
    pub secs: i64,
    pub nanos: u32,
}

/// `a` is strictly earlier than `b`.
pub open spec fn time_lt(a: Timestamp, b: Timestamp) -> bool {
    a.secs < b.secs || (a.secs == b.secs && a.nanos < b.nanos)
}

/// `a` is no later than `b`.
pub open spec fn time_le(a: Timestamp, b: Timestamp) -> bool {
    a.secs < b.secs || (a.secs == b.secs && a.nanos <= b.nanos)
}

impl Timestamp {
    pub fn earlier_than(&self, other: &Timestamp) -> (r: bool)
        ensures
            r == time_lt(*self, *other),
    {
        self.secs < other.secs || (self.secs == other.secs && self.nanos < other.nanos)
    }

    pub fn no_later_than(&self, other: &Timestamp) -> (r: bool)
        ensures
            r == time_le(*self, *other),
    {
        self.secs < other.secs || (self.secs == other.secs && self.nanos <= other.nanos)
    }
}

/// The identifier that NPC orders carry as their player and company.
pub const NIL_ID: u128 = 0;

/// A player account in the game world.  Each player can own several companies.
#[derive(Clone, Debug)]
pub struct Player {
    pub id: u128,
    pub username: String,
    /// Hashed password; never sent to clients.
    pub password_hash: String,
    /// Cash available for direct spending, not tied to a company.
    pub balance: Decimal,
    pub created_at: Timestamp,
    pub last_login: Timestamp,
    pub is_online: bool,
}

/// The view of a player sent over the wire.
#[derive(Clone, Debug)]
pub struct PlayerPublic {
    pub id: u128,
    pub username: String,
    pub balance: Decimal,
    pub is_online: bool,
}

impl PlayerPublic {
    /// The public view of `p`: everything but the password hash and the dates.
    pub fn from_player(p: &Player) -> (r: PlayerPublic)
        ensures
            r.id == p.id,
            r.username@ == p.username@,
            r.balance == p.balance,
            r.is_online == p.is_online,
    {
        PlayerPublic {
            id: p.id,
            username: p.username.clone(),
            balance: p.balance,
            is_online: p.is_online,
        }
    }
}

/// A player-owned company that produces and trades goods.
#[derive(Debug)]
pub struct Company {
    pub id: u128,
    pub owner_id: u128,
    pub name: String,
    /// Operating capital held by the company.
    pub treasury: Decimal,
    /// Number of workers currently employed.
    pub workers: i32,
    /// Maximum number of workers the company can employ.
    pub worker_capacity: i32,
    /// Number of factories; each supports a fixed number of workers.
    pub factories: i32,
    /// Technology level; unlocks advanced recipes.
    pub tech_level: i32,
    pub created_at: Timestamp,
}

/// Workers that a single factory supports.
pub const WORKERS_PER_FACTORY: i32 = 50;

/// Wage paid per worker per tick.
pub const WAGE_PER_WORKER: i32 = 100;

/// The factory cost of a company that owns `factories` factories:
/// 10 000 · (factories + 1)².
pub open spec fn factory_cost_spec(factories: int) -> int {
    10000 * ((factories + 1) * (factories + 1))
}

/// `d` is the whole number `n` written at scale 0.
pub open spec fn is_whole(d: Decimal, n: int) -> bool {
    d.mantissa == n && d.scale == 0
}

impl Clone for Company {
    fn clone(&self) -> (r: Company)
        ensures
            r == *self,
    {
        Company {
            id: self.id,
            owner_id: self.owner_id,
            name: self.name.clone(),
            treasury: self.treasury,
            workers: self.workers,
            worker_capacity: self.worker_capacity,
            factories: self.factories,
            tech_level: self.tech_level,
            created_at: self.created_at,
        }
    }
}

impl Company {
    /// The cost of building one more factory.  It grows quadratically so that
    /// expansion gets progressively harder.
    pub fn next_factory_cost(&self) -> (r: Decimal)
        requires
            -46341 < self.factories + 1 < 46341,
        ensures
            is_whole(r, factory_cost_spec(self.factories as int)),
            wf(r),
    {
        let base = Decimal::from_i32(10000);
        let n = self.factories + 1;
        assert(-46341 < n < 46341);
        assert(n * n <= 46340 * 46340) by (nonlinear_arith)
            requires
                -46341 < n < 46341,
        ;
        assert(n * n >= 0) by (nonlinear_arith);
        let multiplier = Decimal::from_i32(n * n);
        proof {
            lemma_whole_product(base, multiplier);
        }
        let r = base.mul(&multiplier);
        proof {
            if n * n != 0 {
                assert(product_fits(base, multiplier)) by (nonlinear_arith)
                    requires
                        base.mantissa == 10000,
                        0 < multiplier.mantissa <= 46340 * 46340,
                        base.scale == 0,
                        multiplier.scale == 0,
                ;
            }
        }
        r
    }

    /// Recalculates the worker capacity from the factory count.
    pub fn recalculate_capacity(&mut self)
        requires
            i32::MIN <= old(self).factories * WORKERS_PER_FACTORY <= i32::MAX,
        ensures
            final(self).worker_capacity == old(self).factories * WORKERS_PER_FACTORY,
            final(self).factories == old(self).factories,
            final(self).workers == old(self).workers,
            final(self).id == old(self).id,
            final(self).owner_id == old(self).owner_id,
            final(self).name == old(self).name,
            final(self).treasury == old(self).treasury,
            final(self).tech_level == old(self).tech_level,
            final(self).created_at == old(self).created_at,
    {
        self.worker_capacity = self.factories * WORKERS_PER_FACTORY;
    }

    /// The wage bill of one tick: 100 per employed worker.
    pub fn daily_wage_cost(&self) -> (r: Decimal)
        ensures
            is_whole(r, WAGE_PER_WORKER * self.workers),
            wf(r),
    {
        let wage = Decimal::from_i32(WAGE_PER_WORKER);
        let workers = Decimal::from_i32(self.workers);
        proof {
            lemma_whole_product(wage, workers);
        }
        let r = wage.mul(&workers);
        proof {
            if self.workers != 0 {
                assert(product_fits(wage, workers)) by (nonlinear_arith)
                    requires
                        wage.mantissa == 100,
                        i32::MIN <= workers.mantissa <= i32::MAX,
                        wage.scale == 0,
                        workers.scale == 0,
                ;
            }
        }
        r
    }
}

/// Two whole numbers of at most 2^32 in magnitude can be multiplied without overflow.
pub proof fn lemma_whole_product(a: Decimal, b: Decimal)
    requires
        a.scale == 0,
        b.scale == 0,
        -4294967296 <= a.mantissa <= 4294967296,
        -4294967296 <= b.mantissa <= 4294967296,
    ensures
        product_safe(a, b),
        wf(a),
        wf(b),
{
    let w = one_whole();
    assert(units(a) == a.mantissa * w);
    assert(units(b) == b.mantissa * w);
    assert(w > 0) by {
        lemma_pow10_positive(28);
    }
    assert(abs(a.mantissa * w * (b.mantissa * w)) <= safe_magnitude() * w * w) by (nonlinear_arith)
        requires
            -4294967296 <= a.mantissa <= 4294967296,
            -4294967296 <= b.mantissa <= 4294967296,
            w > 0,
            safe_magnitude() == 39614081257132168796771975168,
    ;
}

/// A market exists for each resource.  Prices come from the order book.
#[derive(Clone, Copy, Debug)]
pub struct Market {
    pub id: u128,
    pub resource_id: u128,
    /// Last executed trade price: the current price shown to players.
    pub last_price: Decimal,
    /// Exponential moving average of the price.
    pub ema_price: Decimal,
    /// Units available across the open sell orders.
    pub total_supply: Decimal,
    /// Units requested across the open buy orders.
    pub total_demand: Decimal,
    /// Units traded since the market was created.
    pub total_volume: Decimal,
    pub updated_at: Timestamp,
}

#[derive(Clone, Copy, Debug, PartialEq, Eq, Structural)]
pub enum OrderType {
    Buy,
    Sell,
}

#[derive(Clone, Copy, Debug, PartialEq, Eq, Structural)]
pub enum OrderStatus {
    Open,
    PartiallyFilled,
    Filled,
    Cancelled,
}

/// An order on the book: limit orders sit there until matched or cancelled.
#[derive(Clone, Copy, Debug)]
pub struct TradeOrder {
    pub id: u128,
    pub player_id: u128,
    pub company_id: u128,
    pub resource_id: u128,
    pub order_type: OrderType,
    /// Price per unit the player is willing to pay or accept.
    pub price: Decimal,
    /// Remaining quantity, decremented by partial fills.
    pub quantity: Decimal,
    /// Quantity the order was placed with.
    pub original_quantity: Decimal,
    pub status: OrderStatus,
    pub created_at: Timestamp,
}

/// A snapshot of a market at a point in time, for price history.
#[derive(Clone, Copy, Debug)]
pub struct MarketSnapshot {
    pub id: u128,
    pub resource_id: u128,
    pub price: Decimal,
    pub volume: Decimal,
    pub supply: Decimal,
    pub demand: Decimal,
    pub recorded_at: Timestamp,
}

/// How input resources are turned into output resources.
#[derive(Clone, Debug)]
pub struct Recipe {
    pub id: u128,
    pub slug: String,
    pub name: String,
    pub inputs: Vec<RecipeItem>,
    pub outputs: Vec<RecipeItem>,
    /// Simulation ticks that one production cycle takes.
    pub ticks_required: i32,
    /// Minimum company tech level needed.
    pub min_tech_level: i32,
    /// Workers taken by each run of the recipe.
    pub workers_required: i32,
}

#[derive(Clone, Debug)]
pub struct RecipeItem {
    pub resource_id: u128,
    pub resource_slug: String,
    pub quantity: Decimal,
}

/// A production job running inside a company.
#[derive(Clone, Copy, Debug)]
pub struct ProductionJob {
    pub id: u128,
    pub company_id: u128,
    pub recipe_id: u128,
    /// Number of concurrent runs of the recipe.
    pub batch_size: i32,
    /// Ticks left until the batch completes.
    pub ticks_remaining: i32,
    pub status: ProductionStatus,
}

#[derive(Clone, Copy, Debug, PartialEq, Eq, Structural)]
pub enum ProductionStatus {
    Running,
    Completed,
    Cancelled,
    /// Paused because the company ran out of workers or inputs.
    Stalled,
}

/// Every physical good is a resource.
#[derive(Clone, Debug)]
pub struct Resource {
    pub id: u128,
    /// Machine-readable identifier, such as "copper".
    pub slug: String,
    pub name: String,
    pub category: ResourceCategory,
    /// Price the market is seeded with.
    pub base_price: Decimal,
    /// Units that NPC producers offer each tick (raw materials only).
    pub spawn_rate: Decimal,
}

#[derive(Clone, Copy, Debug, PartialEq, Eq, Structural)]
pub enum ResourceCategory {
    RawMaterial,
    Component,
    FinishedGood,
    Luxury,
}

/// How much of a resource a company or player holds.
#[derive(Clone, Copy, Debug)]
pub struct Inventory {
    pub id: u128,
    /// A company or a player.
    pub owner_id: u128,
    pub resource_id: u128,
    pub quantity: Decimal,
}

/// An executed trade between a buyer and a seller.
#[derive(Clone, Copy, Debug)]
pub struct Transaction {
    pub id: u128,
    pub buy_order_id: u128,
    pub sell_order_id: u128,
    pub resource_id: u128,
    pub buyer_id: u128,
    pub seller_id: u128,
    /// Price per unit.
    pub price: Decimal,
    /// Units exchanged.
    pub quantity: Decimal,
    /// Price times quantity.
    pub total_value: Decimal,
    pub executed_at: Timestamp,
}

/// A fresh random identifier (`Uuid::new_v4`).  Nothing is stated of the
/// value: it is random.
#[verifier::external_body]
pub(crate) fn fresh_id() -> (r: u128) {
    uuid::Uuid::new_v4().as_u128()
}

/// The current instant (`chrono::Utc::now`).  Which instant is not stated:
/// it depends on the clock.  Trusted: it is not before the Unix epoch (chrono
/// panics on a clock set earlier) and its nanoseconds are less than a second
/// (the system clock has no leap seconds).
#[verifier::external_body]
pub(crate) fn current_time() -> (r: Timestamp)
    ensures
        r.secs >= 0,
        r.nanos < 1_000_000_000,
{
    let now = chrono::Utc::now();
    Timestamp { secs: now.timestamp(), nanos: now.timestamp_subsec_nanos() }
}

} // verus!
