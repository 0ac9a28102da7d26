//! The state of the in-memory game loop and what each tick does to it.
//!
//! Between two ticks the API sends commands; at each tick the loop applies
//! them in order, runs the economic engine on the updated state and hands
//! the combined effects to the write-behind worker.  The timer, the
//! channels and the broadcast are the server's I/O.
use vstd::prelude::*;

use crate::engine::limits::tick_admissible;
use crate::engine::simulation::{tick_inputs_ok, ticked, EconomicEngine, TickEffects};
use crate::models::{
    current_time, Company, Market, OrderType, ProductionJob, Recipe, Resource, Timestamp,
    TradeOrder,
};

verus! {

/// A change to the game state requested through the API.
#[derive(Debug)]
pub enum GameCommand {
    CreateOrder(TradeOrder),
    CancelOrder(u128),
    CreateCompany(Company),
    StartProduction(ProductionJob),
    UpdateCompany(Company),
}

/// What the commands of one tick did, for the write-behind worker.
pub struct ApiEffects {
    pub new_companies: Vec<Company>,
    pub updated_companies: Vec<Company>,
    pub new_jobs: Vec<ProductionJob>,
    pub new_orders: Vec<TradeOrder>,
    pub cancelled_orders: Vec<u128>,
}

/// The payload of the write-behind worker: a tick's number and effects.
pub struct TickBatch {
    pub tick_count: u64,
    /// The instant the tick ran at.
    pub at: Timestamp,
    pub effects: TickEffects,
}

/// The game state that the loop holds in memory.
pub struct GameWorld {
    pub engine: EconomicEngine,
    pub companies: Vec<Company>,
    pub recipes: Vec<Recipe>,
    pub resources: Vec<Resource>,
    pub markets: Vec<Market>,
    pub jobs: Vec<ProductionJob>,
    pub buys: Vec<TradeOrder>,
    pub sells: Vec<TradeOrder>,
}

// ── The effect of commands on each part of the state ──────────────────────
/// `orders` with every order of identifier `id` taken out, the rest in order.
pub open spec fn without_order(orders: Seq<TradeOrder>, id: u128) -> Seq<TradeOrder>
    decreases orders.len(),
{
    if orders.len() == 0 {
        orders
    } else if orders.last().id == id {
        without_order(orders.drop_last(), id)
    } else {
        without_order(orders.drop_last(), id).push(orders.last())
    }
}

/// The position of the first company of identifier `id`, from `from` on.
pub open spec fn first_company(companies: Seq<Company>, id: u128, from: int) -> Option<int>
    decreases companies.len() - from,
{
    if from < 0 || from >= companies.len() {
        None
    } else if companies[from].id == id {
        Some(from)
    } else {
        first_company(companies, id, from + 1)
    }
}

/// `companies` with the first company of the same identifier as `c`
/// replaced by `c`; unchanged when there is none.
pub open spec fn replace_company(companies: Seq<Company>, c: Company) -> Seq<Company> {
    match first_company(companies, c.id, 0) {
        Some(k) => companies.update(k, c),
        None => companies,
    }
}

/// The buy side after one command.
pub open spec fn buys_step(buys: Seq<TradeOrder>, cmd: GameCommand) -> Seq<TradeOrder> {
    match cmd {
        GameCommand::CreateOrder(o) => if o.order_type == OrderType::Buy {
            buys.push(o)
        } else {
            buys
        },
        GameCommand::CancelOrder(id) => without_order(buys, id),
        _ => buys,
    }
}

/// The sell side after one command.
pub open spec fn sells_step(sells: Seq<TradeOrder>, cmd: GameCommand) -> Seq<TradeOrder> {
    match cmd {
        GameCommand::CreateOrder(o) => if o.order_type == OrderType::Buy {
            sells
        } else {
            sells.push(o)
        },
        GameCommand::CancelOrder(id) => without_order(sells, id),
        _ => sells,
    }
}

/// The companies after one command.
pub open spec fn companies_step(companies: Seq<Company>, cmd: GameCommand) -> Seq<Company> {
    match cmd {
        GameCommand::CreateCompany(c) => companies.push(c),
        GameCommand::UpdateCompany(c) => replace_company(companies, c),
        _ => companies,
    }
}

/// The production jobs after one command.
pub open spec fn jobs_step(jobs: Seq<ProductionJob>, cmd: GameCommand) -> Seq<ProductionJob> {
    match cmd {
        GameCommand::StartProduction(j) => jobs.push(j),
        _ => jobs,
    }
}

/// The buy side after a run of commands, applied in order.
pub open spec fn buys_after(buys: Seq<TradeOrder>, cmds: Seq<GameCommand>) -> Seq<TradeOrder>
    decreases cmds.len(),
{
    if cmds.len() == 0 {
        buys
    } else {
        buys_step(buys_after(buys, cmds.drop_last()), cmds.last())
    }
}

/// The sell side after a run of commands, applied in order.
pub open spec fn sells_after(sells: Seq<TradeOrder>, cmds: Seq<GameCommand>) -> Seq<TradeOrder>
    decreases cmds.len(),
{
    if cmds.len() == 0 {
        sells
    } else {
        sells_step(sells_after(sells, cmds.drop_last()), cmds.last())
    }
}

/// The companies after a run of commands, applied in order.
pub open spec fn companies_after(companies: Seq<Company>, cmds: Seq<GameCommand>) -> Seq<Company>
    decreases cmds.len(),
{
    if cmds.len() == 0 {
        companies
    } else {
        companies_step(companies_after(companies, cmds.drop_last()), cmds.last())
    }
}

/// The production jobs after a run of commands, applied in order.
pub open spec fn jobs_after(jobs: Seq<ProductionJob>, cmds: Seq<GameCommand>) -> Seq<ProductionJob>
    decreases cmds.len(),
{
    if cmds.len() == 0 {
        jobs
    } else {
        jobs_step(jobs_after(jobs, cmds.drop_last()), cmds.last())
    }
}

/// The order that a command places, if any.
pub open spec fn placed_by(cmd: GameCommand) -> Seq<TradeOrder> {
    match cmd {
        GameCommand::CreateOrder(o) => seq![o],
        _ => Seq::empty(),
    }
}

/// The order identifier that a command cancels, if any.
pub open spec fn cancelled_by(cmd: GameCommand) -> Seq<u128> {
    match cmd {
        GameCommand::CancelOrder(id) => seq![id],
        _ => Seq::empty(),
    }
}

/// The company that a command creates, if any.
pub open spec fn created_by(cmd: GameCommand) -> Seq<Company> {
    match cmd {
        GameCommand::CreateCompany(c) => seq![c],
        _ => Seq::empty(),
    }
}

/// The company update that a command carries, if any.
pub open spec fn updated_by(cmd: GameCommand) -> Seq<Company> {
    match cmd {
        GameCommand::UpdateCompany(c) => seq![c],
        _ => Seq::empty(),
    }
}

/// The production job that a command starts, if any.
pub open spec fn started_by(cmd: GameCommand) -> Seq<ProductionJob> {
    match cmd {
        GameCommand::StartProduction(j) => seq![j],
        _ => Seq::empty(),
    }
}

/// The orders that a run of commands placed, in order.
pub open spec fn placed_orders(cmds: Seq<GameCommand>) -> Seq<TradeOrder>
    decreases cmds.len(),
{
    if cmds.len() == 0 {
        Seq::empty()
    } else {
        placed_orders(cmds.drop_last()) + placed_by(cmds.last())
    }
}

/// The order identifiers that a run of commands cancelled, in order.
pub open spec fn cancelled_ids(cmds: Seq<GameCommand>) -> Seq<u128>
    decreases cmds.len(),
{
    if cmds.len() == 0 {
        Seq::empty()
    } else {
        cancelled_ids(cmds.drop_last()) + cancelled_by(cmds.last())
    }
}

/// The companies that a run of commands created, in order.
pub open spec fn created_companies(cmds: Seq<GameCommand>) -> Seq<Company>
    decreases cmds.len(),
{
    if cmds.len() == 0 {
        Seq::empty()
    } else {
        created_companies(cmds.drop_last()) + created_by(cmds.last())
    }
}

/// The company updates of a run of commands, in order.
pub open spec fn company_updates(cmds: Seq<GameCommand>) -> Seq<Company>
    decreases cmds.len(),
{
    if cmds.len() == 0 {
        Seq::empty()
    } else {
        company_updates(cmds.drop_last()) + updated_by(cmds.last())
    }
}

/// The production jobs that a run of commands started, in order.
pub open spec fn started_jobs(cmds: Seq<GameCommand>) -> Seq<ProductionJob>
    decreases cmds.len(),
{
    if cmds.len() == 0 {
        Seq::empty()
    } else {
        started_jobs(cmds.drop_last()) + started_by(cmds.last())
    }
}

/// Takes out of `orders` every order of identifier `id`, keeping the others in order.
fn remove_order(orders: &mut Vec<TradeOrder>, id: u128)
    ensures
        final(orders)@ == without_order(old(orders)@, id),
{
    let ghost original = orders@;
    let mut kept: Vec<TradeOrder> = Vec::new();
    let mut i: usize = 0;
    while i < orders.len()
        invariant
            orders@ == original,
            i <= original.len(),
            kept@ == without_order(original.take(i as int), id),
        decreases original.len() - i,
    {
        proof {
            assert(original.take(i as int + 1).drop_last() =~= original.take(i as int));
        }
        if orders[i].id != id {
            kept.push(orders[i]);
        }
        i = i + 1;
    }
    proof {
        assert(original.take(original.len() as int) =~= original);
    }
    *orders = kept;
}

/// Replaces the first company of the same identifier as `c` by `c`.
fn replace_first_company(companies: &mut Vec<Company>, c: Company)
    ensures
        final(companies)@ == replace_company(old(companies)@, c),
{
    let mut i: usize = 0;
    while i < companies.len()
        invariant
            i <= companies@.len(),
            first_company(companies@, c.id, 0) == first_company(companies@, c.id, i as int),
        ensures
            i <= companies@.len(),
            first_company(companies@, c.id, 0) == first_company(companies@, c.id, i as int),
            i < companies@.len() ==> companies@[i as int].id == c.id,
        decreases companies@.len() - i,
    {
        if companies[i].id == c.id {
            break;
        }
        i = i + 1;
    }
    if i < companies.len() {
        companies.set(i, c);
    }
}

impl ApiEffects {
    /// No effects yet.
    pub fn new() -> (r: ApiEffects)
        ensures
            r.new_companies@ == Seq::<Company>::empty(),
            r.updated_companies@ == Seq::<Company>::empty(),
            r.new_jobs@ == Seq::<ProductionJob>::empty(),
            r.new_orders@ == Seq::<TradeOrder>::empty(),
            r.cancelled_orders@ == Seq::<u128>::empty(),
    {
        ApiEffects {
            new_companies: Vec::new(),
            updated_companies: Vec::new(),
            new_jobs: Vec::new(),
            new_orders: Vec::new(),
            cancelled_orders: Vec::new(),
        }
    }
}

impl GameWorld {
    /// The loop's state as loaded at start-up, with the tick counter at zero.
    pub fn new(
        companies: Vec<Company>,
        recipes: Vec<Recipe>,
        resources: Vec<Resource>,
        markets: Vec<Market>,
        jobs: Vec<ProductionJob>,
        buys: Vec<TradeOrder>,
        sells: Vec<TradeOrder>,
    ) -> (r: GameWorld)
        ensures
            r.engine.tick_count == 0,
            r.companies@ == companies@,
            r.recipes@ == recipes@,
            r.resources@ == resources@,
            r.markets@ == markets@,
            r.jobs@ == jobs@,
            r.buys@ == buys@,
            r.sells@ == sells@,
    {
        GameWorld {
            engine: EconomicEngine::new(),
            companies,
            recipes,
            resources,
            markets,
            jobs,
            buys,
            sells,
        }
    }

    /// Applies one command and records what it did.
    pub fn apply_command(&mut self, cmd: &GameCommand, effects: &mut ApiEffects)
        ensures
            final(self).buys@ == buys_step(old(self).buys@, *cmd),
            final(self).sells@ == sells_step(old(self).sells@, *cmd),
            final(self).companies@ == companies_step(old(self).companies@, *cmd),
            final(self).jobs@ == jobs_step(old(self).jobs@, *cmd),
            final(self).engine == old(self).engine,
            final(self).recipes@ == old(self).recipes@,
            final(self).resources@ == old(self).resources@,
            final(self).markets@ == old(self).markets@,
            final(effects).new_orders@ == old(effects).new_orders@ + placed_by(*cmd),
            final(effects).cancelled_orders@ == old(effects).cancelled_orders@ + cancelled_by(*cmd),
            final(effects).new_companies@ == old(effects).new_companies@ + created_by(*cmd),
            final(effects).updated_companies@ == old(effects).updated_companies@ + updated_by(
                *cmd,
            ),
            final(effects).new_jobs@ == old(effects).new_jobs@ + started_by(*cmd),
    {
        match cmd {
            GameCommand::CreateOrder(order) => {
                match order.order_type {
                    OrderType::Buy => self.buys.push(*order),
                    OrderType::Sell => self.sells.push(*order),
                }
                effects.new_orders.push(*order);
            },
            GameCommand::CancelOrder(order_id) => {
                remove_order(&mut self.buys, *order_id);
                remove_order(&mut self.sells, *order_id);
                effects.cancelled_orders.push(*order_id);
            },
            GameCommand::CreateCompany(company) => {
                self.companies.push(company.clone());
                effects.new_companies.push(company.clone());
            },
            GameCommand::StartProduction(job) => {
                self.jobs.push(*job);
                effects.new_jobs.push(*job);
            },
            GameCommand::UpdateCompany(updated) => {
                replace_first_company(&mut self.companies, updated.clone());
                effects.updated_companies.push(updated.clone());
            },
        }
    }

    /// Applies the commands received since the last tick, in order, and
    /// records what they did.
    pub fn process_commands(&mut self, commands: &[GameCommand]) -> (r: ApiEffects)
        ensures
            final(self).buys@ == buys_after(old(self).buys@, commands@),
            final(self).sells@ == sells_after(old(self).sells@, commands@),
            final(self).companies@ == companies_after(old(self).companies@, commands@),
            final(self).jobs@ == jobs_after(old(self).jobs@, commands@),
            final(self).engine == old(self).engine,
            final(self).recipes@ == old(self).recipes@,
            final(self).resources@ == old(self).resources@,
            final(self).markets@ == old(self).markets@,
            r.new_orders@ == placed_orders(commands@),
            r.cancelled_orders@ == cancelled_ids(commands@),
            r.new_companies@ == created_companies(commands@),
            r.updated_companies@ == company_updates(commands@),
            r.new_jobs@ == started_jobs(commands@),
    {
        let ghost start = *self;
        let mut effects = ApiEffects::new();
        let mut i: usize = 0;
        while i < commands.len()
            invariant
                i <= commands@.len(),
                self.buys@ == buys_after(start.buys@, commands@.take(i as int)),
                self.sells@ == sells_after(start.sells@, commands@.take(i as int)),
                self.companies@ == companies_after(start.companies@, commands@.take(i as int)),
                self.jobs@ == jobs_after(start.jobs@, commands@.take(i as int)),
                self.engine == start.engine,
                self.recipes@ == start.recipes@,
                self.resources@ == start.resources@,
                self.markets@ == start.markets@,
                effects.new_orders@ == placed_orders(commands@.take(i as int)),
                effects.cancelled_orders@ == cancelled_ids(commands@.take(i as int)),
                effects.new_companies@ == created_companies(commands@.take(i as int)),
                effects.updated_companies@ == company_updates(commands@.take(i as int)),
                effects.new_jobs@ == started_jobs(commands@.take(i as int)),
            decreases commands@.len() - i,
        {
            proof {
                let p = commands@.take(i as int + 1);
                assert(p.drop_last() =~= commands@.take(i as int));
                assert(p.last() == commands@[i as int]);
            }
            self.apply_command(&commands[i], &mut effects);
            i = i + 1;
        }
        proof {
            assert(commands@.take(commands@.len() as int) =~= commands@);
        }
        effects
    }

    /// One tick of the loop.  The commands received since the last tick are
    /// applied first; then, when every running job can be advanced, every
    /// amount is a representable decimal and the tick counter can advance,
    /// the engine runs one tick on it and the commands' effects join the
    /// tick's.  Otherwise no tick runs and nothing is returned.
    pub fn step(&mut self, commands: &[GameCommand]) -> (r: Option<TickBatch>)
        ensures
            ({
                let companies = companies_after(old(self).companies@, commands@);
                let jobs = jobs_after(old(self).jobs@, commands@);
                let buys = buys_after(old(self).buys@, commands@);
                let sells = sells_after(old(self).sells@, commands@);
                let runs = old(self).engine.tick_count < u64::MAX && tick_inputs_ok(
                    jobs,
                    old(self).recipes@,
                    old(self).resources@,
                    old(self).markets@,
                    buys,
                    sells,
                );
                &&& final(self).companies@ == companies
                &&& final(self).recipes@ == old(self).recipes@
                &&& final(self).resources@ == old(self).resources@
                &&& (r is Some <==> runs)
                &&& !runs ==> {
                    &&& final(self).engine == old(self).engine
                    &&& final(self).jobs@ == jobs
                    &&& final(self).markets@ == old(self).markets@
                    &&& final(self).buys@ == buys
                    &&& final(self).sells@ == sells
                }
                &&& r matches Some(batch) ==> {
                    &&& batch.tick_count == old(self).engine.tick_count + 1
                    &&& final(self).engine.tick_count == batch.tick_count
                    &&& ticked(
                        companies,
                        jobs,
                        final(self).jobs@,
                        old(self).recipes@,
                        old(self).resources@,
                        old(self).markets@,
                        final(self).markets@,
                        buys,
                        final(self).buys@,
                        sells,
                        final(self).sells@,
                        batch.at,
                        batch.effects,
                    )
                    &&& batch.effects.new_orders@ == placed_orders(commands@)
                    &&& batch.effects.cancelled_orders@ == cancelled_ids(commands@)
                    &&& batch.effects.new_companies@ == created_companies(commands@)
                    &&& batch.effects.updated_companies@ == company_updates(commands@)
                    &&& batch.effects.new_jobs@ == started_jobs(commands@)
                }
            }),
    {
        let api = self.process_commands(commands);
        if self.engine.tick_count == u64::MAX || !tick_admissible(
            self.jobs.as_slice(),
            self.recipes.as_slice(),
            self.resources.as_slice(),
            self.markets.as_slice(),
            self.buys.as_slice(),
            self.sells.as_slice(),
        ) {
            return None;
        }
        let at = current_time();
        let mut effects = self.engine.tick(
            self.companies.as_slice(),
            self.jobs.as_mut_slice(),
            self.recipes.as_slice(),
            self.resources.as_slice(),
            self.markets.as_mut_slice(),
            &mut self.buys,
            &mut self.sells,
            at,
        );
        effects.new_companies = api.new_companies;
        effects.updated_companies = api.updated_companies;
        effects.new_jobs = api.new_jobs;
        effects.new_orders = api.new_orders;
        effects.cancelled_orders = api.cancelled_orders;
        Some(TickBatch { tick_count: self.engine.tick_count, at, effects })
    }
}

// ── Laws ───────────────────────────────────────────────────────────────────
/// Cancelling takes out exactly the orders of the cancelled identifier: what
/// remains is the book filtered on the other identifiers, in order.
pub proof fn law_cancel_filters_the_book(orders: Seq<TradeOrder>, id: u128)
    ensures
        without_order(orders, id) == orders.filter(|o: TradeOrder| o.id != id),
    decreases orders.len(),
{
    reveal_with_fuel(Seq::filter, 1);
    if orders.len() > 0 {
        law_cancel_filters_the_book(orders.drop_last(), id);
    }
}

/// An order that is placed and then cancelled is on neither side of the book.
pub proof fn law_placed_then_cancelled_order_is_gone(
    buys: Seq<TradeOrder>,
    sells: Seq<TradeOrder>,
    order: TradeOrder,
)
    ensures
        ({
            let cmds = seq![GameCommand::CreateOrder(order), GameCommand::CancelOrder(order.id)];
            &&& forall|k: int|
                0 <= k < buys_after(buys, cmds).len() ==> (#[trigger] buys_after(buys, cmds)[k]).id
                    != order.id
            &&& forall|k: int|
                0 <= k < sells_after(sells, cmds).len() ==> (#[trigger] sells_after(
                    sells,
                    cmds,
                )[k]).id != order.id
        }),
{
    let cmds = seq![GameCommand::CreateOrder(order), GameCommand::CancelOrder(order.id)];
    assert(cmds.drop_last().drop_last() =~= Seq::<GameCommand>::empty());
    assert(cmds.drop_last() =~= seq![GameCommand::CreateOrder(order)]);
    lemma_without_has_no_id(buys_after(buys, cmds.drop_last()), order.id);
    lemma_without_has_no_id(sells_after(sells, cmds.drop_last()), order.id);
}

proof fn lemma_without_has_no_id(orders: Seq<TradeOrder>, id: u128)
    ensures
        forall|k: int|
            0 <= k < without_order(orders, id).len() ==> (#[trigger] without_order(orders, id)[k]).id
                != id,
    decreases orders.len(),
{
    if orders.len() > 0 {
        lemma_without_has_no_id(orders.drop_last(), id);
    }
}

/// Updating a company replaces at most one company, the first of its
/// identifier, and leaves the others and their order as they were.
pub proof fn law_update_replaces_first_match(companies: Seq<Company>, c: Company)
    ensures
        replace_company(companies, c).len() == companies.len(),
        first_company(companies, c.id, 0) is None ==> replace_company(companies, c) == companies,
        first_company(companies, c.id, 0) matches Some(k) ==> {
            &&& companies[k].id == c.id
            &&& replace_company(companies, c)[k] == c
            &&& forall|j: int|
                0 <= j < companies.len() && j != k ==> #[trigger] replace_company(companies, c)[j]
                    == companies[j]
            &&& forall|j: int| 0 <= j < k ==> (#[trigger] companies[j]).id != c.id
        },
{
    lemma_first_company(companies, c.id, 0);
}

proof fn lemma_first_company(companies: Seq<Company>, id: u128, from: int)
    requires
        0 <= from,
    ensures
        first_company(companies, id, from) matches Some(k) ==> from <= k < companies.len()
            && companies[k].id == id && forall|j: int|
            from <= j < k ==> (#[trigger] companies[j]).id != id,
    decreases companies.len() - from,
{
    if from < companies.len() && companies[from].id != id {
        lemma_first_company(companies, id, from + 1);
    }
}

} // verus!
