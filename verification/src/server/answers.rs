//! What the command endpoint answers: the message for each outcome of a
//! command.  The data that goes with a success (the new order or job, as
//! JSON) is attached around these.
use vstd::prelude::*;
use vstd::string::StringExecFns;

use crate::commands::CommandResult;
use crate::decimal::{decimal_text, wf, Decimal};
use crate::engine::production::{error_amounts_wf, ProductionError};
use crate::models::{Market, OrderType};
use crate::server::command::{
    factory_amounts_wf, hire_amounts_wf, order_amounts_wf, research_amounts_wf, FactoryOutcome,
    HireOutcome, OrderOutcome, ResearchOutcome, StartOutcome,
};
use crate::text::{int_text, int_to_text};

verus! {

/// A decimal's text.
pub open spec fn dec_text(d: Decimal) -> Seq<char> {
    decimal_text(d@)
}

/// The answer to a command that the treasury cannot pay for.
pub open spec fn shortfall_text(need: Decimal, have: Decimal) -> Seq<char> {
    "Insufficient treasury: need "@ + dec_text(need) + ", have "@ + dec_text(have)
}

/// Why the production engine refused a job, in words.
pub open spec fn production_error_spec(e: ProductionError) -> Seq<char> {
    match e {
        ProductionError::InsufficientTech { have, need } => "Company tech level "@ + int_text(
            have as int,
        ) + " is below required "@ + int_text(need as int),
        ProductionError::InsufficientWorkers { have, need } => "Not enough workers: have "@
            + int_text(have as int) + ", need "@ + int_text(need as int),
        ProductionError::InsufficientResource { slug, have, need } => "Missing resource "@ + slug@
            + ": have "@ + dec_text(have) + ", need "@ + dec_text(need),
    }
}

/// The answer to hiring `count` workers.
pub open spec fn hire_text(count: i32, o: HireOutcome) -> Seq<char> {
    match o {
        HireOutcome::Hired { new_total, .. } => "Hired "@ + int_text(count as int)
            + " workers (total: "@ + int_text(new_total as int) + ")"@,
        HireOutcome::OverCapacity { count, capacity, workers } => "Cannot hire "@ + int_text(
            count as int,
        ) + ": capacity is "@ + int_text(capacity as int) + ", currently have "@ + int_text(
            workers as int,
        ),
        HireOutcome::InsufficientTreasury { need, have } => shortfall_text(need, have),
    }
}

/// The answer to building a factory.
pub open spec fn factory_text(o: FactoryOutcome) -> Seq<char> {
    match o {
        FactoryOutcome::Built { factories, worker_capacity, .. } => "Factory built! Total: "@
            + int_text(factories as int) + ". New capacity: "@ + int_text(worker_capacity as int)
            + " workers"@,
        FactoryOutcome::InsufficientTreasury { need, have } => shortfall_text(need, have),
    }
}

/// The answer to researching the next tech level.
pub open spec fn research_text(o: ResearchOutcome) -> Seq<char> {
    match o {
        ResearchOutcome::Researched { new_level, .. } => "Research complete! Tech level: "@
            + int_text(new_level as int),
        ResearchOutcome::InsufficientTreasury { need, have } => shortfall_text(need, have),
    }
}

/// The answer to placing a buy or sell order of `quantity` of `slug` at
/// `price`.
pub open spec fn order_text(
    side: OrderType,
    slug: Seq<char>,
    quantity: Decimal,
    price: Decimal,
    o: OrderOutcome,
) -> Seq<char> {
    match o {
        OrderOutcome::Placed(_) => (if side == OrderType::Buy {
            "Buy"@
        } else {
            "Sell"@
        }) + " order placed: "@ + dec_text(quantity) + " "@ + slug + " @ "@ + dec_text(price)
            + ". Awaiting execution."@,
        OrderOutcome::InsufficientTreasury { need, have } => shortfall_text(need, have),
        OrderOutcome::InsufficientInventory { have, want } => "Insufficient inventory: have "@
            + dec_text(have) + ", trying to sell "@ + dec_text(want),
    }
}

/// The answer to starting `batch` runs of the recipe called `slug`, named
/// `name` and taking `ticks` ticks.
pub open spec fn start_text(
    slug: Seq<char>,
    batch: i32,
    name: Seq<char>,
    ticks: i32,
    o: StartOutcome,
) -> Seq<char> {
    match o {
        StartOutcome::Started { .. } => "Production started: "@ + name + " x"@ + int_text(
            batch as int,
        ) + " ("@ + int_text(ticks as int) + " ticks)"@,
        StartOutcome::UnknownRecipe => "Unknown recipe: "@ + slug,
        StartOutcome::Refused(e) => "Cannot start production: "@ + production_error_spec(e),
    }
}

/// The answer to scanning the market of `slug`.
pub open spec fn scan_text(slug: Seq<char>, m: Market) -> Seq<char> {
    slug + ": price="@ + dec_text(m.last_price) + " ema="@ + dec_text(m.ema_price) + " supply="@
        + dec_text(m.total_supply) + " demand="@ + dec_text(m.total_demand)
}

/// `a` followed by `b`.
fn cat(a: &str, b: &str) -> (r: String)
    ensures
        r@ == a@ + b@,
{
    let mut s = a.to_owned();
    s.append(b);
    s
}

fn int_string(n: i32) -> (r: String)
    ensures
        r@ == int_text(n as int),
{
    int_to_text(n as i64)
}

fn shortfall(need: Decimal, have: Decimal) -> (r: String)
    requires
        wf(need),
        wf(have),
    ensures
        r@ == shortfall_text(need, have),
{
    let mut s = cat("Insufficient treasury: need ", need.to_text().as_str());
    s.append(", have ");
    s.append(have.to_text().as_str());
    s
}

/// Why the production engine refused a job, in words.
pub fn production_error_text(e: &ProductionError) -> (r: String)
    requires
        error_amounts_wf(*e),
    ensures
        r@ == production_error_spec(*e),
{
    match e {
        ProductionError::InsufficientTech { have, need } => {
            let mut s = cat("Company tech level ", int_string(*have).as_str());
            s.append(" is below required ");
            s.append(int_string(*need).as_str());
            s
        },
        ProductionError::InsufficientWorkers { have, need } => {
            let mut s = cat("Not enough workers: have ", int_string(*have).as_str());
            s.append(", need ");
            s.append(int_string(*need).as_str());
            s
        },
        ProductionError::InsufficientResource { slug, have, need } => {
            let mut s = cat("Missing resource ", slug.as_str());
            s.append(": have ");
            s.append(have.to_text().as_str());
            s.append(", need ");
            s.append(need.to_text().as_str());
            s
        },
    }
}

/// The answer to hiring `count` workers.
pub fn hire_answer(count: i32, o: &HireOutcome) -> (r: CommandResult)
    requires
        hire_amounts_wf(*o),
    ensures
        r.success == (*o is Hired),
        r.message@ == hire_text(count, *o),
        r.data is None,
{
    match o {
        HireOutcome::Hired { new_total, .. } => {
            let mut s = cat("Hired ", int_string(count).as_str());
            s.append(" workers (total: ");
            s.append(int_string(*new_total).as_str());
            s.append(")");
            CommandResult::ok(s, None)
        },
        HireOutcome::OverCapacity { count, capacity, workers } => {
            let mut s = cat("Cannot hire ", int_string(*count).as_str());
            s.append(": capacity is ");
            s.append(int_string(*capacity).as_str());
            s.append(", currently have ");
            s.append(int_string(*workers).as_str());
            CommandResult::err(s)
        },
        HireOutcome::InsufficientTreasury { need, have } => CommandResult::err(
            shortfall(*need, *have),
        ),
    }
}

/// The answer to building a factory.
pub fn factory_answer(o: &FactoryOutcome) -> (r: CommandResult)
    requires
        factory_amounts_wf(*o),
    ensures
        r.success == (*o is Built),
        r.message@ == factory_text(*o),
        r.data is None,
{
    match o {
        FactoryOutcome::Built { factories, worker_capacity, .. } => {
            let mut s = cat("Factory built! Total: ", int_string(*factories).as_str());
            s.append(". New capacity: ");
            s.append(int_string(*worker_capacity).as_str());
            s.append(" workers");
            CommandResult::ok(s, None)
        },
        FactoryOutcome::InsufficientTreasury { need, have } => CommandResult::err(
            shortfall(*need, *have),
        ),
    }
}

/// The answer to researching the next tech level.
pub fn research_answer(o: &ResearchOutcome) -> (r: CommandResult)
    requires
        research_amounts_wf(*o),
    ensures
        r.success == (*o is Researched),
        r.message@ == research_text(*o),
        r.data is None,
{
    match o {
        ResearchOutcome::Researched { new_level, .. } => {
            let s = cat("Research complete! Tech level: ", int_string(*new_level).as_str());
            CommandResult::ok(s, None)
        },
        ResearchOutcome::InsufficientTreasury { need, have } => CommandResult::err(
            shortfall(*need, *have),
        ),
    }
}

/// The answer to placing a buy or sell order of `quantity` of `slug` at
/// `price`; the placed order is attached around it.
pub fn order_answer(
    side: OrderType,
    slug: &str,
    quantity: Decimal,
    price: Decimal,
    o: &OrderOutcome,
) -> (r: CommandResult)
    requires
        wf(quantity),
        wf(price),
        order_amounts_wf(*o),
    ensures
        r.success == (*o is Placed),
        r.message@ == order_text(side, slug@, quantity, price, *o),
        r.data is None,
{
    match o {
        OrderOutcome::Placed(_) => {
            let mut s = match side {
                OrderType::Buy => "Buy".to_owned(),
                OrderType::Sell => "Sell".to_owned(),
            };
            s.append(" order placed: ");
            s.append(quantity.to_text().as_str());
            s.append(" ");
            s.append(slug);
            s.append(" @ ");
            s.append(price.to_text().as_str());
            s.append(". Awaiting execution.");
            CommandResult::ok(s, None)
        },
        OrderOutcome::InsufficientTreasury { need, have } => CommandResult::err(
            shortfall(*need, *have),
        ),
        OrderOutcome::InsufficientInventory { have, want } => {
            let mut s = cat("Insufficient inventory: have ", have.to_text().as_str());
            s.append(", trying to sell ");
            s.append(want.to_text().as_str());
            CommandResult::err(s)
        },
    }
}

/// The answer to starting `batch` runs of the recipe called `slug`, named
/// `name` and taking `ticks` ticks; the new job is attached around it.
pub fn start_answer(
    slug: &str,
    batch: i32,
    name: &str,
    ticks: i32,
    o: &StartOutcome,
) -> (r: CommandResult)
    requires
        *o matches StartOutcome::Refused(e) ==> error_amounts_wf(e),
    ensures
        r.success == (*o is Started),
        r.message@ == start_text(slug@, batch, name@, ticks, *o),
        r.data is None,
{
    match o {
        StartOutcome::Started { .. } => {
            let mut s = cat("Production started: ", name);
            s.append(" x");
            s.append(int_string(batch).as_str());
            s.append(" (");
            s.append(int_string(ticks).as_str());
            s.append(" ticks)");
            CommandResult::ok(s, None)
        },
        StartOutcome::UnknownRecipe => CommandResult::err(cat("Unknown recipe: ", slug)),
        StartOutcome::Refused(e) => CommandResult::err(
            cat("Cannot start production: ", production_error_text(e).as_str()),
        ),
    }
}

/// The answer to scanning the market of `slug`.
pub fn scan_message(slug: &str, m: &Market) -> (r: String)
    requires
        wf(m.last_price),
        wf(m.ema_price),
        wf(m.total_supply),
        wf(m.total_demand),
    ensures
        r@ == scan_text(slug@, *m),
{
    let mut s = cat(slug, ": price=");
    s.append(m.last_price.to_text().as_str());
    s.append(" ema=");
    s.append(m.ema_price.to_text().as_str());
    s.append(" supply=");
    s.append(m.total_supply.to_text().as_str());
    s.append(" demand=");
    s.append(m.total_demand.to_text().as_str());
    s
}

/// The answer to founding a company called `name`.
pub fn created_message(name: &str) -> (r: String)
    ensures
        r@ == "Company '"@ + name@ + "' created"@,
{
    let mut s = cat("Company '", name);
    s.append("' created");
    s
}

/// The answer to moving `amount` into a company's treasury.
pub fn funded_message(amount: Decimal) -> (r: String)
    requires
        wf(amount),
    ensures
        r@ == "Funded company with "@ + dec_text(amount),
{
    cat("Funded company with ", amount.to_text().as_str())
}

/// The answer to a command that names a resource that does not exist.
pub fn unknown_resource_message(slug: &str) -> (r: String)
    ensures
        r@ == "Unknown resource: "@ + slug@,
{
    cat("Unknown resource: ", slug)
}

} // verus!
