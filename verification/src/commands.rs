//! Player command system.
//!
//! Players act by issuing commands through the terminal client or the REST
//! API.  Each command is a `GameCommand`, validated and carried out by the
//! server, which answers with a `CommandResult`.
use vstd::prelude::*;

use crate::decimal::Decimal;

verus! {

/// A JSON value (`serde_json::Value`), carried through untouched.
#[verifier::external_type_specification]
#[verifier::external_body]
pub struct ExJsonValue(serde_json::Value);

/// Every action a player can take, as a typed command.
#[derive(Debug, Clone)]
pub enum GameCommand {
    // Company management.
    CreateCompany { name: String },
    HireWorkers { company_id: u128, count: i32 },
    BuildFactory { company_id: u128 },
    ResearchTechnology { company_id: u128 },
    FundCompany { company_id: u128, amount: Decimal },
    // Market operations.
    ScanMarket { resource_slug: String },
    ScanAllMarkets,
    ViewOrderBook { resource_slug: String },
    /// `limit` snapshots (50 when absent).
    PriceHistory { resource_slug: String, limit: Option<i32> },
    // Trading.
    /// A limit order: `max_price` per unit at most.
    BuyResource { company_id: u128, resource_slug: String, quantity: Decimal, max_price: Decimal },
    /// A limit order: `min_price` per unit at least.
    SellResource {
        company_id: u128,
        resource_slug: String,
        quantity: Decimal,
        min_price: Decimal,
    },
    CancelOrder { order_id: u128 },
    // Production.
    ListRecipes,
    StartProduction { company_id: u128, recipe_slug: String, batch_size: i32 },
    ViewProduction { company_id: u128 },
    // Information.
    ViewCompany { company_id: u128 },
    ViewInventory { company_id: u128 },
    ViewBalance,
    ListCompanies,
    // Chat.
    GlobalChat { message: String },
}

/// The answer to any command.
#[derive(Debug, Clone)]
pub struct CommandResult {
    pub success: bool,
    pub message: String,
    pub data: Option<serde_json::Value>,
}

impl CommandResult {
    /// A success with a message and optional data.
    pub fn ok(message: String, data: Option<serde_json::Value>) -> (r: Self)
        ensures
            r.success,
            r.message@ == message@,
            r.data == data,
    {
        CommandResult { success: true, message, data }
    }

    /// A failure with a message and no data.
    pub fn err(message: String) -> (r: Self)
        ensures
            !r.success,
            r.message@ == message@,
            r.data is None,
    {
        CommandResult { success: false, message, data: None }
    }
}

} // verus!
