//! How game records are stored: the text of the enumerations in the
//! database's columns, and the assembly of recipes from their rows.  The
//! queries themselves are the database's I/O.
use vstd::prelude::*;

use crate::decimal::Decimal;
use crate::models::{
    OrderStatus, OrderType, ProductionStatus, Recipe, RecipeItem, ResourceCategory,
};
use crate::text::str_equals;

verus! {

// ── Enumerations as text ───────────────────────────────────────────────────
/// The text written for an order side: its name in lower case.
pub open spec fn order_type_text(t: OrderType) -> Seq<char> {
    match t {
        OrderType::Buy => "buy"@,
        OrderType::Sell => "sell"@,
    }
}

/// The text written for an order status: its name in snake case
/// (`partially_filled`), as the status columns are read.
pub open spec fn order_status_text(s: OrderStatus) -> Seq<char> {
    match s {
        OrderStatus::Open => "open"@,
        OrderStatus::PartiallyFilled => "partially_filled"@,
        OrderStatus::Filled => "filled"@,
        OrderStatus::Cancelled => "cancelled"@,
    }
}

/// The text written for a job status: its name in lower case.
pub open spec fn production_status_text(s: ProductionStatus) -> Seq<char> {
    match s {
        ProductionStatus::Running => "running"@,
        ProductionStatus::Completed => "completed"@,
        ProductionStatus::Cancelled => "cancelled"@,
        ProductionStatus::Stalled => "stalled"@,
    }
}

/// The text a column holds for an order status when read: snake case
/// (`partially_filled`).
pub open spec fn order_status_column(s: OrderStatus) -> Seq<char> {
    match s {
        OrderStatus::Open => "open"@,
        OrderStatus::PartiallyFilled => "partially_filled"@,
        OrderStatus::Filled => "filled"@,
        OrderStatus::Cancelled => "cancelled"@,
    }
}

/// The text a column holds for a resource category: snake case.
pub open spec fn category_column(c: ResourceCategory) -> Seq<char> {
    match c {
        ResourceCategory::RawMaterial => "raw_material"@,
        ResourceCategory::Component => "component"@,
        ResourceCategory::FinishedGood => "finished_good"@,
        ResourceCategory::Luxury => "luxury"@,
    }
}

impl OrderType {
    /// The text written to the database for this side.
    pub fn stored_name(&self) -> (r: &'static str)
        ensures
            r@ == order_type_text(*self),
    {
        proof {
            reveal_strlit("buy");
            reveal_strlit("sell");
        }
        match self {
            OrderType::Buy => "buy",
            OrderType::Sell => "sell",
        }
    }

    /// The side a column's text names.
    pub fn from_column(s: &str) -> (r: Option<OrderType>)
        ensures
            r matches Some(t) ==> order_type_text(t) == s@,
            r is None ==> forall|t: OrderType| order_type_text(t) != s@,
    {
        if str_equals(s, "buy") {
            proof {
                reveal_strlit("buy");
            }
            Some(OrderType::Buy)
        } else if str_equals(s, "sell") {
            proof {
                reveal_strlit("sell");
            }
            Some(OrderType::Sell)
        } else {
            None
        }
    }
}

impl OrderStatus {
    /// The text written to the database for this status.
    pub fn stored_name(&self) -> (r: &'static str)
        ensures
            r@ == order_status_text(*self),
    {
        match self {
            OrderStatus::Open => "open",
            OrderStatus::PartiallyFilled => "partially_filled",
            OrderStatus::Filled => "filled",
            OrderStatus::Cancelled => "cancelled",
        }
    }

    /// The status a column's text names.
    pub fn from_column(s: &str) -> (r: Option<OrderStatus>)
        ensures
            r matches Some(t) ==> order_status_column(t) == s@,
            r is None ==> forall|t: OrderStatus| order_status_column(t) != s@,
    {
        if str_equals(s, "open") {
            Some(OrderStatus::Open)
        } else if str_equals(s, "partially_filled") {
            Some(OrderStatus::PartiallyFilled)
        } else if str_equals(s, "filled") {
            Some(OrderStatus::Filled)
        } else if str_equals(s, "cancelled") {
            Some(OrderStatus::Cancelled)
        } else {
            None
        }
    }
}

impl ProductionStatus {
    /// The text written to the database for this status.
    pub fn stored_name(&self) -> (r: &'static str)
        ensures
            r@ == production_status_text(*self),
    {
        match self {
            ProductionStatus::Running => "running",
            ProductionStatus::Completed => "completed",
            ProductionStatus::Cancelled => "cancelled",
            ProductionStatus::Stalled => "stalled",
        }
    }

    /// The status a column's text names.
    pub fn from_column(s: &str) -> (r: Option<ProductionStatus>)
        ensures
            r matches Some(t) ==> production_status_text(t) == s@,
            r is None ==> forall|t: ProductionStatus| production_status_text(t) != s@,
    {
        if str_equals(s, "running") {
            Some(ProductionStatus::Running)
        } else if str_equals(s, "completed") {
            Some(ProductionStatus::Completed)
        } else if str_equals(s, "cancelled") {
            Some(ProductionStatus::Cancelled)
        } else if str_equals(s, "stalled") {
            Some(ProductionStatus::Stalled)
        } else {
            None
        }
    }
}

impl ResourceCategory {
    /// The text a column holds for this category.
    pub fn column_name(&self) -> (r: &'static str)
        ensures
            r@ == category_column(*self),
    {
        match self {
            ResourceCategory::RawMaterial => "raw_material",
            ResourceCategory::Component => "component",
            ResourceCategory::FinishedGood => "finished_good",
            ResourceCategory::Luxury => "luxury",
        }
    }

    /// The category a column's text names.
    pub fn from_column(s: &str) -> (r: Option<ResourceCategory>)
        ensures
            r matches Some(t) ==> category_column(t) == s@,
            r is None ==> forall|t: ResourceCategory| category_column(t) != s@,
    {
        if str_equals(s, "raw_material") {
            Some(ResourceCategory::RawMaterial)
        } else if str_equals(s, "component") {
            Some(ResourceCategory::Component)
        } else if str_equals(s, "finished_good") {
            Some(ResourceCategory::FinishedGood)
        } else if str_equals(s, "luxury") {
            Some(ResourceCategory::Luxury)
        } else {
            None
        }
    }
}

/// Reading back the column text of a status gives the status.
pub proof fn law_order_status_column_round_trip(s: OrderStatus, t: OrderStatus)
    requires
        order_status_column(t) == order_status_column(s),
    ensures
        t == s,
{
    reveal_strlit("open");
    reveal_strlit("partially_filled");
    reveal_strlit("filled");
    reveal_strlit("cancelled");
    assert("open"@.len() == 4);
    assert("partially_filled"@.len() == 16);
    assert("filled"@.len() == 6);
    assert("cancelled"@.len() == 9);
    match t {
        OrderStatus::Open => assert(order_status_column(s).len() == 4),
        OrderStatus::PartiallyFilled => assert(order_status_column(s).len() == 16),
        OrderStatus::Filled => assert(order_status_column(s).len() == 6),
        OrderStatus::Cancelled => assert(order_status_column(s).len() == 9),
    }
}

/// Reading back the stored text of a job status gives the status.
pub proof fn law_production_status_round_trip(s: ProductionStatus, t: ProductionStatus)
    requires
        production_status_text(t) == production_status_text(s),
    ensures
        t == s,
{
    reveal_strlit("running");
    reveal_strlit("completed");
    reveal_strlit("cancelled");
    reveal_strlit("stalled");
    let a = production_status_text(t);
    let b = production_status_text(s);
    assert(a[0] == b[0] && a[1] == b[1]);
    assert("running"@[0] == 'r' && "stalled"@[0] == 's' && "completed"@[0] == 'c'
        && "cancelled"@[0] == 'c');
    assert("completed"@[1] == 'o' && "cancelled"@[1] == 'a');
}

/// The text written for an order status is read back as that status.
pub proof fn law_stored_order_status_reads_back(s: OrderStatus, t: OrderStatus)
    requires
        order_status_column(t) == order_status_text(s),
    ensures
        t == s,
{
    law_order_status_column_round_trip(s, t);
}

// ── Recipes from their rows ────────────────────────────────────────────────
/// A row of the recipe table.
#[derive(Debug, Clone)]
pub struct RecipeRow {
    pub id: u128,
    pub slug: String,
    pub name: String,
    pub ticks_required: i32,
    pub min_tech_level: i32,
    pub workers_required: i32,
}

/// A row of the recipe item table: an input or output of a recipe.
#[derive(Debug, Clone)]
pub struct RecipeItemRow {
    pub id: u128,
    pub recipe_id: u128,
    pub resource_id: u128,
    pub resource_slug: String,
    pub quantity: Decimal,
    /// `input` or `output`.
    pub direction: String,
}

/// The item rows of recipe `rid` in direction `dir`, in order.
pub open spec fn items_of(items: Seq<RecipeItemRow>, rid: u128, dir: Seq<char>) -> Seq<RecipeItemRow>
    decreases items.len(),
{
    if items.len() == 0 {
        Seq::empty()
    } else if items.last().recipe_id == rid && items.last().direction@ == dir {
        items_of(items.drop_last(), rid, dir).push(items.last())
    } else {
        items_of(items.drop_last(), rid, dir)
    }
}

/// `a` holds the items of the rows `b`, one for one.
pub open spec fn items_match(a: Seq<RecipeItem>, b: Seq<RecipeItemRow>) -> bool {
    &&& a.len() == b.len()
    &&& forall|j: int|
        0 <= j < a.len() ==> {
            &&& (#[trigger] a[j]).resource_id == b[j].resource_id
            &&& a[j].resource_slug@ == b[j].resource_slug@
            &&& a[j].quantity == b[j].quantity
        }
}

/// `r` is the recipe of row `row` with the item rows `items`.
pub open spec fn assembled(r: Recipe, row: RecipeRow, items: Seq<RecipeItemRow>) -> bool {
    &&& r.id == row.id
    &&& r.slug@ == row.slug@
    &&& r.name@ == row.name@
    &&& r.ticks_required == row.ticks_required
    &&& r.min_tech_level == row.min_tech_level
    &&& r.workers_required == row.workers_required
    &&& items_match(r.inputs@, items_of(items, row.id, "input"@))
    &&& items_match(r.outputs@, items_of(items, row.id, "output"@))
}

/// The items of recipe `rid` in direction `dir`, in the order of the rows.
fn collect_items(items: &[RecipeItemRow], rid: u128, dir: &str) -> (r: Vec<RecipeItem>)
    ensures
        items_match(r@, items_of(items@, rid, dir@)),
{
    let mut out: Vec<RecipeItem> = Vec::new();
    let mut i: usize = 0;
    while i < items.len()
        invariant
            i <= items@.len(),
            items_match(out@, items_of(items@.take(i as int), rid, dir@)),
        decreases items@.len() - i,
    {
        proof {
            let p = items@.take(i as int + 1);
            assert(p.drop_last() =~= items@.take(i as int));
            assert(p.last() == items@[i as int]);
        }
        let row = &items[i];
        if row.recipe_id == rid && str_equals(row.direction.as_str(), dir) {
            out.push(
                RecipeItem {
                    resource_id: row.resource_id,
                    resource_slug: row.resource_slug.clone(),
                    quantity: row.quantity,
                },
            );
        }
        i = i + 1;
    }
    proof {
        assert(items@.take(items@.len() as int) =~= items@);
    }
    out
}

/// Assembles the recipes from their rows: each recipe row, in order, with
/// its input and output item rows in the order of the item rows.
pub fn assemble_recipes(rows: &[RecipeRow], items: &[RecipeItemRow]) -> (r: Vec<Recipe>)
    ensures
        r@.len() == rows@.len(),
        forall|k: int| 0 <= k < rows@.len() ==> assembled(#[trigger] r@[k], rows@[k], items@),
{
    let mut out: Vec<Recipe> = Vec::new();
    let mut k: usize = 0;
    while k < rows.len()
        invariant
            k <= rows@.len(),
            out@.len() == k,
            forall|j: int| 0 <= j < k ==> assembled(#[trigger] out@[j], rows@[j], items@),
        decreases rows@.len() - k,
    {
        let row = &rows[k];
        let inputs = collect_items(items, row.id, "input");
        let outputs = collect_items(items, row.id, "output");
        out.push(
            Recipe {
                id: row.id,
                slug: row.slug.clone(),
                name: row.name.clone(),
                inputs,
                outputs,
                ticks_required: row.ticks_required,
                min_tech_level: row.min_tech_level,
                workers_required: row.workers_required,
            },
        );
        k = k + 1;
    }
    out
}

} // verus!
