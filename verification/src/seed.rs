//! The game world a new database starts with: the resources, each with its
//! market, and the production recipes.
use vstd::prelude::*;

use crate::decimal::Decimal;
use crate::models::{current_time, fresh_id, Market, Recipe, RecipeItem, Resource, ResourceCategory};
use crate::text::str_equals;

verus! {

/// A resource of the starting world: slug, name, category, base price and
/// NPC units per tick.
pub open spec fn resource_table() -> Seq<(Seq<char>, Seq<char>, ResourceCategory, int, int)> {
    seq![
        ("copper"@, "Copper Ore"@, ResourceCategory::RawMaterial, 50, 100),
        ("silicon"@, "Silicon"@, ResourceCategory::RawMaterial, 60, 80),
        ("lithium"@, "Lithium"@, ResourceCategory::RawMaterial, 120, 40),
        ("iron"@, "Iron Ore"@, ResourceCategory::RawMaterial, 40, 120),
        ("plastic"@, "Plastic"@, ResourceCategory::RawMaterial, 30, 150),
        ("oil"@, "Crude Oil"@, ResourceCategory::RawMaterial, 80, 60),
        ("steel"@, "Steel"@, ResourceCategory::Component, 100, 0),
        ("electronics"@, "Electronics"@, ResourceCategory::Component, 200, 0),
        ("battery_pack"@, "Battery Pack"@, ResourceCategory::Component, 350, 0),
        ("fuel"@, "Refined Fuel"@, ResourceCategory::Component, 150, 0),
        ("machines"@, "Industrial Machines"@, ResourceCategory::FinishedGood, 800, 0),
        ("vehicles"@, "Vehicles"@, ResourceCategory::FinishedGood, 1200, 0),
        ("consumer_tech"@, "Consumer Tech"@, ResourceCategory::FinishedGood, 600, 0),
        ("luxury_goods"@, "Luxury Goods"@, ResourceCategory::Luxury, 2000, 0),
    ]
}

/// A recipe of the starting world: slug, name, ticks, minimum tech level and
/// workers.
pub open spec fn recipe_table() -> Seq<(Seq<char>, Seq<char>, i32, i32, i32)> {
    seq![
        ("smelt_steel"@, "Smelt Steel"@, 2, 0, 5),
        ("make_electronics"@, "Manufacture Electronics"@, 3, 1, 8),
        ("make_battery"@, "Assemble Battery Pack"@, 4, 1, 6),
        ("refine_fuel"@, "Refine Fuel"@, 2, 0, 4),
        ("build_machines"@, "Build Machines"@, 5, 2, 12),
        ("build_vehicles"@, "Build Vehicles"@, 6, 2, 15),
        ("make_consumer_tech"@, "Make Consumer Tech"@, 3, 1, 10),
        ("make_luxury"@, "Produce Luxury Goods"@, 8, 3, 20),
    ]
}

/// The inputs of recipe `k` of the starting world: resource slug and units.
pub open spec fn recipe_inputs(k: int) -> Seq<(Seq<char>, int)> {
    if k == 0 {
        seq![("iron"@, 3)]
    } else if k == 1 {
        seq![("copper"@, 2), ("silicon"@, 1)]
    } else if k == 2 {
        seq![("lithium"@, 2), ("copper"@, 1), ("plastic"@, 1)]
    } else if k == 3 {
        seq![("oil"@, 3)]
    } else if k == 4 {
        seq![("steel"@, 3), ("electronics"@, 2)]
    } else if k == 5 {
        seq![("steel"@, 4), ("electronics"@, 2), ("battery_pack"@, 1), ("fuel"@, 2)]
    } else if k == 6 {
        seq![("electronics"@, 2), ("plastic"@, 2), ("battery_pack"@, 1)]
    } else {
        seq![("consumer_tech"@, 2), ("vehicles"@, 1), ("machines"@, 1)]
    }
}

/// The outputs of recipe `k` of the starting world: resource slug and units.
pub open spec fn recipe_outputs(k: int) -> Seq<(Seq<char>, int)> {
    if k == 0 {
        seq![("steel"@, 1)]
    } else if k == 1 {
        seq![("electronics"@, 1)]
    } else if k == 2 {
        seq![("battery_pack"@, 1)]
    } else if k == 3 {
        seq![("fuel"@, 2)]
    } else if k == 4 {
        seq![("machines"@, 1)]
    } else if k == 5 {
        seq![("vehicles"@, 1)]
    } else if k == 6 {
        seq![("consumer_tech"@, 2)]
    } else {
        seq![("luxury_goods"@, 1)]
    }
}

/// `d` is the whole number `n`.
pub open spec fn whole_amount(d: Decimal, n: int) -> bool {
    d.mantissa == n && d.scale == 0
}

/// `r` is resource `k` of the starting world (identifier aside).
pub open spec fn seeded_resource(r: Resource, k: int) -> bool {
    let t = resource_table()[k];
    &&& r.slug@ == t.0
    &&& r.name@ == t.1
    &&& r.category == t.2
    &&& whole_amount(r.base_price, t.3)
    &&& whole_amount(r.spawn_rate, t.4)
}

/// The position of the first resource called `slug`.
pub open spec fn resource_named(resources: Seq<Resource>, slug: Seq<char>, from: int) -> Option<int>
    decreases resources.len() - from,
{
    if from < 0 || from >= resources.len() {
        None
    } else if resources[from].slug@ == slug {
        Some(from)
    } else {
        resource_named(resources, slug, from + 1)
    }
}

/// `items` are the items `table`, each naming the first resource of its slug.
pub open spec fn seeded_items(items: Seq<RecipeItem>, table: Seq<(Seq<char>, int)>, resources: Seq<Resource>) -> bool {
    &&& items.len() == table.len()
    &&& forall|j: int|
        0 <= j < items.len() ==> {
            &&& (#[trigger] items[j]).resource_slug@ == table[j].0
            &&& whole_amount(items[j].quantity, table[j].1)
            &&& resource_named(resources, table[j].0, 0) matches Some(p) && items[j].resource_id
                == resources[p].id
        }
}

/// `r` is recipe `k` of the starting world (identifier aside), its items
/// naming `resources`.
pub open spec fn seeded_recipe(r: Recipe, k: int, resources: Seq<Resource>) -> bool {
    let t = recipe_table()[k];
    &&& r.slug@ == t.0
    &&& r.name@ == t.1
    &&& r.ticks_required == t.2
    &&& r.min_tech_level == t.3
    &&& r.workers_required == t.4
    &&& seeded_items(r.inputs@, recipe_inputs(k), resources)
    &&& seeded_items(r.outputs@, recipe_outputs(k), resources)
}

fn resource(slug: &str, name: &str, category: ResourceCategory, base: i32, spawn: i32) -> (r: Resource)
    ensures
        r.slug@ == slug@,
        r.name@ == name@,
        r.category == category,
        whole_amount(r.base_price, base as int),
        whole_amount(r.spawn_rate, spawn as int),
{
    Resource {
        id: fresh_id(),
        slug: slug.to_owned(),
        name: name.to_owned(),
        category,
        base_price: Decimal::from_i32(base),
        spawn_rate: Decimal::from_i32(spawn),
    }
}

/// The resources of the starting world, each with a fresh identifier.
pub fn seed_resources() -> (r: Vec<Resource>)
    ensures
        r@.len() == resource_table().len(),
        forall|k: int| 0 <= k < r@.len() ==> seeded_resource(#[trigger] r@[k], k),
{
    let mut v: Vec<Resource> = Vec::new();
    v.push(resource("copper", "Copper Ore", ResourceCategory::RawMaterial, 50, 100));
    v.push(resource("silicon", "Silicon", ResourceCategory::RawMaterial, 60, 80));
    v.push(resource("lithium", "Lithium", ResourceCategory::RawMaterial, 120, 40));
    v.push(resource("iron", "Iron Ore", ResourceCategory::RawMaterial, 40, 120));
    v.push(resource("plastic", "Plastic", ResourceCategory::RawMaterial, 30, 150));
    v.push(resource("oil", "Crude Oil", ResourceCategory::RawMaterial, 80, 60));
    v.push(resource("steel", "Steel", ResourceCategory::Component, 100, 0));
    v.push(resource("electronics", "Electronics", ResourceCategory::Component, 200, 0));
    v.push(resource("battery_pack", "Battery Pack", ResourceCategory::Component, 350, 0));
    v.push(resource("fuel", "Refined Fuel", ResourceCategory::Component, 150, 0));
    v.push(resource("machines", "Industrial Machines", ResourceCategory::FinishedGood, 800, 0));
    v.push(resource("vehicles", "Vehicles", ResourceCategory::FinishedGood, 1200, 0));
    v.push(resource("consumer_tech", "Consumer Tech", ResourceCategory::FinishedGood, 600, 0));
    v.push(resource("luxury_goods", "Luxury Goods", ResourceCategory::Luxury, 2000, 0));
    v
}

/// The position of the first resource called `slug`.
fn find_resource(resources: &[Resource], slug: &str) -> (r: Option<usize>)
    ensures
        r matches Some(p) ==> resource_named(resources@, slug@, 0) == Some(p as int) && p < resources@.len(),
        r is None ==> resource_named(resources@, slug@, 0) is None,
{
    let mut p: usize = 0;
    while p < resources.len()
        invariant
            p <= resources@.len(),
            resource_named(resources@, slug@, 0) == resource_named(resources@, slug@, p as int),
        decreases resources@.len() - p,
    {
        if str_equals(resources[p].slug.as_str(), slug) {
            return Some(p);
        }
        p = p + 1;
    }
    None
}

/// The recipe item of `qty` units of the first resource called `slug`, or
/// `None` when no resource is called so.
fn item(resources: &[Resource], slug: &str, qty: i32) -> (r: Option<RecipeItem>)
    ensures
        r matches Some(it) ==> {
            &&& it.resource_slug@ == slug@
            &&& whole_amount(it.quantity, qty as int)
            &&& resource_named(resources@, slug@, 0) matches Some(p) && it.resource_id
                == resources@[p].id
        },
        r is None ==> resource_named(resources@, slug@, 0) is None,
{
    match find_resource(resources, slug) {
        Some(p) => Some(
            RecipeItem {
                resource_id: resources[p].id,
                resource_slug: slug.to_owned(),
                quantity: Decimal::from_i32(qty),
            },
        ),
        None => None,
    }
}

/// Every resource slug of the recipe table names a resource of `resources`.
pub open spec fn names_every_item(resources: Seq<Resource>) -> bool {
    forall|k: int, j: int|
        0 <= k < recipe_table().len() ==> {
            &&& (0 <= j < recipe_inputs(k).len() ==> resource_named(
                resources,
                #[trigger] recipe_inputs(k)[j].0,
                0,
            ) is Some)
            &&& (0 <= j < recipe_outputs(k).len() ==> resource_named(
                resources,
                #[trigger] recipe_outputs(k)[j].0,
                0,
            ) is Some)
        }
}

proof fn lemma_named_item(resources: Seq<Resource>, k: int, j: int, output: bool)
    requires
        names_every_item(resources),
        0 <= k < recipe_table().len(),
        output ==> 0 <= j < recipe_outputs(k).len(),
        !output ==> 0 <= j < recipe_inputs(k).len(),
    ensures
        output ==> resource_named(resources, recipe_outputs(k)[j].0, 0) is Some,
        !output ==> resource_named(resources, recipe_inputs(k)[j].0, 0) is Some,
{
    if output {
        assert(resource_named(resources, recipe_outputs(k)[j].0, 0) is Some);
    } else {
        assert(resource_named(resources, recipe_inputs(k)[j].0, 0) is Some);
    }
}

/// The recipes of the starting world, each with a fresh identifier and its
/// items naming the first resource of their slug; `None` when a slug names
/// no resource.
pub fn seed_recipes(resources: &[Resource]) -> (r: Option<Vec<Recipe>>)
    ensures
        r is Some <==> names_every_item(resources@),
        r matches Some(v) ==> v@.len() == recipe_table().len() && forall|k: int|
            0 <= k < v@.len() ==> seeded_recipe(#[trigger] v@[k], k, resources@),
{
    let mut v: Vec<Recipe> = Vec::new();
    // Smelt Steel.
    let mut inputs_0: Vec<RecipeItem> = Vec::new();
    match item(resources, "iron", 3) {
        Some(it) => inputs_0.push(it),
        None => {
            proof {
                assert(recipe_table().len() == 8);
                assert(recipe_inputs(0)[0].0 == "iron"@);
                let slug = recipe_inputs(0)[0].0;
                assert(resource_named(resources@, slug, 0) is None);
                assert(recipe_inputs(0).len() > 0);
                if names_every_item(resources@) {
                    lemma_named_item(resources@, 0, 0, false);
                }
            }
            return None;
        },
    }
    let mut outputs_0: Vec<RecipeItem> = Vec::new();
    match item(resources, "steel", 1) {
        Some(it) => outputs_0.push(it),
        None => {
            proof {
                assert(recipe_table().len() == 8);
                assert(recipe_outputs(0)[0].0 == "steel"@);
                let slug = recipe_outputs(0)[0].0;
                assert(resource_named(resources@, slug, 0) is None);
                assert(recipe_outputs(0).len() > 0);
                if names_every_item(resources@) {
                    lemma_named_item(resources@, 0, 0, true);
                }
            }
            return None;
        },
    }
    v.push(
        Recipe {
            id: fresh_id(),
            slug: "smelt_steel".to_owned(),
            name: "Smelt Steel".to_owned(),
            inputs: inputs_0,
            outputs: outputs_0,
            ticks_required: 2,
            min_tech_level: 0,
            workers_required: 5,
        },
    );
    // Manufacture Electronics.
    let mut inputs_1: Vec<RecipeItem> = Vec::new();
    match item(resources, "copper", 2) {
        Some(it) => inputs_1.push(it),
        None => {
            proof {
                assert(recipe_table().len() == 8);
                assert(recipe_inputs(1)[0].0 == "copper"@);
                let slug = recipe_inputs(1)[0].0;
                assert(resource_named(resources@, slug, 0) is None);
                assert(recipe_inputs(1).len() > 0);
                if names_every_item(resources@) {
                    lemma_named_item(resources@, 1, 0, false);
                }
            }
            return None;
        },
    }
    match item(resources, "silicon", 1) {
        Some(it) => inputs_1.push(it),
        None => {
            proof {
                assert(recipe_table().len() == 8);
                assert(recipe_inputs(1)[1].0 == "silicon"@);
                let slug = recipe_inputs(1)[1].0;
                assert(resource_named(resources@, slug, 0) is None);
                assert(recipe_inputs(1).len() > 1);
                if names_every_item(resources@) {
                    lemma_named_item(resources@, 1, 1, false);
                }
            }
            return None;
        },
    }
    let mut outputs_1: Vec<RecipeItem> = Vec::new();
    match item(resources, "electronics", 1) {
        Some(it) => outputs_1.push(it),
        None => {
            proof {
                assert(recipe_table().len() == 8);
                assert(recipe_outputs(1)[0].0 == "electronics"@);
                let slug = recipe_outputs(1)[0].0;
                assert(resource_named(resources@, slug, 0) is None);
                assert(recipe_outputs(1).len() > 0);
                if names_every_item(resources@) {
                    lemma_named_item(resources@, 1, 0, true);
                }
            }
            return None;
        },
    }
    v.push(
        Recipe {
            id: fresh_id(),
            slug: "make_electronics".to_owned(),
            name: "Manufacture Electronics".to_owned(),
            inputs: inputs_1,
            outputs: outputs_1,
            ticks_required: 3,
            min_tech_level: 1,
            workers_required: 8,
        },
    );
    // Assemble Battery Pack.
    let mut inputs_2: Vec<RecipeItem> = Vec::new();
    match item(resources, "lithium", 2) {
        Some(it) => inputs_2.push(it),
        None => {
            proof {
                assert(recipe_table().len() == 8);
                assert(recipe_inputs(2)[0].0 == "lithium"@);
                let slug = recipe_inputs(2)[0].0;
                assert(resource_named(resources@, slug, 0) is None);
                assert(recipe_inputs(2).len() > 0);
                if names_every_item(resources@) {
                    lemma_named_item(resources@, 2, 0, false);
                }
            }
            return None;
        },
    }
    match item(resources, "copper", 1) {
        Some(it) => inputs_2.push(it),
        None => {
            proof {
                assert(recipe_table().len() == 8);
                assert(recipe_inputs(2)[1].0 == "copper"@);
                let slug = recipe_inputs(2)[1].0;
                assert(resource_named(resources@, slug, 0) is None);
                assert(recipe_inputs(2).len() > 1);
                if names_every_item(resources@) {
                    lemma_named_item(resources@, 2, 1, false);
                }
            }
            return None;
        },
    }
    match item(resources, "plastic", 1) {
        Some(it) => inputs_2.push(it),
        None => {
            proof {
                assert(recipe_table().len() == 8);
                assert(recipe_inputs(2)[2].0 == "plastic"@);
                let slug = recipe_inputs(2)[2].0;
                assert(resource_named(resources@, slug, 0) is None);
                assert(recipe_inputs(2).len() > 2);
                if names_every_item(resources@) {
                    lemma_named_item(resources@, 2, 2, false);
                }
            }
            return None;
        },
    }
    let mut outputs_2: Vec<RecipeItem> = Vec::new();
    match item(resources, "battery_pack", 1) {
        Some(it) => outputs_2.push(it),
        None => {
            proof {
                assert(recipe_table().len() == 8);
                assert(recipe_outputs(2)[0].0 == "battery_pack"@);
                let slug = recipe_outputs(2)[0].0;
                assert(resource_named(resources@, slug, 0) is None);
                assert(recipe_outputs(2).len() > 0);
                if names_every_item(resources@) {
                    lemma_named_item(resources@, 2, 0, true);
                }
            }
            return None;
        },
    }
    v.push(
        Recipe {
            id: fresh_id(),
            slug: "make_battery".to_owned(),
            name: "Assemble Battery Pack".to_owned(),
            inputs: inputs_2,
            outputs: outputs_2,
            ticks_required: 4,
            min_tech_level: 1,
            workers_required: 6,
        },
    );
    // Refine Fuel.
    let mut inputs_3: Vec<RecipeItem> = Vec::new();
    match item(resources, "oil", 3) {
        Some(it) => inputs_3.push(it),
        None => {
            proof {
                assert(recipe_table().len() == 8);
                assert(recipe_inputs(3)[0].0 == "oil"@);
                let slug = recipe_inputs(3)[0].0;
                assert(resource_named(resources@, slug, 0) is None);
                assert(recipe_inputs(3).len() > 0);
                if names_every_item(resources@) {
                    lemma_named_item(resources@, 3, 0, false);
                }
            }
            return None;
        },
    }
    let mut outputs_3: Vec<RecipeItem> = Vec::new();
    match item(resources, "fuel", 2) {
        Some(it) => outputs_3.push(it),
        None => {
            proof {
                assert(recipe_table().len() == 8);
                assert(recipe_outputs(3)[0].0 == "fuel"@);
                let slug = recipe_outputs(3)[0].0;
                assert(resource_named(resources@, slug, 0) is None);
                assert(recipe_outputs(3).len() > 0);
                if names_every_item(resources@) {
                    lemma_named_item(resources@, 3, 0, true);
                }
            }
            return None;
        },
    }
    v.push(
        Recipe {
            id: fresh_id(),
            slug: "refine_fuel".to_owned(),
            name: "Refine Fuel".to_owned(),
            inputs: inputs_3,
            outputs: outputs_3,
            ticks_required: 2,
            min_tech_level: 0,
            workers_required: 4,
        },
    );
    // Build Machines.
    let mut inputs_4: Vec<RecipeItem> = Vec::new();
    match item(resources, "steel", 3) {
        Some(it) => inputs_4.push(it),
        None => {
            proof {
                assert(recipe_table().len() == 8);
                assert(recipe_inputs(4)[0].0 == "steel"@);
                let slug = recipe_inputs(4)[0].0;
                assert(resource_named(resources@, slug, 0) is None);
                assert(recipe_inputs(4).len() > 0);
                if names_every_item(resources@) {
                    lemma_named_item(resources@, 4, 0, false);
                }
            }
            return None;
        },
    }
    match item(resources, "electronics", 2) {
        Some(it) => inputs_4.push(it),
        None => {
            proof {
                assert(recipe_table().len() == 8);
                assert(recipe_inputs(4)[1].0 == "electronics"@);
                let slug = recipe_inputs(4)[1].0;
                assert(resource_named(resources@, slug, 0) is None);
                assert(recipe_inputs(4).len() > 1);
                if names_every_item(resources@) {
                    lemma_named_item(resources@, 4, 1, false);
                }
            }
            return None;
        },
    }
    let mut outputs_4: Vec<RecipeItem> = Vec::new();
    match item(resources, "machines", 1) {
        Some(it) => outputs_4.push(it),
        None => {
            proof {
                assert(recipe_table().len() == 8);
                assert(recipe_outputs(4)[0].0 == "machines"@);
                let slug = recipe_outputs(4)[0].0;
                assert(resource_named(resources@, slug, 0) is None);
                assert(recipe_outputs(4).len() > 0);
                if names_every_item(resources@) {
                    lemma_named_item(resources@, 4, 0, true);
                }
            }
            return None;
        },
    }
    v.push(
        Recipe {
            id: fresh_id(),
            slug: "build_machines".to_owned(),
            name: "Build Machines".to_owned(),
            inputs: inputs_4,
            outputs: outputs_4,
            ticks_required: 5,
            min_tech_level: 2,
            workers_required: 12,
        },
    );
    // Build Vehicles.
    let mut inputs_5: Vec<RecipeItem> = Vec::new();
    match item(resources, "steel", 4) {
        Some(it) => inputs_5.push(it),
        None => {
            proof {
                assert(recipe_table().len() == 8);
                assert(recipe_inputs(5)[0].0 == "steel"@);
                let slug = recipe_inputs(5)[0].0;
                assert(resource_named(resources@, slug, 0) is None);
                assert(recipe_inputs(5).len() > 0);
                if names_every_item(resources@) {
                    lemma_named_item(resources@, 5, 0, false);
                }
            }
            return None;
        },
    }
    match item(resources, "electronics", 2) {
        Some(it) => inputs_5.push(it),
        None => {
            proof {
                assert(recipe_table().len() == 8);
                assert(recipe_inputs(5)[1].0 == "electronics"@);
                let slug = recipe_inputs(5)[1].0;
                assert(resource_named(resources@, slug, 0) is None);
                assert(recipe_inputs(5).len() > 1);
                if names_every_item(resources@) {
                    lemma_named_item(resources@, 5, 1, false);
                }
            }
            return None;
        },
    }
    match item(resources, "battery_pack", 1) {
        Some(it) => inputs_5.push(it),
        None => {
            proof {
                assert(recipe_table().len() == 8);
                assert(recipe_inputs(5)[2].0 == "battery_pack"@);
                let slug = recipe_inputs(5)[2].0;
                assert(resource_named(resources@, slug, 0) is None);
                assert(recipe_inputs(5).len() > 2);
                if names_every_item(resources@) {
                    lemma_named_item(resources@, 5, 2, false);
                }
            }
            return None;
        },
    }
    match item(resources, "fuel", 2) {
        Some(it) => inputs_5.push(it),
        None => {
            proof {
                assert(recipe_table().len() == 8);
                assert(recipe_inputs(5)[3].0 == "fuel"@);
                let slug = recipe_inputs(5)[3].0;
                assert(resource_named(resources@, slug, 0) is None);
                assert(recipe_inputs(5).len() > 3);
                if names_every_item(resources@) {
                    lemma_named_item(resources@, 5, 3, false);
                }
            }
            return None;
        },
    }
    let mut outputs_5: Vec<RecipeItem> = Vec::new();
    match item(resources, "vehicles", 1) {
        Some(it) => outputs_5.push(it),
        None => {
            proof {
                assert(recipe_table().len() == 8);
                assert(recipe_outputs(5)[0].0 == "vehicles"@);
                let slug = recipe_outputs(5)[0].0;
                assert(resource_named(resources@, slug, 0) is None);
                assert(recipe_outputs(5).len() > 0);
                if names_every_item(resources@) {
                    lemma_named_item(resources@, 5, 0, true);
                }
            }
            return None;
        },
    }
    v.push(
        Recipe {
            id: fresh_id(),
            slug: "build_vehicles".to_owned(),
            name: "Build Vehicles".to_owned(),
            inputs: inputs_5,
            outputs: outputs_5,
            ticks_required: 6,
            min_tech_level: 2,
            workers_required: 15,
        },
    );
    // Make Consumer Tech.
    let mut inputs_6: Vec<RecipeItem> = Vec::new();
    match item(resources, "electronics", 2) {
        Some(it) => inputs_6.push(it),
        None => {
            proof {
                assert(recipe_table().len() == 8);
                assert(recipe_inputs(6)[0].0 == "electronics"@);
                let slug = recipe_inputs(6)[0].0;
                assert(resource_named(resources@, slug, 0) is None);
                assert(recipe_inputs(6).len() > 0);
                if names_every_item(resources@) {
                    lemma_named_item(resources@, 6, 0, false);
                }
            }
            return None;
        },
    }
    match item(resources, "plastic", 2) {
        Some(it) => inputs_6.push(it),
        None => {
            proof {
                assert(recipe_table().len() == 8);
                assert(recipe_inputs(6)[1].0 == "plastic"@);
                let slug = recipe_inputs(6)[1].0;
                assert(resource_named(resources@, slug, 0) is None);
                assert(recipe_inputs(6).len() > 1);
                if names_every_item(resources@) {
                    lemma_named_item(resources@, 6, 1, false);
                }
            }
            return None;
        },
    }
    match item(resources, "battery_pack", 1) {
        Some(it) => inputs_6.push(it),
        None => {
            proof {
                assert(recipe_table().len() == 8);
                assert(recipe_inputs(6)[2].0 == "battery_pack"@);
                let slug = recipe_inputs(6)[2].0;
                assert(resource_named(resources@, slug, 0) is None);
                assert(recipe_inputs(6).len() > 2);
                if names_every_item(resources@) {
                    lemma_named_item(resources@, 6, 2, false);
                }
            }
            return None;
        },
    }
    let mut outputs_6: Vec<RecipeItem> = Vec::new();
    match item(resources, "consumer_tech", 2) {
        Some(it) => outputs_6.push(it),
        None => {
            proof {
                assert(recipe_table().len() == 8);
                assert(recipe_outputs(6)[0].0 == "consumer_tech"@);
                let slug = recipe_outputs(6)[0].0;
                assert(resource_named(resources@, slug, 0) is None);
                assert(recipe_outputs(6).len() > 0);
                if names_every_item(resources@) {
                    lemma_named_item(resources@, 6, 0, true);
                }
            }
            return None;
        },
    }
    v.push(
        Recipe {
            id: fresh_id(),
            slug: "make_consumer_tech".to_owned(),
            name: "Make Consumer Tech".to_owned(),
            inputs: inputs_6,
            outputs: outputs_6,
            ticks_required: 3,
            min_tech_level: 1,
            workers_required: 10,
        },
    );
    // Produce Luxury Goods.
    let mut inputs_7: Vec<RecipeItem> = Vec::new();
    match item(resources, "consumer_tech", 2) {
        Some(it) => inputs_7.push(it),
        None => {
            proof {
                assert(recipe_table().len() == 8);
                assert(recipe_inputs(7)[0].0 == "consumer_tech"@);
                let slug = recipe_inputs(7)[0].0;
                assert(resource_named(resources@, slug, 0) is None);
                assert(recipe_inputs(7).len() > 0);
                if names_every_item(resources@) {
                    lemma_named_item(resources@, 7, 0, false);
                }
            }
            return None;
        },
    }
    match item(resources, "vehicles", 1) {
        Some(it) => inputs_7.push(it),
        None => {
            proof {
                assert(recipe_table().len() == 8);
                assert(recipe_inputs(7)[1].0 == "vehicles"@);
                let slug = recipe_inputs(7)[1].0;
                assert(resource_named(resources@, slug, 0) is None);
                assert(recipe_inputs(7).len() > 1);
                if names_every_item(resources@) {
                    lemma_named_item(resources@, 7, 1, false);
                }
            }
            return None;
        },
    }
    match item(resources, "machines", 1) {
        Some(it) => inputs_7.push(it),
        None => {
            proof {
                assert(recipe_table().len() == 8);
                assert(recipe_inputs(7)[2].0 == "machines"@);
                let slug = recipe_inputs(7)[2].0;
                assert(resource_named(resources@, slug, 0) is None);
                assert(recipe_inputs(7).len() > 2);
                if names_every_item(resources@) {
                    lemma_named_item(resources@, 7, 2, false);
                }
            }
            return None;
        },
    }
    let mut outputs_7: Vec<RecipeItem> = Vec::new();
    match item(resources, "luxury_goods", 1) {
        Some(it) => outputs_7.push(it),
        None => {
            proof {
                assert(recipe_table().len() == 8);
                assert(recipe_outputs(7)[0].0 == "luxury_goods"@);
                let slug = recipe_outputs(7)[0].0;
                assert(resource_named(resources@, slug, 0) is None);
                assert(recipe_outputs(7).len() > 0);
                if names_every_item(resources@) {
                    lemma_named_item(resources@, 7, 0, true);
                }
            }
            return None;
        },
    }
    v.push(
        Recipe {
            id: fresh_id(),
            slug: "make_luxury".to_owned(),
            name: "Produce Luxury Goods".to_owned(),
            inputs: inputs_7,
            outputs: outputs_7,
            ticks_required: 8,
            min_tech_level: 3,
            workers_required: 20,
        },
    );
    proof {
        assert(names_every_item(resources@));
    }
    Some(v)
}

proof fn lemma_named_at(resources: Seq<Resource>, slug: Seq<char>, p: int)
    requires
        0 <= p < resources.len(),
        resources[p].slug@ == slug,
    ensures
        resource_named(resources, slug, 0) is Some,
{
    lemma_named_from(resources, slug, 0, p);
}

proof fn lemma_named_from(resources: Seq<Resource>, slug: Seq<char>, from: int, p: int)
    requires
        0 <= from <= p < resources.len(),
        resources[p].slug@ == slug,
    ensures
        resource_named(resources, slug, from) is Some,
    decreases p - from,
{
    if resources[from].slug@ != slug {
        lemma_named_from(resources, slug, from + 1, p);
    }
}

/// The starting resources name every resource that the starting recipes use.
proof fn lemma_seed_names_every_item(resources: Seq<Resource>)
    requires
        resources.len() == resource_table().len(),
        forall|k: int| 0 <= k < resources.len() ==> seeded_resource(#[trigger] resources[k], k),
    ensures
        names_every_item(resources),
{
    assert forall|k: int, j: int|
        0 <= k < recipe_table().len() implies {
            &&& (0 <= j < recipe_inputs(k).len() ==> resource_named(
                resources,
                #[trigger] recipe_inputs(k)[j].0,
                0,
            ) is Some)
            &&& (0 <= j < recipe_outputs(k).len() ==> resource_named(
                resources,
                #[trigger] recipe_outputs(k)[j].0,
                0,
            ) is Some)
        } by {
        if k == 0 && j == 0 {
            lemma_named_at(resources, recipe_inputs(k)[j].0, 3);
        }
        if k == 0 && j == 0 {
            lemma_named_at(resources, recipe_outputs(k)[j].0, 6);
        }
        if k == 1 && j == 0 {
            lemma_named_at(resources, recipe_inputs(k)[j].0, 0);
        }
        if k == 1 && j == 1 {
            lemma_named_at(resources, recipe_inputs(k)[j].0, 1);
        }
        if k == 1 && j == 0 {
            lemma_named_at(resources, recipe_outputs(k)[j].0, 7);
        }
        if k == 2 && j == 0 {
            lemma_named_at(resources, recipe_inputs(k)[j].0, 2);
        }
        if k == 2 && j == 1 {
            lemma_named_at(resources, recipe_inputs(k)[j].0, 0);
        }
        if k == 2 && j == 2 {
            lemma_named_at(resources, recipe_inputs(k)[j].0, 4);
        }
        if k == 2 && j == 0 {
            lemma_named_at(resources, recipe_outputs(k)[j].0, 8);
        }
        if k == 3 && j == 0 {
            lemma_named_at(resources, recipe_inputs(k)[j].0, 5);
        }
        if k == 3 && j == 0 {
            lemma_named_at(resources, recipe_outputs(k)[j].0, 9);
        }
        if k == 4 && j == 0 {
            lemma_named_at(resources, recipe_inputs(k)[j].0, 6);
        }
        if k == 4 && j == 1 {
            lemma_named_at(resources, recipe_inputs(k)[j].0, 7);
        }
        if k == 4 && j == 0 {
            lemma_named_at(resources, recipe_outputs(k)[j].0, 10);
        }
        if k == 5 && j == 0 {
            lemma_named_at(resources, recipe_inputs(k)[j].0, 6);
        }
        if k == 5 && j == 1 {
            lemma_named_at(resources, recipe_inputs(k)[j].0, 7);
        }
        if k == 5 && j == 2 {
            lemma_named_at(resources, recipe_inputs(k)[j].0, 8);
        }
        if k == 5 && j == 3 {
            lemma_named_at(resources, recipe_inputs(k)[j].0, 9);
        }
        if k == 5 && j == 0 {
            lemma_named_at(resources, recipe_outputs(k)[j].0, 11);
        }
        if k == 6 && j == 0 {
            lemma_named_at(resources, recipe_inputs(k)[j].0, 7);
        }
        if k == 6 && j == 1 {
            lemma_named_at(resources, recipe_inputs(k)[j].0, 4);
        }
        if k == 6 && j == 2 {
            lemma_named_at(resources, recipe_inputs(k)[j].0, 8);
        }
        if k == 6 && j == 0 {
            lemma_named_at(resources, recipe_outputs(k)[j].0, 12);
        }
        if k == 7 && j == 0 {
            lemma_named_at(resources, recipe_inputs(k)[j].0, 12);
        }
        if k == 7 && j == 1 {
            lemma_named_at(resources, recipe_inputs(k)[j].0, 11);
        }
        if k == 7 && j == 2 {
            lemma_named_at(resources, recipe_inputs(k)[j].0, 10);
        }
        if k == 7 && j == 0 {
            lemma_named_at(resources, recipe_outputs(k)[j].0, 13);
        }
    }
}

/// The market a resource starts with: last price and moving average at the
/// base price, nothing on offer, asked for or traded.
pub open spec fn opening_market(m: Market, r: Resource) -> bool {
    &&& m.resource_id == r.id
    &&& m.last_price == r.base_price
    &&& m.ema_price == r.base_price
    &&& m.total_supply == (Decimal { mantissa: 0, scale: 0 })
    &&& m.total_demand == (Decimal { mantissa: 0, scale: 0 })
    &&& m.total_volume == (Decimal { mantissa: 0, scale: 0 })
}

/// The starting world: its resources, a market for each, and its recipes,
/// every identifier fresh.
pub fn seed_world() -> (r: (Vec<Resource>, Vec<Market>, Vec<Recipe>))
    ensures
        r.0@.len() == resource_table().len(),
        forall|k: int| 0 <= k < r.0@.len() ==> seeded_resource(#[trigger] r.0@[k], k),
        r.1@.len() == r.0@.len(),
        forall|k: int| 0 <= k < r.1@.len() ==> opening_market(#[trigger] r.1@[k], r.0@[k]),
        r.2@.len() == recipe_table().len(),
        forall|k: int| 0 <= k < r.2@.len() ==> seeded_recipe(#[trigger] r.2@[k], k, r.0@),
{
    let resources = seed_resources();
    let mut markets: Vec<Market> = Vec::new();
    let mut i: usize = 0;
    while i < resources.len()
        invariant
            i <= resources@.len(),
            markets@.len() == i,
            forall|k: int| 0 <= k < i ==> opening_market(#[trigger] markets@[k], resources@[k]),
        decreases resources@.len() - i,
    {
        let r = &resources[i];
        markets.push(
            Market {
                id: fresh_id(),
                resource_id: r.id,
                last_price: r.base_price,
                ema_price: r.base_price,
                total_supply: Decimal::zero(),
                total_demand: Decimal::zero(),
                total_volume: Decimal::zero(),
                updated_at: current_time(),
            },
        );
        i = i + 1;
    }
    proof {
        lemma_seed_names_every_item(resources@);
    }
    let recipes = match seed_recipes(resources.as_slice()) {
        Some(v) => v,
        None => {
            proof {
                assert(false);
            }
            Vec::new()
        },
    };
    (resources, markets, recipes)
}

} // verus!
