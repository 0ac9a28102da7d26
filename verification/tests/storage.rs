use econwar::decimal::Decimal;
use econwar::models::{OrderStatus, OrderType, ProductionStatus, ResourceCategory};
use econwar::seed::{seed_recipes, seed_resources, seed_world};
use econwar::storage::{assemble_recipes, RecipeItemRow, RecipeRow};

#[test]
fn enumerations_are_stored_as_lower_case_names() {
    assert_eq!(OrderType::Buy.stored_name(), "buy");
    assert_eq!(OrderType::Sell.stored_name(), "sell");
    assert_eq!(OrderStatus::PartiallyFilled.stored_name(), "partially_filled");
    assert_eq!(OrderStatus::Cancelled.stored_name(), "cancelled");
    assert_eq!(ProductionStatus::Stalled.stored_name(), "stalled");
    assert_eq!(ResourceCategory::FinishedGood.column_name(), "finished_good");
}

#[test]
fn column_texts_are_read_back() {
    assert_eq!(OrderType::from_column("sell"), Some(OrderType::Sell));
    assert_eq!(OrderStatus::from_column("partially_filled"), Some(OrderStatus::PartiallyFilled));
    assert_eq!(OrderStatus::from_column("partiallyfilled"), None);
    for s in [OrderStatus::Open, OrderStatus::PartiallyFilled, OrderStatus::Filled, OrderStatus::Cancelled] {
        assert_eq!(OrderStatus::from_column(s.stored_name()), Some(s));
    }
    assert_eq!(ProductionStatus::from_column("running"), Some(ProductionStatus::Running));
    assert_eq!(ResourceCategory::from_column("raw_material"), Some(ResourceCategory::RawMaterial));
    assert_eq!(ResourceCategory::from_column("gold"), None);
    for s in [ProductionStatus::Running, ProductionStatus::Completed, ProductionStatus::Cancelled, ProductionStatus::Stalled] {
        assert_eq!(ProductionStatus::from_column(s.stored_name()), Some(s));
    }
}

#[test]
fn recipes_gather_their_items_by_direction() {
    let rows = vec![
        RecipeRow { id: 1, slug: "a".into(), name: "A".into(), ticks_required: 2, min_tech_level: 0, workers_required: 3 },
        RecipeRow { id: 2, slug: "b".into(), name: "B".into(), ticks_required: 4, min_tech_level: 1, workers_required: 5 },
    ];
    let item = |id: u128, recipe_id: u128, res: u128, dir: &str| RecipeItemRow {
        id,
        recipe_id,
        resource_id: res,
        resource_slug: format!("r{res}"),
        quantity: Decimal::new(id as i128, 0),
        direction: dir.into(),
    };
    let items = vec![
        item(10, 1, 100, "input"),
        item(11, 2, 101, "input"),
        item(12, 1, 102, "output"),
        item(13, 1, 103, "input"),
        item(14, 1, 104, "sideways"),
    ];
    let recipes = assemble_recipes(&rows, &items);
    assert_eq!(recipes.len(), 2);
    assert_eq!(recipes[0].slug, "a");
    assert_eq!(recipes[0].inputs.iter().map(|i| i.resource_id).collect::<Vec<_>>(), vec![100, 103]);
    assert_eq!(recipes[0].outputs.len(), 1);
    assert_eq!(recipes[0].outputs[0].resource_slug, "r102");
    assert_eq!(recipes[0].outputs[0].quantity, Decimal::new(12, 0));
    assert_eq!(recipes[1].inputs.len(), 1);
    assert!(recipes[1].outputs.is_empty());
    assert_eq!(recipes[1].workers_required, 5);
}

#[test]
fn the_starting_world() {
    let (resources, markets, recipes) = seed_world();
    assert_eq!(resources.len(), 14);
    assert_eq!(markets.len(), 14);
    assert_eq!(recipes.len(), 8);
    assert_eq!(resources[0].slug, "copper");
    assert_eq!(resources[0].base_price, Decimal::new(50, 0));
    assert_eq!(resources[0].spawn_rate, Decimal::new(100, 0));
    assert_eq!(resources[13].category, ResourceCategory::Luxury);
    assert_eq!(markets[3].resource_id, resources[3].id);
    assert_eq!(markets[3].ema_price, Decimal::new(40, 0));
    let vehicles = &recipes[5];
    assert_eq!(vehicles.slug, "build_vehicles");
    assert_eq!(vehicles.inputs.len(), 4);
    assert_eq!(vehicles.inputs[2].resource_slug, "battery_pack");
    assert_eq!(vehicles.inputs[2].resource_id, resources[8].id);
    assert_eq!(vehicles.outputs[0].resource_id, resources[11].id);
    assert_eq!(recipes[7].min_tech_level, 3);
    // Every item names a resource of the same slug.
    for r in &recipes {
        for it in r.inputs.iter().chain(r.outputs.iter()) {
            let res = resources.iter().find(|x| x.id == it.resource_id).unwrap();
            assert_eq!(res.slug, it.resource_slug);
        }
    }
    // Without the resources the recipes cannot be made.
    assert!(seed_recipes(&resources[..5]).is_none());
    assert_eq!(seed_resources().len(), 14);
}
