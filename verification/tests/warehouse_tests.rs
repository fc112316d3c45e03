use warehouse::errors::WarehouseError;
use warehouse::price::Price;
use warehouse::warehouse::{create_transaction, InventoryIdMap, TransactionType, Warehouse};

fn produce(name: &str, quantity: u64, cost: Price) -> warehouse::warehouse::Transaction {
    create_transaction(String::from(name), Some(cost), TransactionType::Produce, quantity)
}

fn consume(name: &str) -> warehouse::warehouse::Transaction {
    create_transaction(String::from(name), None, TransactionType::Consume, 1)
}

#[test]
fn scenario_single_lot_produce_and_consume() {
    let mut w = Warehouse::new();
    // 9 units at a total cost of 10.00
    assert!(matches!(w.transact(produce("Box", 9, Price::new(1000, 2))), Ok(None)));
    let heap = w.inventory_heaps[0].as_ref().unwrap();
    assert_eq!(heap.size(), 1);
    assert_eq!(heap.heap[0].quantity, 9);
    // the lot is priced 10.00 / 9, between 1.111 and 1.112
    let lot_price = heap.heap[0].price_per_item;
    assert!(Price::new(1111, 3).le(&lot_price));
    assert!(lot_price.lt(&Price::new(1112, 3)));

    let v = w.transact(consume("Box")).unwrap().unwrap();
    assert!(v.price_per_item.value_eq(&lot_price));
    let heap = w.inventory_heaps[0].as_ref().unwrap();
    assert_eq!(heap.size(), 1);
    assert_eq!(heap.heap[0].quantity, 8);
}

#[test]
fn scenario_cheapest_lot_is_drawn_first() {
    let mut w = Warehouse::new();
    // 2 units at 2.00 total, then 1 unit at 0.50 total
    w.transact(produce("Box", 2, Price::new(200, 2))).unwrap();
    w.transact(produce("Box", 1, Price::new(50, 2))).unwrap();
    let heap = w.inventory_heaps[0].as_ref().unwrap();
    assert_eq!(heap.size(), 2);

    let v1 = w.transact(consume("Box")).unwrap().unwrap();
    assert!(v1.price_per_item.value_eq(&Price::new(50, 2)));
    let v2 = w.transact(consume("Box")).unwrap().unwrap();
    assert!(v2.price_per_item.value_eq(&Price::new(100, 2)));
    let v3 = w.transact(consume("Box")).unwrap().unwrap();
    assert!(v3.price_per_item.value_eq(&Price::new(100, 2)));
    assert_eq!(
        w.transact(consume("Box")),
        Err(WarehouseError::InsufficientInventory)
    );
}

#[test]
fn scenario_exhausted_product_fails_and_history_keeps_successes() {
    let mut w = Warehouse::new();
    w.transact(produce("Box", 1, Price::new(500, 2))).unwrap();
    let v = w.transact(consume("Box")).unwrap().unwrap();
    assert!(v.price_per_item.value_eq(&Price::new(500, 2)));
    assert_eq!(
        w.transact(consume("Box")),
        Err(WarehouseError::InsufficientInventory)
    );
    assert_eq!(w.transaction_history.history.len(), 2);
}

#[test]
fn scenario_unknown_product_fails_and_history_unchanged() {
    let mut w = Warehouse::new();
    assert_eq!(
        w.transact(consume("Gadget")),
        Err(WarehouseError::UnknownProduct)
    );
    assert_eq!(w.transaction_history.history.len(), 0);
}

#[test]
fn produce_without_cost_is_invalid() {
    let mut w = Warehouse::new();
    let t = create_transaction(String::from("Box"), None, TransactionType::Produce, 3);
    assert_eq!(w.transact(t), Err(WarehouseError::InvalidTransaction));
    assert_eq!(w.transaction_history.history.len(), 0);
}

#[test]
fn consume_with_cost_is_invalid() {
    let mut w = Warehouse::new();
    w.transact(produce("Box", 1, Price::new(100, 2))).unwrap();
    let t = create_transaction(
        String::from("Box"),
        Some(Price::new(100, 2)),
        TransactionType::Consume,
        1,
    );
    assert_eq!(w.transact(t), Err(WarehouseError::InvalidTransaction));
    assert_eq!(w.transaction_history.history.len(), 1);
}

#[test]
fn produce_of_zero_quantity_is_invalid() {
    let mut w = Warehouse::new();
    let t = create_transaction(
        String::from("Box"),
        Some(Price::new(100, 2)),
        TransactionType::Produce,
        0,
    );
    assert_eq!(w.transact(t), Err(WarehouseError::InvalidTransaction));
    assert_eq!(w.transaction_history.history.len(), 0);
}

#[test]
fn products_do_not_share_lots() {
    let mut w = Warehouse::new();
    w.transact(produce("Box", 1, Price::new(100, 2))).unwrap();
    w.transact(produce("Crate", 1, Price::new(900, 2))).unwrap();
    let v = w.transact(consume("Crate")).unwrap().unwrap();
    assert!(v.price_per_item.value_eq(&Price::new(900, 2)));
    assert_eq!(
        w.transact(consume("Crate")),
        Err(WarehouseError::InsufficientInventory)
    );
    let v = w.transact(consume("Box")).unwrap().unwrap();
    assert!(v.price_per_item.value_eq(&Price::new(100, 2)));
}

#[test]
fn inventory_id_map_assigns_stable_sequential_keys() {
    let mut m = InventoryIdMap::new();
    let box_name = String::from("Box");
    let crate_name = String::from("Crate");
    assert_eq!(m.get_inventory_key(&box_name), Ok(0));
    assert_eq!(m.get_inventory_key(&crate_name), Ok(1));
    assert_eq!(m.get_inventory_key(&box_name), Ok(0));
    assert_eq!(m.get_inventory_key(&crate_name), Ok(1));
    assert_eq!(m.next_id, 2);
}

#[test]
fn price_comparisons_follow_numeric_value() {
    let one = Price::new(100, 2);
    let one_whole = Price::new(1, 0);
    let half = Price::new(5, 1);
    assert!(one.value_eq(&one_whole));
    assert!(half.lt(&one));
    assert!(half.le(&one));
    assert!(!one.le(&half));
    assert!(!half.value_eq(&one));
}

#[test]
fn equal_priced_lots_coexist_unmerged() {
    let mut w = Warehouse::new();
    w.transact(produce("Box", 1, Price::new(100, 2))).unwrap();
    w.transact(produce("Box", 1, Price::new(100, 2))).unwrap();
    let heap = w.inventory_heaps[0].as_ref().unwrap();
    assert_eq!(heap.size(), 2);
}
