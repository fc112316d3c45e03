use warehouse::errors::WarehouseError;
use rand::Rng;
use warehouse::inventory_heap::{Inventory, InventoryHeap};
use warehouse::price::Price;

#[test]
fn create_heap() {
    let heap = InventoryHeap::new();
    assert_eq!(heap.heap.len(), 0);
}

#[test]
fn empty_heap_get_min_fails() {
    let heap = InventoryHeap::new();
    assert_eq!(heap.get_min(), Err(WarehouseError::EmptyHeap));
}

#[test]
fn empty_heap_extract_fails() {
    let mut heap = InventoryHeap::new();
    assert_eq!(heap.extract(), Err(WarehouseError::EmptyHeap));
}

#[test]
fn test_inserting_into_heap_should_succeed() {
    let mut heap = InventoryHeap::new();

    let inv = Inventory {
        price_per_item: Price::new(100, 2),
        quantity: 10,
    };
    heap.insert(inv);
    assert_eq!(heap.get_min().unwrap().price_per_item, inv.price_per_item)
}

#[test]
fn test_min_heap_property_maintained_during_insertion() {
    let mut heap = InventoryHeap::new();

    for i in (1..5).rev() {
        let inv = Inventory {
            price_per_item: Price::new(i as u128, 0),
            quantity: 1,
        };

        heap.insert(inv);
    }

    let min = heap.get_min().unwrap();

    assert_eq!(min.price_per_item, Price::new(1, 0));
}

#[test]
fn test_inventory_with_single_quantity_deletes() {
    let mut heap = InventoryHeap::new();

    let inv = Inventory {
        price_per_item: Price::new(100, 2),
        quantity: 1,
    };

    heap.insert(inv);
    assert_eq!(heap.size(), 1);

    heap.delete();
    assert_eq!(heap.size(), 0);
}

#[test]
fn test_inventory_with_large_quantity_deletes() {
    let mut heap = InventoryHeap::new();

    let inv = Inventory {
        price_per_item: Price::new(100, 2),
        quantity: 2,
    };

    heap.insert(inv);
    assert_eq!(heap.size(), 1);

    heap.delete();
    assert_eq!(heap.size(), 1);

    heap.delete();
    assert_eq!(heap.size(), 0);
}

#[test]
fn test_inserting_equivalent_inventories() {
    let mut heap = InventoryHeap::new();

    let inv = Inventory {
        price_per_item: Price::new(100, 2),
        quantity: 2,
    };

    heap.insert(inv);
    assert_eq!(heap.size(), 1);

    heap.insert(inv);
    assert_eq!(heap.size(), 2);

    heap.delete();
    heap.delete();

    assert_eq!(heap.size(), 1);
}

#[test]
fn test_inserting_and_deleting_random_inventories() {
    let mut heap = InventoryHeap::new();
    let mut rng = rand::thread_rng();

    for _i in 0..10 {
        let inv = Inventory {
            price_per_item: Price::new(rng.gen_range(0..100) as u128, 0),
            quantity: rng.gen_range(0..5),
        };

        heap.insert(inv);
    }

    let mut smallest = heap.extract().unwrap().price_per_item;
    while !heap.is_empty() {
        let heap_min = heap.extract().unwrap().price_per_item;
        assert!(smallest.le(&heap_min));
        smallest = heap_min;
    }
}

fn assert_heap_ordered(heap: &InventoryHeap) {
    for i in 1..heap.heap.len() {
        let parent = heap.heap[(i - 1) / 2].price_per_item;
        let child = heap.heap[i].price_per_item;
        assert!(parent.le(&child));
    }
}

#[test]
fn heap_order_holds_after_mixed_operations() {
    let prices: [u128; 7] = [500, 100, 300, 100, 900, 50, 250];
    let mut heap = InventoryHeap::new();
    for p in prices {
        heap.insert(Inventory {
            price_per_item: Price::new(p, 2),
            quantity: 2,
        });
        assert_heap_ordered(&heap);
    }
    for _ in 0..5 {
        heap.extract().unwrap();
        assert_heap_ordered(&heap);
    }
}

#[test]
fn no_lot_is_left_with_zero_quantity() {
    let mut heap = InventoryHeap::new();
    heap.insert(Inventory {
        price_per_item: Price::new(200, 2),
        quantity: 2,
    });
    heap.insert(Inventory {
        price_per_item: Price::new(100, 2),
        quantity: 1,
    });
    // drawing the cheapest lot's last unit removes the lot entirely
    heap.extract().unwrap();
    assert_eq!(heap.size(), 1);
    for lot in heap.heap.iter() {
        assert!(lot.quantity > 0);
    }
    // a partial draw decrements in place instead
    heap.extract().unwrap();
    assert_eq!(heap.size(), 1);
    assert_eq!(heap.heap[0].quantity, 1);
}

#[test]
fn quantity_conservation_over_inserts_and_extracts() {
    let mut heap = InventoryHeap::new();
    let mut inserted: u64 = 0;
    for p in [300u128, 100, 200] {
        heap.insert(Inventory {
            price_per_item: Price::new(p, 2),
            quantity: 4,
        });
        inserted += 4;
    }
    let mut extracted: u64 = 0;
    for _ in 0..7 {
        heap.extract().unwrap();
        extracted += 1;
        let total: u64 = heap.heap.iter().map(|l| l.quantity).sum();
        assert_eq!(total, inserted - extracted);
    }
}

#[test]
fn extraction_prices_are_monotonic() {
    let mut heap = InventoryHeap::new();
    for p in [700u128, 50, 300, 50, 900] {
        heap.insert(Inventory {
            price_per_item: Price::new(p, 2),
            quantity: 1,
        });
    }
    let mut last = heap.extract().unwrap().price_per_item;
    assert!(last.value_eq(&Price::new(50, 2)));
    while !heap.is_empty() {
        let next = heap.extract().unwrap().price_per_item;
        assert!(last.le(&next));
        last = next;
    }
}
