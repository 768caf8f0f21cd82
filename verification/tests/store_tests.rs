use stockledger::model::{
    Client, InventoryMovement, MovementKind, NewDocItem, NewInvoice, NewOrder, NewQuoteItem,
    Product, StoreError, Supplier,
};
use stockledger::store::Store;

fn client(id: &str, name: &str) -> Client {
    Client {
        id: id.to_string(),
        full_name: name.to_string(),
        phone_number: None,
        email: None,
        address: None,
        image: None,
        created_at: 1,
    }
}

fn product(id: &str, name: &str, price: u32) -> Product {
    Product {
        id: id.to_string(),
        name: name.to_string(),
        description: None,
        image: None,
        price,
        min_quantity: 0,
        created_at: 1,
    }
}

fn movement(id: &str, kind: MovementKind, qty: u32, pid: &str) -> InventoryMovement {
    InventoryMovement {
        id: id.to_string(),
        kind,
        quantity: qty,
        product_id: pid.to_string(),
        created_at: 1,
    }
}

fn item(id: &str, inv: &str, pid: &str, price: u32, qty: u32) -> NewDocItem {
    NewDocItem {
        id: id.to_string(),
        inventory_id: inv.to_string(),
        product_id: pid.to_string(),
        price,
        quantity: qty,
    }
}

#[test]
fn derived_stock_is_recomputed_from_the_ledger() {
    let mut s = Store::new();
    assert!(s.create_product(product("p1", "bolt", 4)).is_ok());
    assert_eq!(s.derived_stock(&"p1".to_string()), 0);
    assert!(s.create_inventory_movement(movement("m1", MovementKind::In, 5, "p1")).is_ok());
    assert_eq!(s.derived_stock(&"p1".to_string()), 5);
    assert!(s.create_inventory_movement(movement("m2", MovementKind::Out, 2, "p1")).is_ok());
    assert_eq!(s.derived_stock(&"p1".to_string()), 3);
    assert!(s.create_inventory_movement(movement("m3", MovementKind::In, 7, "p1")).is_ok());
    assert_eq!(s.derived_stock(&"p1".to_string()), 10);
}

#[test]
fn movement_reference_is_exclusive() {
    let mut s = Store::new();
    assert!(s.create_client(client("c1", "Ada")).is_ok());
    assert!(s.create_product(product("p1", "bolt", 4)).is_ok());
    let o = NewOrder { client_id: "c1".to_string(), status: "PENDING".to_string() };
    let items = vec![item("i1", "mv1", "p1", 4, 2)];
    assert!(s.create_order("o1".to_string(), o, items, 10).is_ok());

    // a second order line may not reuse the movement that backs i1
    let o2 = NewOrder { client_id: "c1".to_string(), status: "PENDING".to_string() };
    let items2 = vec![item("i2", "mv1", "p1", 4, 2)];
    let r = s.create_order("o2".to_string(), o2, items2, 11);
    assert_eq!(r, Err(StoreError::Constraint));

    // nor may an invoice line
    let v = NewInvoice {
        client_id: "c1".to_string(),
        order_id: None,
        status: "PENDING".to_string(),
        paid_amount: 0,
    };
    let items3 = vec![item("j1", "mv1", "p1", 4, 2)];
    let r = s.create_invoice("v1".to_string(), v, items3, 12);
    assert_eq!(r, Err(StoreError::Constraint));

    // two lines of one request may not share a movement either
    let o3 = NewOrder { client_id: "c1".to_string(), status: "PENDING".to_string() };
    let items4 = vec![
        item("i3", "mvx", "p1", 4, 1),
        item("i4", "mvx", "p1", 4, 1),
    ];
    let r = s.create_order("o3".to_string(), o3, items4, 13);
    assert_eq!(r, Err(StoreError::Constraint));
}

#[test]
fn create_order_scenario_and_delete_restores_stock() {
    let mut s = Store::new();
    assert!(s.create_client(client("c1", "Ada")).is_ok());
    assert!(s.create_product(product("pa", "apples", 3)).is_ok());
    assert!(s.create_product(product("pb", "beans", 5)).is_ok());
    assert!(s.create_inventory_movement(movement("ma", MovementKind::In, 10, "pa")).is_ok());
    assert!(s.create_inventory_movement(movement("mb", MovementKind::In, 10, "pb")).is_ok());

    let o = NewOrder { client_id: "c1".to_string(), status: "PENDING".to_string() };
    let items = vec![
        item("ia", "mva", "pa", 3, 3),
        item("ib", "mvb", "pb", 5, 5),
    ];
    assert!(s.create_order("o1".to_string(), o, items, 20).is_ok());

    // two new OUT movements with quantities 3 and 5
    assert_eq!(s.movements.len(), 4);
    assert_eq!(s.movements[2].quantity, 3);
    assert!(matches!(s.movements[2].kind, MovementKind::Out));
    assert_eq!(s.movements[3].quantity, 5);
    assert!(matches!(s.movements[3].kind, MovementKind::Out));

    // stock reduced by the sold quantities
    assert_eq!(s.derived_stock(&"pa".to_string()), 7);
    assert_eq!(s.derived_stock(&"pb".to_string()), 5);

    // deleting the order removes both items and both movements
    let removed = s.delete_order(&"o1".to_string()).unwrap();
    assert_eq!(removed, 1 + 2 + 2);
    assert_eq!(s.order_items.len(), 0);
    assert_eq!(s.movements.len(), 2);
    assert_eq!(s.derived_stock(&"pa".to_string()), 10);
    assert_eq!(s.derived_stock(&"pb".to_string()), 10);
}

#[test]
fn delete_order_clears_invoice_reference() {
    let mut s = Store::new();
    assert!(s.create_client(client("c1", "Ada")).is_ok());
    let o = NewOrder { client_id: "c1".to_string(), status: "PENDING".to_string() };
    assert!(s.create_order("o1".to_string(), o, vec![], 20).is_ok());
    let v = NewInvoice {
        client_id: "c1".to_string(),
        order_id: Some("o1".to_string()),
        status: "PENDING".to_string(),
        paid_amount: 0,
    };
    assert!(s.create_invoice("v1".to_string(), v, vec![], 21).is_ok());

    assert!(s.delete_order(&"o1".to_string()).is_ok());

    // the invoice survives with its order reference cleared
    assert_eq!(s.invoices.len(), 1);
    assert_eq!(s.invoices[0].id, "v1");
    assert_eq!(s.invoices[0].order_id, None);
}

#[test]
fn delete_client_cascades_and_counts_rows() {
    let mut s = Store::new();
    assert!(s.create_client(client("c1", "Ada")).is_ok());
    assert!(s.create_client(client("c2", "Grace")).is_ok());
    assert!(s.create_product(product("p1", "bolt", 4)).is_ok());

    // two orders with one line each, one invoice with one line, one
    // quote with one line, all owned by c1
    let o = NewOrder { client_id: "c1".to_string(), status: "PENDING".to_string() };
    assert!(s.create_order("o1".to_string(), o, vec![item("i1", "m1", "p1", 4, 1)], 1).is_ok());
    let o = NewOrder { client_id: "c1".to_string(), status: "PENDING".to_string() };
    assert!(s.create_order("o2".to_string(), o, vec![item("i2", "m2", "p1", 4, 1)], 2).is_ok());
    let v = NewInvoice {
        client_id: "c1".to_string(),
        order_id: None,
        status: "PENDING".to_string(),
        paid_amount: 0,
    };
    assert!(s.create_invoice("v1".to_string(), v, vec![item("j1", "m3", "p1", 4, 1)], 3).is_ok());
    assert!(s.create_quote("q1".to_string(), "c1".to_string(),
        vec![NewQuoteItem { id: "k1".to_string(), product_id: "p1".to_string(), price: 4, quantity: 1 }],
        4).is_ok());

    // an invoice of the other client referencing c1's order survives
    // with the reference cleared
    let v2 = NewInvoice {
        client_id: "c2".to_string(),
        order_id: Some("o1".to_string()),
        status: "PENDING".to_string(),
        paid_amount: 0,
    };
    assert!(s.create_invoice("v2".to_string(), v2, vec![], 5).is_ok());

    // removed: the client, 2 orders, 1 invoice, 1 quote, 2 order items,
    // 1 invoice item, 1 quote item, 3 movements
    let removed = s.delete_client(&"c1".to_string()).unwrap();
    assert_eq!(removed, 1 + 2 + 1 + 1 + 2 + 1 + 1 + 3);
    assert_eq!(s.clients.len(), 1);
    assert_eq!(s.orders.len(), 0);
    assert_eq!(s.order_items.len(), 0);
    assert_eq!(s.movements.len(), 0);
    assert_eq!(s.quotes.len(), 0);
    assert_eq!(s.quote_items.len(), 0);
    assert_eq!(s.invoices.len(), 1);
    assert_eq!(s.invoices[0].id, "v2");
    assert_eq!(s.invoices[0].order_id, None);
}

#[test]
fn delete_product_cascades_to_items_referencing_its_movements() {
    let mut s = Store::new();
    assert!(s.create_client(client("c1", "Ada")).is_ok());
    assert!(s.create_product(product("p1", "bolt", 4)).is_ok());
    assert!(s.create_product(product("p2", "nut", 2)).is_ok());
    let o = NewOrder { client_id: "c1".to_string(), status: "PENDING".to_string() };
    let items = vec![
        item("i1", "m1", "p1", 4, 1),
        item("i2", "m2", "p2", 2, 1),
    ];
    assert!(s.create_order("o1".to_string(), o, items, 1).is_ok());

    // removing p1 removes its movement and, transitively, the order
    // item referencing that movement; p2's line survives
    let removed = s.delete_product(&"p1".to_string()).unwrap();
    assert_eq!(removed, 1 + 1 + 1);
    assert_eq!(s.products.len(), 1);
    assert_eq!(s.movements.len(), 1);
    assert_eq!(s.order_items.len(), 1);
    assert_eq!(s.order_items[0].id, "i2");
}

#[test]
fn create_rejects_bad_references_and_duplicates() {
    let mut s = Store::new();
    assert_eq!(
        s.create_inventory_movement(movement("m1", MovementKind::In, 1, "nope")),
        Err(StoreError::Validation)
    );
    assert!(s.create_client(client("c1", "Ada")).is_ok());
    assert_eq!(s.create_client(client("c1", "Twin")), Err(StoreError::Constraint));
    assert!(s.create_supplier(Supplier {
        id: "s1".to_string(),
        full_name: "Mills".to_string(),
        phone_number: None,
        email: None,
        address: None,
        image: None,
        created_at: 1,
    }).is_ok());

    // an order for a missing client is invalid input
    let o = NewOrder { client_id: "ghost".to_string(), status: "PENDING".to_string() };
    assert_eq!(s.create_order("o1".to_string(), o, vec![], 1), Err(StoreError::Validation));

    // an order line naming a missing product is invalid input
    let o = NewOrder { client_id: "c1".to_string(), status: "PENDING".to_string() };
    assert_eq!(
        s.create_order("o1".to_string(), o, vec![item("i1", "m1", "ghost", 1, 1)], 1),
        Err(StoreError::Validation)
    );

    // an invoice referencing a missing order is invalid input
    let v = NewInvoice {
        client_id: "c1".to_string(),
        order_id: Some("ghost".to_string()),
        status: "PENDING".to_string(),
        paid_amount: 0,
    };
    assert_eq!(s.create_invoice("v1".to_string(), v, vec![], 1), Err(StoreError::Validation));
}

#[test]
fn updates_touch_only_the_mutable_fields() {
    let mut s = Store::new();
    assert!(s.create_client(client("c1", "Ada")).is_ok());
    let o = NewOrder { client_id: "c1".to_string(), status: "PENDING".to_string() };
    assert!(s.create_order("o1".to_string(), o, vec![], 1).is_ok());
    assert!(s.update_order(&"o1".to_string(), "DELIVERED".to_string()).is_ok());
    assert_eq!(s.orders[0].status, "DELIVERED");
    assert_eq!(s.orders[0].client_id, "c1");

    let v = NewInvoice {
        client_id: "c1".to_string(),
        order_id: None,
        status: "PENDING".to_string(),
        paid_amount: 0,
    };
    assert!(s.create_invoice("v1".to_string(), v, vec![], 2).is_ok());
    assert!(s.update_invoice(&"v1".to_string(), "PAID".to_string(), 250).is_ok());
    assert_eq!(s.invoices[0].status, "PAID");
    assert_eq!(s.invoices[0].paid_amount, 250);

    assert_eq!(
        s.update_order(&"ghost".to_string(), "DELIVERED".to_string()),
        Err(StoreError::NotFound)
    );
    assert_eq!(
        s.update_invoice(&"ghost".to_string(), "PAID".to_string(), 1),
        Err(StoreError::NotFound)
    );
    assert_eq!(s.delete_quote(&"ghost".to_string()), Err(StoreError::NotFound));
    assert_eq!(s.delete_supplier(&"ghost".to_string()), Err(StoreError::NotFound));
}

#[test]
fn delete_quote_and_supplier() {
    let mut s = Store::new();
    assert!(s.create_client(client("c1", "Ada")).is_ok());
    assert!(s.create_product(product("p1", "bolt", 4)).is_ok());
    assert!(s.create_quote("q1".to_string(), "c1".to_string(),
        vec![NewQuoteItem { id: "k1".to_string(), product_id: "p1".to_string(), price: 4, quantity: 2 }],
        1).is_ok());
    // quotes reserve no stock
    assert_eq!(s.movements.len(), 0);
    let removed = s.delete_quote(&"q1".to_string()).unwrap();
    assert_eq!(removed, 2);
    assert_eq!(s.quotes.len(), 0);
    assert_eq!(s.quote_items.len(), 0);

    assert!(s.create_supplier(Supplier {
        id: "s1".to_string(),
        full_name: "Mills".to_string(),
        phone_number: None,
        email: None,
        address: None,
        image: None,
        created_at: 1,
    }).is_ok());
    assert_eq!(s.delete_supplier(&"s1".to_string()).unwrap(), 1);
    assert_eq!(s.suppliers.len(), 0);
}
