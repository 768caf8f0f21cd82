use stockledger::model::{
    Client, InventoryMovement, ListArgs, MovementKind, NewDocItem, NewInvoice, NewOrder, Product,
};
use stockledger::store::Store;

fn client(id: &str, name: &str) -> Client {
    Client {
        id: id.to_string(),
        full_name: name.to_string(),
        phone_number: Some("123".to_string()),
        email: Some("a@b.c".to_string()),
        address: Some("1 Main St".to_string()),
        image: None,
        created_at: 1,
    }
}

fn product(id: &str, name: &str, price: u32) -> Product {
    Product {
        id: id.to_string(),
        name: name.to_string(),
        description: None,
        image: None,
        price,
        min_quantity: 0,
        created_at: 1,
    }
}

fn movement(id: &str, kind: MovementKind, qty: u32, pid: &str) -> InventoryMovement {
    InventoryMovement {
        id: id.to_string(),
        kind,
        quantity: qty,
        product_id: pid.to_string(),
        created_at: 1,
    }
}

fn item(id: &str, inv: &str, pid: &str, price: u32, qty: u32) -> NewDocItem {
    NewDocItem {
        id: id.to_string(),
        inventory_id: inv.to_string(),
        product_id: pid.to_string(),
        price,
        quantity: qty,
    }
}

fn args(page: u64, per_page: u64) -> ListArgs {
    ListArgs { page, per_page, search: None, status: None }
}

fn seeded() -> Store {
    let mut s = Store::new();
    assert!(s.create_client(client("c1", "Ada")).is_ok());
    assert!(s.create_client(client("c2", "Grace")).is_ok());
    assert!(s.create_product(product("p1", "bolt", 4)).is_ok());
    assert!(s.create_product(product("p2", "nut", 2)).is_ok());
    assert!(s.create_inventory_movement(movement("m1", MovementKind::In, 50, "p1")).is_ok());
    assert!(s.create_inventory_movement(movement("m2", MovementKind::In, 30, "p2")).is_ok());
    s
}

#[test]
fn get_order_reports_count_and_total_of_the_created_items() {
    let mut s = seeded();
    let o = NewOrder { client_id: "c1".to_string(), status: "PENDING".to_string() };
    let items = vec![
        item("i1", "mv1", "p1", 40, 2),
        item("i2", "mv2", "p2", 25, 5),
    ];
    assert!(s.create_order("o1".to_string(), o, items, 9).is_ok());

    let d = s.get_order(&"o1".to_string()).unwrap();
    assert_eq!(d.id, "o1");
    assert_eq!(d.full_name, "Ada");
    assert_eq!(d.total, 65);
    assert_eq!(d.status, "PENDING");

    let rows = s.list_orders(&args(1, 10));
    assert_eq!(rows.len(), 1);
    assert_eq!(rows[0].products, 2);
    assert_eq!(rows[0].total, 65);

    assert!(s.get_order(&"ghost".to_string()).is_none());
}

#[test]
fn list_orders_pages_are_bounded_and_stable() {
    let mut s = seeded();
    for k in 0..12u32 {
        let o = NewOrder { client_id: "c1".to_string(), status: "PENDING".to_string() };
        assert!(s.create_order(format!("o{}", k), o, vec![], k as u64).is_ok());
    }
    let page1 = s.list_orders(&args(1, 10));
    assert_eq!(page1.len(), 10);
    let page2 = s.list_orders(&args(2, 10));
    assert_eq!(page2.len(), 2);

    // absent writes, the same query returns the same rows
    let again = s.list_orders(&args(1, 10));
    assert_eq!(page1.len(), again.len());
    for k in 0..10 {
        assert_eq!(page1[k].id, again[k].id);
        assert_eq!(page1[k].total, again[k].total);
    }

    // page 0 is read as page 1
    let page0 = s.list_orders(&args(0, 10));
    assert_eq!(page0[0].id, page1[0].id);

    // a status filter applies only to canonical values
    let mut f = args(1, 10);
    f.status = Some("CANCELED".to_string());
    assert_eq!(s.list_orders(&f).len(), 0);
    f.status = Some("not-a-status".to_string());
    assert_eq!(s.list_orders(&f).len(), 10);

    // the search term matches anywhere in the client's full name
    let mut f = args(1, 20);
    f.search = Some("Ada".to_string());
    assert_eq!(s.list_orders(&f).len(), 12);
    f.search = Some("da".to_string());
    assert_eq!(s.list_orders(&f).len(), 12);
    f.search = Some("Grace".to_string());
    assert_eq!(s.list_orders(&f).len(), 0);
}

#[test]
fn invoice_queries_join_their_rows() {
    let mut s = seeded();
    let v = NewInvoice {
        client_id: "c2".to_string(),
        order_id: None,
        status: "PENDING".to_string(),
        paid_amount: 10,
    };
    let items = vec![item("j1", "mv1", "p1", 40, 2)];
    assert!(s.create_invoice("v1".to_string(), v, items, 9).is_ok());

    let row = s.get_invoice(&"v1".to_string()).unwrap();
    assert_eq!(row.client_id, "c2");
    assert_eq!(row.paid_amount, 10);
    assert!(s.get_invoice(&"ghost".to_string()).is_none());

    let d = s.get_invoice_details(&"v1".to_string()).unwrap();
    assert_eq!(d.full_name, "Grace");
    assert_eq!(d.total, 40);
    assert_eq!(d.paid_amount, 10);

    let lines = s.list_invoice_products(&"v1".to_string());
    assert_eq!(lines.len(), 1);
    assert_eq!(lines[0].item_id, "j1");
    assert_eq!(lines[0].name, "bolt");
    assert_eq!(lines[0].quantity, 2);
    assert_eq!(lines[0].price, 40);

    assert_eq!(s.list_invoice_products(&"ghost".to_string()).len(), 0);

    let rows = s.list_invoices(&args(1, 10));
    assert_eq!(rows.len(), 1);
    assert_eq!(rows[0].products, 1);
    assert_eq!(rows[0].total, 40);
}

#[test]
fn dashboard_aggregates() {
    let mut s = seeded();
    let o = NewOrder { client_id: "c1".to_string(), status: "PENDING".to_string() };
    assert!(s.create_order("o1".to_string(), o, vec![item("i1", "mv1", "p1", 4, 7)], 1).is_ok());
    let o = NewOrder { client_id: "c1".to_string(), status: "DELIVERED".to_string() };
    assert!(s.create_order("o2".to_string(), o, vec![], 2).is_ok());
    let v = NewInvoice {
        client_id: "c2".to_string(),
        order_id: None,
        status: "PAID".to_string(),
        paid_amount: 95,
    };
    assert!(s.create_invoice("v1".to_string(), v, vec![], 3).is_ok());

    assert_eq!(s.count_orders_with_status(&"PENDING".to_string()), 1);
    assert_eq!(s.count_orders_with_status(&"DELIVERED".to_string()), 1);
    assert_eq!(s.count_invoices_with_status(&"PAID".to_string()), 1);

    let sc = s.list_status_count();
    assert_eq!(sc.len(), 4);
    assert_eq!(sc[0].status, "PENDING");
    assert_eq!(sc[0].orders, 1);
    assert_eq!(sc[1].status, "DELIVERED");
    assert_eq!(sc[1].orders, 1);
    assert_eq!(sc[2].status, "PAID");
    assert_eq!(sc[2].invoices, 1);
    assert_eq!(sc[3].status, "CANCELED");
    assert_eq!(sc[3].orders, 0);

    // revenue: the paid amounts summed; expenses: incoming quantity at
    // the product's unit price
    assert_eq!(s.list_revenue(), 95);
    assert_eq!(s.list_expenses(), 50 * 4 + 30 * 2);

    let stats = s.list_mvm_stats();
    assert_eq!(stats.len(), 2);
    assert_eq!(stats[0].product_id, "p1");
    assert_eq!(stats[0].quantity_in, 50);
    assert_eq!(stats[0].quantity_out, 7);
    assert_eq!(stats[1].product_id, "p2");
    assert_eq!(stats[1].quantity_in, 30);
    assert_eq!(stats[1].quantity_out, 0);

    let top = s.top_client().unwrap();
    assert_eq!(top.id, "c1");
    assert_eq!(top.volume, 2);
    let top = s.top_product().unwrap();
    assert_eq!(top.id, "p1");
    assert_eq!(top.volume, 7);
}

#[test]
fn command_envelopes_carry_data_or_error() {
    let mut s = seeded();
    let v = NewInvoice {
        client_id: "c2".to_string(),
        order_id: None,
        status: "PENDING".to_string(),
        paid_amount: 0,
    };
    let r = stockledger::commands::create_invoice(&mut s, "v1".to_string(), v,
        vec![item("j1", "mv1", "p1", 40, 2)], 9).unwrap();
    assert_eq!(r.data, Some("v1".to_string()));
    assert!(r.error.is_none());

    let r = stockledger::commands::get_invoice(&s, &"v1".to_string()).unwrap();
    assert!(r.data.is_some());
    let r = stockledger::commands::get_invoice(&s, &"ghost".to_string()).unwrap();
    assert!(r.data.is_none());

    let r = stockledger::commands::update_invoice(&mut s, &"v1".to_string(),
        "PAID".to_string(), 80).unwrap();
    assert_eq!(r.message, Some("update invoices success".to_string()));

    let e = stockledger::commands::update_invoice(&mut s, &"ghost".to_string(),
        "PAID".to_string(), 80).unwrap_err();
    assert_eq!(e.error, Some("not found: the id does not exist".to_string()));

    let r = stockledger::commands::delete_invoice(&mut s, &"v1".to_string()).unwrap();
    assert_eq!(r.data, Some(3));

    let r = stockledger::commands::list_revenue(&s).unwrap();
    assert_eq!(r.data, Some(0));

    let r = stockledger::commands::list_top_clients(&s).unwrap();
    assert_eq!(r.data.unwrap().len(), 1);
}
