use record_store::element::DatabaseElement;
use record_store::protocol::{create_order, finish_order};
use record_store::records::{Order, OrderID, OrderItem, VirtualTable};
use record_store::store::Store;
use record_store::DbError;

fn items(name: &str, count: u32) -> Vec<OrderItem> {
    vec![OrderItem { id: name.to_string(), count }]
}

#[test]
fn numbering_is_monotonic_from_zero() {
    let mut db = Store::open_temporary().unwrap();
    VirtualTable { name: "T1".to_string(), order_count: 0 }.insert(&mut db).unwrap();

    let first = create_order(&mut db, "T1".to_string(), items("Kava", 2)).unwrap();
    assert_eq!(first.id.count, 1);
    assert_eq!(first.main_identifier(), "1");

    let second = create_order(&mut db, "T1".to_string(), items("Cedevita", 1)).unwrap();
    assert_eq!(second.id.count, 2);
    assert_eq!(second.main_identifier(), "2");

    let key = VirtualTable { name: "T1".to_string(), order_count: 0 }.qualified_identifier();
    let stored = VirtualTable::get(key, &db).unwrap().unwrap();
    assert_eq!(stored.order_count, 2);
}

#[test]
fn create_order_for_missing_table_is_not_found() {
    let mut db = Store::open_temporary().unwrap();
    let r = create_order(&mut db, "Nema".to_string(), items("Kava", 1));
    assert_eq!(r.err(), Some(DbError::NotFound));
    assert!(Order::get_all(&db).unwrap().is_empty());
}

#[test]
fn finish_order_moves_between_statuses() {
    let mut db = Store::open_temporary().unwrap();
    VirtualTable { name: "T1".to_string(), order_count: 0 }.insert(&mut db).unwrap();
    let created = create_order(&mut db, "T1".to_string(), items("Kava", 2)).unwrap();
    assert!(!created.finished);

    let news = Order {
        id: OrderID { table: String::new(), count: 0 },
        finished: false,
        items: vec![],
    }
    .get_status(&db)
    .unwrap();
    assert_eq!(news.len(), 1);

    let finished = finish_order(&mut db, "T1".to_string(), created.id.count).unwrap();
    assert!(finished.finished);
    assert_eq!(finished.id.table, "T1");
    assert_eq!(finished.id.count, created.id.count);
    assert_eq!(finished.items.len(), 1);
    assert_eq!(finished.items[0].id, "Kava");
    assert_eq!(finished.items[0].count, 2);

    let news_after = Order {
        id: OrderID { table: String::new(), count: 0 },
        finished: false,
        items: vec![],
    }
    .get_status(&db)
    .unwrap();
    assert!(news_after.is_empty());

    let olds_after = Order {
        id: OrderID { table: String::new(), count: 0 },
        finished: true,
        items: vec![],
    }
    .get_status(&db)
    .unwrap();
    assert_eq!(olds_after.len(), 1);
    assert_eq!(olds_after[0].items[0].id, "Kava");

    let open_template = Order {
        id: OrderID { table: "T1".to_string(), count: created.id.count },
        finished: false,
        items: vec![],
    };
    assert!(!open_template.exists_in(&db).unwrap());
    assert!(Order::get(open_template.qualified_identifier(), &db).unwrap().is_none());
}

#[test]
fn finish_order_of_missing_order_is_not_found() {
    let mut db = Store::open_temporary().unwrap();
    let r = finish_order(&mut db, "T1".to_string(), 9);
    assert_eq!(r.err(), Some(DbError::NotFound));
}

#[test]
fn whole_order_lifecycle_scenario() {
    let mut db = Store::open_temporary().unwrap();
    VirtualTable { name: "T1".to_string(), order_count: 0 }.insert(&mut db).unwrap();

    let created = create_order(&mut db, "T1".to_string(), items("Kava", 2)).unwrap();
    assert_eq!(created.id.table, "T1");
    assert_eq!(created.id.count, 1);
    assert!(!created.finished);
    assert_eq!(created.qualified_identifier(), "order/(new)/T1/1");

    let finished = finish_order(&mut db, "T1".to_string(), 1).unwrap();
    assert_eq!(finished.id.table, "T1");
    assert_eq!(finished.id.count, 1);
    assert!(finished.finished);
    assert_eq!(finished.items.len(), 1);
    assert_eq!(finished.items[0].id, "Kava");
    assert_eq!(finished.items[0].count, 2);
    assert_eq!(finished.qualified_identifier(), "order/(old)/T1/1");

    let all = Order::get_all(&db).unwrap();
    assert_eq!(all.len(), 1);
    assert!(all[0].finished);
}
