use record_store::element::DatabaseElement;
use record_store::records::{Offer, Order, OrderID, OrderItem, VirtualTable};
use record_store::store::Store;
use record_store::DbError;

fn offer(name: &str) -> Offer {
    Offer {
        name: name.to_string(),
        description: "piće".to_string(),
        price_integer: 2,
        price_fraction: 40,
    }
}

fn order(table: &str, count: u32, finished: bool) -> Order {
    Order {
        id: OrderID { table: table.to_string(), count },
        finished,
        items: vec![OrderItem { id: "Kava".to_string(), count: 1 }],
    }
}

#[test]
fn insert_then_get_exact_round_trip() {
    let mut db = Store::open_temporary().unwrap();
    let o = offer("Kava");
    o.insert(&mut db).unwrap();
    let got = Offer::get(o.qualified_identifier(), &db).unwrap().unwrap();
    assert_eq!(got.name, o.name);
    assert_eq!(got.description, o.description);
    assert_eq!(got.price_integer, o.price_integer);
    assert_eq!(got.price_fraction, o.price_fraction);
}

#[test]
fn get_on_absent_key_is_not_found_not_error() {
    let db = Store::open_temporary().unwrap();
    let r = Offer::get("offer/()/Nema".to_string(), &db);
    assert_eq!(r.map(|o| o.is_none()), Ok(true));
}

#[test]
fn insert_overwrites_same_key() {
    let mut db = Store::open_temporary().unwrap();
    let mut o = offer("Kava");
    o.insert(&mut db).unwrap();
    o.description = "nova".to_string();
    o.insert(&mut db).unwrap();
    let got = Offer::get(o.qualified_identifier(), &db).unwrap().unwrap();
    assert_eq!(got.description, "nova");
    assert_eq!(Offer::get_all(&db).unwrap().len(), 1);
}

#[test]
fn remove_clears_membership_and_scans() {
    let mut db = Store::open_temporary().unwrap();
    let a = offer("Kava");
    let b = offer("Cedevita");
    a.insert(&mut db).unwrap();
    b.insert(&mut db).unwrap();
    assert!(a.exists_in(&db).unwrap());
    let all = Offer::get_all(&db).unwrap();
    assert_eq!(all.len(), 2);
    assert!(all.iter().any(|x| x.name == "Kava"));
    a.remove(&mut db).unwrap();
    assert!(!a.exists_in(&db).unwrap());
    assert!(Offer::get(a.qualified_identifier(), &db).unwrap().is_none());
    let all2 = Offer::get_all(&db).unwrap();
    assert_eq!(all2.len(), 1);
    assert!(!all2.iter().any(|x| x.name == "Kava"));
}

#[test]
fn remove_of_absent_record_is_not_an_error() {
    let mut db = Store::open_temporary().unwrap();
    offer("Kava").remove(&mut db).unwrap();
}

#[test]
fn prefix_scoping_counts() {
    let mut db = Store::open_temporary().unwrap();
    order("Stol 1", 1, false).insert(&mut db).unwrap();
    order("Stol 1", 2, false).insert(&mut db).unwrap();
    order("Stol 2", 4, false).insert(&mut db).unwrap();
    order("Stol 1", 3, true).insert(&mut db).unwrap();
    order("Stol 2", 5, true).insert(&mut db).unwrap();

    let all = Order::get_all(&db).unwrap();
    assert_eq!(all.len(), 5);

    let new_template = order("", 0, false);
    let news = new_template.get_status(&db).unwrap();
    assert_eq!(news.len(), 3);
    assert!(news.iter().all(|o| !o.finished));

    let olds = order("", 0, true).get_status(&db).unwrap();
    assert_eq!(olds.len(), 2);
    assert!(olds.iter().all(|o| o.finished));

    let group = order("Stol 1", 0, false).get_templated(&db).unwrap();
    assert_eq!(group.len(), 2);
    assert!(group.iter().all(|o| o.id.table == "Stol 1"));
}

#[test]
fn scan_does_not_leak_other_kinds() {
    let mut db = Store::open_temporary().unwrap();
    offer("Kava").insert(&mut db).unwrap();
    VirtualTable { name: "Stol 1".to_string(), order_count: 0 }.insert(&mut db).unwrap();
    order("Stol 1", 1, false).insert(&mut db).unwrap();
    assert_eq!(Offer::get_all(&db).unwrap().len(), 1);
    assert_eq!(VirtualTable::get_all(&db).unwrap().len(), 1);
    assert_eq!(Order::get_all(&db).unwrap().len(), 1);
}

#[test]
fn scan_order_is_lexicographic_by_key() {
    let mut db = Store::open_temporary().unwrap();
    offer("b").insert(&mut db).unwrap();
    offer("a").insert(&mut db).unwrap();
    offer("c").insert(&mut db).unwrap();
    let all = Offer::get_all(&db).unwrap();
    let names: Vec<&str> = all.iter().map(|o| o.name.as_str()).collect();
    assert_eq!(names, vec!["a", "b", "c"]);
}

#[test]
fn value_of_wrong_kind_reports_deserialization_error() {
    let mut db = Store::open_temporary().unwrap();
    let o = Offer {
        name: "A".to_string(),
        description: "BB".to_string(),
        price_integer: 1,
        price_fraction: 50,
    };
    o.insert(&mut db).unwrap();
    let r = VirtualTable::get(o.qualified_identifier(), &db);
    assert_eq!(r.err(), Some(DbError::Deserialization));
}

#[test]
fn scans_on_empty_store_are_empty() {
    let db = Store::open_temporary().unwrap();
    assert!(Offer::get_all(&db).unwrap().is_empty());
    assert!(VirtualTable::get_all(&db).unwrap().is_empty());
    assert!(Order::get_all(&db).unwrap().is_empty());
    assert!(order("", 0, false).get_status(&db).unwrap().is_empty());
    assert!(order("Stol 1", 0, false).get_templated(&db).unwrap().is_empty());
}

#[test]
fn empty_identifiers_still_round_trip() {
    let mut db = Store::open_temporary().unwrap();
    let o = Offer {
        name: String::new(),
        description: String::new(),
        price_integer: 0,
        price_fraction: 0,
    };
    assert_eq!(o.qualified_identifier(), "offer/()/");
    o.insert(&mut db).unwrap();
    let got = Offer::get(o.qualified_identifier(), &db).unwrap().unwrap();
    assert_eq!(got.name, "");
    assert_eq!(got.description, "");
}

#[test]
fn group_scan_is_scoped_to_template_status() {
    let mut db = Store::open_temporary().unwrap();
    order("Stol 1", 1, false).insert(&mut db).unwrap();
    order("Stol 1", 2, true).insert(&mut db).unwrap();
    let open_group = order("Stol 1", 0, false).get_templated(&db).unwrap();
    assert_eq!(open_group.len(), 1);
    assert!(!open_group[0].finished);
    let done_group = order("Stol 1", 0, true).get_templated(&db).unwrap();
    assert_eq!(done_group.len(), 1);
    assert!(done_group[0].finished);
}

#[test]
fn group_scan_does_not_match_longer_table_names() {
    let mut db = Store::open_temporary().unwrap();
    order("T1", 1, false).insert(&mut db).unwrap();
    order("T1", 2, false).insert(&mut db).unwrap();
    order("T10", 1, false).insert(&mut db).unwrap();
    order("T10", 2, false).insert(&mut db).unwrap();
    order("T10", 3, true).insert(&mut db).unwrap();

    let t1_group = order("T1", 0, false).get_templated(&db).unwrap();
    assert_eq!(t1_group.len(), 2);
    assert!(t1_group.iter().all(|o| o.id.table == "T1"));

    let t10_group = order("T10", 0, false).get_templated(&db).unwrap();
    assert_eq!(t10_group.len(), 2);
    assert!(t10_group.iter().all(|o| o.id.table == "T10"));

    let t10_done = order("T10", 0, true).get_templated(&db).unwrap();
    assert_eq!(t10_done.len(), 1);
    assert!(t10_done[0].finished);
}
