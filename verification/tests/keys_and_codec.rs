use record_store::element::{database_element_get_kind, DatabaseElement};
use record_store::records::{Offer, Order, OrderID, OrderItem, VirtualTable};

fn sample_offer() -> Offer {
    Offer {
        name: "Kava".to_string(),
        description: "Mala kava.".to_string(),
        price_integer: 1,
        price_fraction: 50,
    }
}

fn sample_order(table: &str, count: u32, finished: bool) -> Order {
    Order {
        id: OrderID { table: table.to_string(), count },
        finished,
        items: vec![OrderItem { id: "Kava".to_string(), count: 2 }],
    }
}

#[test]
fn offer_qualified_identifier() {
    let o = sample_offer();
    assert_eq!(o.qualified_identifier(), "offer/()/Kava");
    assert_eq!(o.qualified_identifier_mainless(), "offer/()");
    assert_eq!(o.qualified_identifier_mainless_secondless(), "offer/()");
    assert_eq!(o.status_to_string(), "()");
    assert_eq!(o.self_namespace(), "offer");
    assert!(o.secondary_identifiers_try_to_string().is_none());
}

#[test]
fn table_qualified_identifier() {
    let t = VirtualTable { name: "Stol 1".to_string(), order_count: 0 };
    assert_eq!(t.qualified_identifier(), "table/()/Stol 1");
}

#[test]
fn order_qualified_identifier_new_and_old() {
    let o = sample_order("table1", 689, false);
    assert_eq!(o.qualified_identifier(), "order/(new)/table1/689");
    assert_eq!(o.qualified_identifier_mainless(), "order/(new)/table1");
    assert_eq!(o.qualified_identifier_mainless_secondless(), "order/(new)");
    assert_eq!(o.status_to_string(), "(new)");
    assert_eq!(
        o.secondary_identifiers_try_to_string(),
        Some("table1".to_string())
    );
    let f = sample_order("table1", 689, true);
    assert_eq!(f.qualified_identifier(), "order/(old)/table1/689");
}

#[test]
fn order_main_identifier_is_decimal() {
    assert_eq!(sample_order("t", 0, false).main_identifier(), "0");
    assert_eq!(sample_order("t", 7, false).main_identifier(), "7");
    assert_eq!(sample_order("t", 10, false).main_identifier(), "10");
    assert_eq!(sample_order("t", 4294967295, false).main_identifier(), "4294967295");
}

#[test]
fn get_kind_splits_at_first_separator() {
    assert_eq!(
        database_element_get_kind("order/(new)/table1/689"),
        Some("order".to_string())
    );
    assert_eq!(database_element_get_kind("offer/()/Kava"), Some("offer".to_string()));
    assert_eq!(database_element_get_kind("noseparator"), None);
    assert_eq!(database_element_get_kind(""), None);
    assert_eq!(database_element_get_kind("/leading"), Some("".to_string()));
}

#[test]
fn table_encoding_exact_bytes() {
    let t = VirtualTable { name: "A".to_string(), order_count: 2 };
    let bytes = t.encode().unwrap();
    assert_eq!(bytes, vec![1, 0, 0, 0, 65, 0, 0, 0, 2, 0, 0, 0]);
    let back = VirtualTable::decode(&bytes).unwrap();
    assert_eq!(back.name, "A");
    assert_eq!(back.order_count, 2);
}

#[test]
fn offer_codec_round_trip() {
    let o = sample_offer();
    let bytes = o.encode().unwrap();
    let back = Offer::decode(&bytes).unwrap();
    assert_eq!(back.name, o.name);
    assert_eq!(back.description, o.description);
    assert_eq!(back.price_integer, o.price_integer);
    assert_eq!(back.price_fraction, o.price_fraction);
}

#[test]
fn order_codec_round_trip() {
    let o = Order {
        id: OrderID { table: "Stol 2".to_string(), count: 31 },
        finished: true,
        items: vec![
            OrderItem { id: "Kava".to_string(), count: 2 },
            OrderItem { id: "Cedevita".to_string(), count: 4 },
        ],
    };
    let bytes = o.encode().unwrap();
    let back = Order::decode(&bytes).unwrap();
    assert_eq!(back.id.table, "Stol 2");
    assert_eq!(back.id.count, 31);
    assert!(back.finished);
    assert_eq!(back.items.len(), 2);
    assert_eq!(back.items[0].id, "Kava");
    assert_eq!(back.items[0].count, 2);
    assert_eq!(back.items[1].id, "Cedevita");
    assert_eq!(back.items[1].count, 4);
}

#[test]
fn order_codec_round_trip_unicode_and_empty_items() {
    let o = Order {
        id: OrderID { table: "Sto\u{10348}".to_string(), count: 1 },
        finished: false,
        items: vec![],
    };
    let bytes = o.encode().unwrap();
    let back = Order::decode(&bytes).unwrap();
    assert_eq!(back.id.table, "Sto\u{10348}");
    assert!(back.items.is_empty());
}

#[test]
fn decode_rejects_truncated_and_trailing_bytes() {
    let t = VirtualTable { name: "A".to_string(), order_count: 2 };
    let mut bytes = t.encode().unwrap();
    bytes.pop();
    assert!(VirtualTable::decode(&bytes).is_err());
    let mut bytes2 = t.encode().unwrap();
    bytes2.push(0);
    assert!(VirtualTable::decode(&bytes2).is_err());
}
