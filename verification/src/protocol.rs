//! The order numbering and status-transition protocol.
//!
//! Creating an order draws the next number from its table's counter and
//! persists both records; finishing an order moves it from its open-status
//! key to its finished-status key.  Neither sequence is atomic: when the
//! second write fails, the keyspace keeps the intermediate state, which the
//! contracts below spell out rather than hide.

use vstd::prelude::*;

use crate::codec::str_encodable;
use crate::element::DatabaseElement;
use crate::records::{
    dec_order, dec_table, enc_order, enc_table, items_encodable, order_key, table_key, Order,
    OrderID, OrderItem, OrderItemV, OrderV, VirtualTable, VirtualTableV,
};
use crate::store::{contents, Store};
use crate::DbError;

verus! {

/// Whether the table stored under this name (if any) can still hand out
/// one more order number without its counter wrapping.
pub open spec fn table_counter_has_room(m: Map<Seq<char>, Seq<u8>>, name: Seq<char>) -> bool {
    (m.dom().contains(table_key(name)) && dec_table(m[table_key(name)]) is Some)
        ==> dec_table(m[table_key(name)])->Some_0.order_count < u32::MAX
}

/// Creates an order for the named table: fetches the table by exact key,
/// increments its counter by exactly one, persists the updated table, and
/// persists the new open-status order whose number is the new counter
/// value.
///
/// A missing table is a precondition failure (`NotFound`); a table value
/// that does not decode is `Deserialization`; in both cases nothing is
/// written.  The two writes are not atomic: when the order write fails
/// after the table write succeeded, the counter has advanced with no
/// corresponding order — numbers need not be contiguous, but never repeat.
pub fn create_order(db: &mut Store, table_name: String, items: Vec<OrderItem>) -> (r: Result<
    Order,
    DbError,
>)
    requires
        str_encodable(table_name@),
        items_encodable(items@.map_values(|it: OrderItem| it@)),
        table_counter_has_room(contents(*old(db)), table_name@),
    ensures
        r matches Ok(o) ==> {
            &&& contents(*old(db)).dom().contains(table_key(table_name@))
            &&& dec_table(contents(*old(db))[table_key(table_name@)]) is Some
            &&& {
                let tv = dec_table(contents(*old(db))[table_key(table_name@)])->Some_0;
                &&& o@.id.table == table_name@
                &&& o@.id.count == tv.order_count + 1
                &&& o@.finished == false
                &&& o@.items == items@.map_values(|it: OrderItem| it@)
                &&& contents(*final(db)) == contents(*old(db)).insert(
                    table_key(tv.name),
                    enc_table(
                        VirtualTableV {
                            name: tv.name,
                            order_count: (tv.order_count + 1) as u32,
                        },
                    ),
                ).insert(
                    order_key(table_name@, (tv.order_count + 1) as u32, false),
                    enc_order(o@),
                )
            }
        },
        r == Err::<Order, DbError>(DbError::NotFound) ==> !contents(*old(db)).dom().contains(
            table_key(table_name@),
        ) && contents(*final(db)) == contents(*old(db)),
        !contents(*old(db)).dom().contains(table_key(table_name@)) ==> r == Err::<
            Order,
            DbError,
        >(DbError::NotFound) || r == Err::<Order, DbError>(DbError::Store),
        r == Err::<Order, DbError>(DbError::Deserialization) ==> contents(
            *old(db),
        ).dom().contains(table_key(table_name@)) && dec_table(
            contents(*old(db))[table_key(table_name@)],
        ) is None && contents(*final(db)) == contents(*old(db)),
        r is Err ==> r->Err_0 == DbError::NotFound || r->Err_0 == DbError::Deserialization
            || r->Err_0 == DbError::Store,
{
    let template = VirtualTable { name: table_name.clone(), order_count: 0 };
    let key = template.qualified_identifier();
    proof {
        assert(key@ == table_key(table_name@));
    }
    let table = match VirtualTable::get(key, db) {
        Ok(Some(t)) => t,
        Ok(None) => {
            return Err(DbError::NotFound);
        },
        Err(e) => {
            return Err(e);
        },
    };
    proof {
        assert(dec_table(contents(*db)[table_key(table_name@)]) == Some(table@));
        crate::records::lemma_dec_table_encodable(contents(*db)[table_key(table_name@)]);
    }
    let updated = VirtualTable { name: table.name, order_count: table.order_count + 1 };
    match updated.insert(db) {
        Ok(()) => (),
        Err(e) => {
            return Err(e);
        },
    }
    let order = Order {
        id: OrderID { table: table_name, count: updated.order_count },
        finished: false,
        items,
    };
    match order.insert(db) {
        Ok(()) => Ok(order),
        Err(e) => Err(e),
    }
}

/// Finishes the open order identified by its table and number: fetches it
/// at its open-status key, removes that key, and re-inserts the order,
/// finished flag set, at its finished-status key.
///
/// A missing or undecodable order is a precondition failure and nothing is
/// written.  Between the remove and the insert the order is absent from
/// the keyspace; a store failure in that window loses it, as the contract
/// makes no claim about the contents when `Store` is returned.
pub fn finish_order(db: &mut Store, table_name: String, count: u32) -> (r: Result<Order, DbError>)
    ensures
        r matches Ok(o) ==> {
            &&& contents(*old(db)).dom().contains(order_key(table_name@, count, false))
            &&& dec_order(contents(*old(db))[order_key(table_name@, count, false)]) is Some
            &&& {
                let ov = dec_order(
                    contents(*old(db))[order_key(table_name@, count, false)],
                )->Some_0;
                &&& o@ == OrderV { id: ov.id, finished: true, items: ov.items }
                &&& contents(*final(db)) == contents(*old(db)).remove(
                    order_key(table_name@, count, false),
                ).insert(order_key(ov.id.table, ov.id.count, true), enc_order(o@))
            }
        },
        r == Err::<Order, DbError>(DbError::NotFound) ==> !contents(*old(db)).dom().contains(
            order_key(table_name@, count, false),
        ) && contents(*final(db)) == contents(*old(db)),
        !contents(*old(db)).dom().contains(order_key(table_name@, count, false)) ==> r == Err::<
            Order,
            DbError,
        >(DbError::NotFound) || r == Err::<Order, DbError>(DbError::Store),
        r == Err::<Order, DbError>(DbError::Deserialization) ==> contents(
            *old(db),
        ).dom().contains(order_key(table_name@, count, false)) && dec_order(
            contents(*old(db))[order_key(table_name@, count, false)],
        ) is None && contents(*final(db)) == contents(*old(db)),
        r is Err ==> r->Err_0 == DbError::NotFound || r->Err_0 == DbError::Deserialization
            || r->Err_0 == DbError::Store,
{
    let template = Order {
        id: OrderID { table: table_name, count },
        finished: false,
        items: Vec::new(),
    };
    let key = template.qualified_identifier();
    proof {
        assert(template@.items =~= Seq::<OrderItemV>::empty());
        assert(key@ == order_key(template@.id.table, count, false));
    }
    let fetched = match Order::get(key, db) {
        Ok(Some(o)) => o,
        Ok(None) => {
            return Err(DbError::NotFound);
        },
        Err(e) => {
            return Err(e);
        },
    };
    proof {
        crate::records::lemma_dec_order_encodable(
            contents(*db)[order_key(template@.id.table, count, false)],
        );
    }
    let finished_order = Order { id: fetched.id, finished: true, items: fetched.items };
    match template.relocate(&finished_order, db) {
        Ok(()) => Ok(finished_order),
        Err(e) => Err(e),
    }
}

} // verus!
