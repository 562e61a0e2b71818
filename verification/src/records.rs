//! The three record kinds that share the keyspace: menu offers, virtual
//! tables, and orders.  Each kind carries its namespace, status tags,
//! secondary identifiers and main identifier, and a checked binary codec
//! for its values.

use vstd::prelude::*;
use vstd::string::*;

use crate::codec::{
    dec_bool, dec_str, dec_u32, decode_bool, decode_str, decode_u32, enc_bool, enc_str,
    encode_bool, encode_str, encode_u32, lemma_dec_bool_of_enc, lemma_dec_str_encodable,
    lemma_dec_str_of_enc, lemma_dec_u32_of_enc, str_encodable, u32_le,
};
use crate::element::{scan_decode, DatabaseElement};
use crate::keys::qualified_key;
use crate::store::Store;
use crate::DbError;

verus! {

/// An offer is identified by its name.
pub type OfferID = String;

/// A table is identified by its name.
pub type VirtualTableID = String;

/// A menu offer: a priced item that orders refer to by name.
#[derive(Clone, Debug)]
pub struct Offer {
    pub name: String,
    pub description: String,
    pub price_integer: u32,
    pub price_fraction: u32,
}

/// A table with the counter from which its order numbers are drawn.
#[derive(Clone, Debug)]
pub struct VirtualTable {
    pub name: String,
    pub order_count: u32,
}

/// The identity of an order: the owning table and the sequence number the
/// table's counter held when the order was created.
#[derive(Clone, Debug)]
pub struct OrderID {
    pub table: VirtualTableID,
    pub count: u32,
}

/// One line of an order: an offer name and a quantity.
#[derive(Clone, Debug)]
pub struct OrderItem {
    pub id: OfferID,
    pub count: u32,
}

/// An order: its identity, whether it is finished, and its lines.
#[derive(Clone, Debug)]
pub struct Order {
    pub id: OrderID,
    pub finished: bool,
    pub items: Vec<OrderItem>,
}

/// The mathematical value of an `Offer`.
pub struct OfferV {
    pub name: Seq<char>,
    pub description: Seq<char>,
    pub price_integer: u32,
    pub price_fraction: u32,
}

/// The mathematical value of a `VirtualTable`.
pub struct VirtualTableV {
    pub name: Seq<char>,
    pub order_count: u32,
}

/// The mathematical value of an `OrderID`.
pub struct OrderIDV {
    pub table: Seq<char>,
    pub count: u32,
}

/// The mathematical value of an `OrderItem`.
pub struct OrderItemV {
    pub id: Seq<char>,
    pub count: u32,
}

/// The mathematical value of an `Order`.
pub struct OrderV {
    pub id: OrderIDV,
    pub finished: bool,
    pub items: Seq<OrderItemV>,
}

impl View for Offer {
    type V = OfferV;

    open spec fn view(&self) -> OfferV {
        OfferV {
            name: self.name@,
            description: self.description@,
            price_integer: self.price_integer,
            price_fraction: self.price_fraction,
        }
    }
}

impl View for VirtualTable {
    type V = VirtualTableV;

    open spec fn view(&self) -> VirtualTableV {
        VirtualTableV { name: self.name@, order_count: self.order_count }
    }
}

impl View for OrderID {
    type V = OrderIDV;

    open spec fn view(&self) -> OrderIDV {
        OrderIDV { table: self.table@, count: self.count }
    }
}

impl View for OrderItem {
    type V = OrderItemV;

    open spec fn view(&self) -> OrderItemV {
        OrderItemV { id: self.id@, count: self.count }
    }
}

impl View for Order {
    type V = OrderV;

    open spec fn view(&self) -> OrderV {
        OrderV {
            id: self.id@,
            finished: self.finished,
            items: self.items@.map_values(|it: OrderItem| it@),
        }
    }
}

pub open spec fn offer_namespace() -> Seq<char> {
    seq!['o', 'f', 'f', 'e', 'r']
}

pub open spec fn table_namespace() -> Seq<char> {
    seq!['t', 'a', 'b', 'l', 'e']
}

pub open spec fn order_namespace() -> Seq<char> {
    seq!['o', 'r', 'd', 'e', 'r']
}

/// The status tag of an open order.
pub open spec fn new_tag() -> Seq<char> {
    seq!['n', 'e', 'w']
}

/// The status tag of a finished order.
pub open spec fn old_tag() -> Seq<char> {
    seq!['o', 'l', 'd']
}

/// The one status tag an order carries, chosen by its finished flag.
pub open spec fn order_status_tag(finished: bool) -> Seq<char> {
    if finished {
        old_tag()
    } else {
        new_tag()
    }
}

/// The decimal digit `d` as a character.
pub open spec fn digit_char(d: nat) -> char
    recommends
        d < 10,
{
    (48 + d) as char
}

/// The decimal digits of `n`, most significant first, no leading zeros
/// (a single `0` for zero itself).
pub open spec fn dec_digits(n: nat) -> Seq<char>
    decreases n,
{
    if n < 10 {
        seq![digit_char(n)]
    } else {
        dec_digits(n / 10) + seq![digit_char(n % 10)]
    }
}

/// The key under which an offer with this name is stored.
pub open spec fn offer_key(name: Seq<char>) -> Seq<char> {
    qualified_key(offer_namespace(), Seq::empty(), Seq::empty(), name)
}

/// The key under which a table with this name is stored.
pub open spec fn table_key(name: Seq<char>) -> Seq<char> {
    qualified_key(table_namespace(), Seq::empty(), Seq::empty(), name)
}

/// The key under which an order is stored: its status tag is part of the
/// key, so finishing an order moves it.
pub open spec fn order_key(table: Seq<char>, count: u32, finished: bool) -> Seq<char> {
    qualified_key(
        order_namespace(),
        seq![order_status_tag(finished)],
        seq![table],
        dec_digits(count as nat),
    )
}

/// Whether an offer's strings fit the codec's length prefixes.
pub open spec fn offer_encodable(v: OfferV) -> bool {
    str_encodable(v.name) && str_encodable(v.description)
}

pub open spec fn enc_offer(v: OfferV) -> Seq<u8> {
    enc_str(v.name) + enc_str(v.description) + u32_le(v.price_integer) + u32_le(v.price_fraction)
}

pub open spec fn dec_offer(b: Seq<u8>) -> Option<OfferV> {
    match dec_str(b) {
        Some((name, r1)) => match dec_str(r1) {
            Some((description, r2)) => match dec_u32(r2) {
                Some((price_integer, r3)) => match dec_u32(r3) {
                    Some((price_fraction, r4)) => if r4.len() == 0 {
                        Some(OfferV { name, description, price_integer, price_fraction })
                    } else {
                        None
                    },
                    None => None,
                },
                None => None,
            },
            None => None,
        },
        None => None,
    }
}

/// Whether a table's name fits the codec's length prefix.
pub open spec fn table_encodable(v: VirtualTableV) -> bool {
    str_encodable(v.name)
}

pub open spec fn enc_table(v: VirtualTableV) -> Seq<u8> {
    enc_str(v.name) + u32_le(v.order_count)
}

pub open spec fn dec_table(b: Seq<u8>) -> Option<VirtualTableV> {
    match dec_str(b) {
        Some((name, r1)) => match dec_u32(r1) {
            Some((order_count, r2)) => if r2.len() == 0 {
                Some(VirtualTableV { name, order_count })
            } else {
                None
            },
            None => None,
        },
        None => None,
    }
}

pub open spec fn enc_item(it: OrderItemV) -> Seq<u8> {
    enc_str(it.id) + u32_le(it.count)
}

pub open spec fn enc_items(items: Seq<OrderItemV>) -> Seq<u8>
    decreases items.len(),
{
    if items.len() == 0 {
        Seq::empty()
    } else {
        enc_item(items[0]) + enc_items(items.drop_first())
    }
}

/// Whether a list of order lines fits the codec's length prefixes.
pub open spec fn items_encodable(items: Seq<OrderItemV>) -> bool {
    items.len() <= u32::MAX && forall|i: int|
        0 <= i < items.len() ==> str_encodable((#[trigger] items[i]).id)
}

/// Whether an order's strings and line count fit the codec.
pub open spec fn order_encodable(v: OrderV) -> bool {
    str_encodable(v.id.table) && items_encodable(v.items)
}

pub open spec fn enc_order(v: OrderV) -> Seq<u8> {
    enc_str(v.id.table) + u32_le(v.id.count) + enc_bool(v.finished) + u32_le(
        v.items.len() as u32,
    ) + enc_items(v.items)
}

pub open spec fn dec_item(b: Seq<u8>) -> Option<(OrderItemV, Seq<u8>)> {
    match dec_str(b) {
        Some((id, r1)) => match dec_u32(r1) {
            Some((count, r2)) => Some((OrderItemV { id, count }, r2)),
            None => None,
        },
        None => None,
    }
}

pub open spec fn dec_items(b: Seq<u8>, n: nat) -> Option<(Seq<OrderItemV>, Seq<u8>)>
    decreases n,
{
    if n == 0 {
        Some((Seq::empty(), b))
    } else {
        match dec_item(b) {
            Some((it, rest)) => match dec_items(rest, (n - 1) as nat) {
                Some((items, rest2)) => Some((seq![it] + items, rest2)),
                None => None,
            },
            None => None,
        }
    }
}

pub open spec fn dec_order(b: Seq<u8>) -> Option<OrderV> {
    match dec_str(b) {
        Some((table, r1)) => match dec_u32(r1) {
            Some((count, r2)) => match dec_bool(r2) {
                Some((finished, r3)) => match dec_u32(r3) {
                    Some((n, r4)) => match dec_items(r4, n as nat) {
                        Some((items, r5)) => if r5.len() == 0 {
                            Some(OrderV { id: OrderIDV { table, count }, finished, items })
                        } else {
                            None
                        },
                        None => None,
                    },
                    None => None,
                },
                None => None,
            },
            None => None,
        },
        None => None,
    }
}

pub proof fn lemma_dec_offer_of_enc(v: OfferV)
    requires
        offer_encodable(v),
    ensures
        dec_offer(enc_offer(v)) == Some(v),
{
    let t3 = u32_le(v.price_fraction);
    let t2 = u32_le(v.price_integer) + t3;
    let t1 = enc_str(v.description) + t2;
    assert(enc_offer(v) =~= enc_str(v.name) + t1);
    lemma_dec_str_of_enc(v.name, t1);
    assert(t1 =~= enc_str(v.description) + t2);
    lemma_dec_str_of_enc(v.description, t2);
    lemma_dec_u32_of_enc(v.price_integer, t3);
    assert(t3 =~= u32_le(v.price_fraction) + Seq::<u8>::empty());
    lemma_dec_u32_of_enc(v.price_fraction, Seq::<u8>::empty());
}

pub proof fn lemma_dec_offer_encodable(b: Seq<u8>)
    ensures
        dec_offer(b) matches Some(v) ==> offer_encodable(v),
{
    lemma_dec_str_encodable(b);
    match dec_str(b) {
        Some((name, r1)) => {
            lemma_dec_str_encodable(r1);
        },
        None => {},
    }
}

pub proof fn lemma_dec_table_of_enc(v: VirtualTableV)
    requires
        table_encodable(v),
    ensures
        dec_table(enc_table(v)) == Some(v),
{
    let t1 = u32_le(v.order_count);
    assert(enc_table(v) =~= enc_str(v.name) + t1);
    lemma_dec_str_of_enc(v.name, t1);
    assert(t1 =~= u32_le(v.order_count) + Seq::<u8>::empty());
    lemma_dec_u32_of_enc(v.order_count, Seq::<u8>::empty());
}

pub proof fn lemma_dec_table_encodable(b: Seq<u8>)
    ensures
        dec_table(b) matches Some(v) ==> table_encodable(v),
{
    lemma_dec_str_encodable(b);
}

pub proof fn lemma_dec_item_of_enc(it: OrderItemV, rest: Seq<u8>)
    requires
        str_encodable(it.id),
    ensures
        dec_item(enc_item(it) + rest) == Some((it, rest)),
{
    assert(enc_item(it) + rest =~= enc_str(it.id) + (u32_le(it.count) + rest));
    lemma_dec_str_of_enc(it.id, u32_le(it.count) + rest);
    lemma_dec_u32_of_enc(it.count, rest);
}

pub proof fn lemma_dec_items_of_enc(items: Seq<OrderItemV>, rest: Seq<u8>)
    requires
        forall|i: int| 0 <= i < items.len() ==> str_encodable((#[trigger] items[i]).id),
    ensures
        dec_items(enc_items(items) + rest, items.len()) == Some((items, rest)),
    decreases items.len(),
{
    if items.len() == 0 {
        assert(enc_items(items) + rest =~= rest);
        assert(items =~= Seq::<OrderItemV>::empty());
    } else {
        let it = items[0];
        let tail = items.drop_first();
        assert(enc_items(items) + rest =~= enc_item(it) + (enc_items(tail) + rest));
        lemma_dec_item_of_enc(it, enc_items(tail) + rest);
        assert(forall|i: int|
            0 <= i < tail.len() ==> str_encodable((#[trigger] tail[i]).id)) by {
            assert(forall|i: int| 0 <= i < tail.len() ==> tail[i] == items[i + 1]);
        }
        lemma_dec_items_of_enc(tail, rest);
        assert(seq![it] + tail =~= items);
    }
}

pub proof fn lemma_dec_items_wf(b: Seq<u8>, n: nat)
    ensures
        dec_items(b, n) matches Some(p) ==> p.0.len() == n && forall|i: int|
            0 <= i < p.0.len() ==> str_encodable((#[trigger] p.0[i]).id),
    decreases n,
{
    if n > 0 {
        match dec_item(b) {
            Some((it, rest)) => {
                lemma_dec_str_encodable(b);
                lemma_dec_items_wf(rest, (n - 1) as nat);
                match dec_items(rest, (n - 1) as nat) {
                    Some((items, _r2)) => {
                        let whole = seq![it] + items;
                        assert(whole[0] == it);
                        assert(forall|i: int| 1 <= i < whole.len() ==> whole[i] == items[i - 1]);
                    },
                    None => {},
                }
            },
            None => {},
        }
    }
}

pub proof fn lemma_dec_order_of_enc(v: OrderV)
    requires
        order_encodable(v),
    ensures
        dec_order(enc_order(v)) == Some(v),
{
    let n = v.items.len() as u32;
    let t4 = u32_le(n) + enc_items(v.items);
    let t3 = enc_bool(v.finished) + t4;
    let t2 = u32_le(v.id.count) + t3;
    assert(enc_order(v) =~= enc_str(v.id.table) + t2);
    lemma_dec_str_of_enc(v.id.table, t2);
    assert(t2 =~= u32_le(v.id.count) + t3);
    lemma_dec_u32_of_enc(v.id.count, t3);
    assert(t3 =~= enc_bool(v.finished) + t4);
    lemma_dec_bool_of_enc(v.finished, t4);
    assert(t4 =~= u32_le(n) + (enc_items(v.items) + Seq::<u8>::empty()));
    lemma_dec_u32_of_enc(n, enc_items(v.items) + Seq::<u8>::empty());
    lemma_dec_items_of_enc(v.items, Seq::<u8>::empty());
    assert(n as nat == v.items.len());
}

pub proof fn lemma_dec_order_encodable(b: Seq<u8>)
    ensures
        dec_order(b) matches Some(v) ==> order_encodable(v),
{
    lemma_dec_str_encodable(b);
    match dec_str(b) {
        Some((_table, r1)) => match dec_u32(r1) {
            Some((_count, r2)) => match dec_bool(r2) {
                Some((_finished, r3)) => match dec_u32(r3) {
                    Some((n, r4)) => {
                        lemma_dec_items_wf(r4, n as nat);
                    },
                    None => {},
                },
                None => {},
            },
            None => {},
        },
        None => {},
    }
}

/// Appending one more line extends the line-list encoding.
pub proof fn lemma_enc_items_snoc(items: Seq<OrderItemV>, it: OrderItemV)
    ensures
        enc_items(items.push(it)) == enc_items(items) + enc_item(it),
    decreases items.len(),
{
    let sp = items.push(it);
    if items.len() == 0 {
        assert(sp[0] == it);
        assert(sp.drop_first() =~= Seq::<OrderItemV>::empty());
        assert(enc_items(Seq::<OrderItemV>::empty()) == Seq::<u8>::empty());
        assert(enc_item(it) + Seq::<u8>::empty() =~= enc_item(it));
        assert(Seq::<u8>::empty() + enc_item(it) =~= enc_item(it));
    } else {
        assert(sp[0] == items[0]);
        assert(sp.drop_first() =~= items.drop_first().push(it));
        lemma_enc_items_snoc(items.drop_first(), it);
        assert((enc_item(items[0]) + enc_items(items.drop_first())) + enc_item(it) =~= enc_item(
            items[0],
        ) + (enc_items(items.drop_first()) + enc_item(it)));
    }
}

/// Encodes an offer, or reports that one of its strings does not fit.
pub fn encode_offer(o: &Offer) -> (r: Result<Vec<u8>, DbError>)
    ensures
        r is Ok <==> offer_encodable(o@),
        r matches Ok(v) ==> v@ == enc_offer(o@),
        r is Err ==> r == Err::<Vec<u8>, DbError>(DbError::Serialization),
{
    let mut out: Vec<u8> = Vec::new();
    match encode_str(&mut out, o.name.as_str()) {
        Ok(()) => (),
        Err(e) => {
            return Err(e);
        },
    }
    match encode_str(&mut out, o.description.as_str()) {
        Ok(()) => (),
        Err(e) => {
            return Err(e);
        },
    }
    encode_u32(&mut out, o.price_integer);
    encode_u32(&mut out, o.price_fraction);
    proof {
        assert(out@ =~= enc_offer(o@));
    }
    Ok(out)
}

/// Decodes an offer, rejecting any byte string that is not exactly one.
pub fn decode_offer(b: &Vec<u8>) -> (r: Result<Offer, DbError>)
    ensures
        match dec_offer(b@) {
            Some(v) => r matches Ok(o) && o@ == v,
            None => r == Err::<Offer, DbError>(DbError::Deserialization),
        },
{
    proof {
        assert(b@.skip(0) =~= b@);
    }
    let (name, p1) = match decode_str(b, 0) {
        Ok(q) => q,
        Err(_) => {
            return Err(DbError::Deserialization);
        },
    };
    let (description, p2) = match decode_str(b, p1) {
        Ok(q) => q,
        Err(_) => {
            return Err(DbError::Deserialization);
        },
    };
    let (price_integer, p3) = match decode_u32(b, p2) {
        Ok(q) => q,
        Err(_) => {
            return Err(DbError::Deserialization);
        },
    };
    let (price_fraction, p4) = match decode_u32(b, p3) {
        Ok(q) => q,
        Err(_) => {
            return Err(DbError::Deserialization);
        },
    };
    if p4 != b.len() {
        return Err(DbError::Deserialization);
    }
    Ok(Offer { name, description, price_integer, price_fraction })
}

/// Encodes a table, or reports that its name does not fit.
pub fn encode_table(t: &VirtualTable) -> (r: Result<Vec<u8>, DbError>)
    ensures
        r is Ok <==> table_encodable(t@),
        r matches Ok(v) ==> v@ == enc_table(t@),
        r is Err ==> r == Err::<Vec<u8>, DbError>(DbError::Serialization),
{
    let mut out: Vec<u8> = Vec::new();
    match encode_str(&mut out, t.name.as_str()) {
        Ok(()) => (),
        Err(e) => {
            return Err(e);
        },
    }
    encode_u32(&mut out, t.order_count);
    proof {
        assert(out@ =~= enc_table(t@));
    }
    Ok(out)
}

/// Decodes a table, rejecting any byte string that is not exactly one.
pub fn decode_table(b: &Vec<u8>) -> (r: Result<VirtualTable, DbError>)
    ensures
        match dec_table(b@) {
            Some(v) => r matches Ok(t) && t@ == v,
            None => r == Err::<VirtualTable, DbError>(DbError::Deserialization),
        },
{
    proof {
        assert(b@.skip(0) =~= b@);
    }
    let (name, p1) = match decode_str(b, 0) {
        Ok(q) => q,
        Err(_) => {
            return Err(DbError::Deserialization);
        },
    };
    let (order_count, p2) = match decode_u32(b, p1) {
        Ok(q) => q,
        Err(_) => {
            return Err(DbError::Deserialization);
        },
    };
    if p2 != b.len() {
        return Err(DbError::Deserialization);
    }
    Ok(VirtualTable { name, order_count })
}

/// Encodes an order, or reports that a string or the line count does not
/// fit.
pub fn encode_order(o: &Order) -> (r: Result<Vec<u8>, DbError>)
    ensures
        r is Ok <==> order_encodable(o@),
        r matches Ok(v) ==> v@ == enc_order(o@),
        r is Err ==> r == Err::<Vec<u8>, DbError>(DbError::Serialization),
{
    let ghost its = o@.items;
    let mut out: Vec<u8> = Vec::new();
    match encode_str(&mut out, o.id.table.as_str()) {
        Ok(()) => (),
        Err(e) => {
            return Err(e);
        },
    }
    encode_u32(&mut out, o.id.count);
    encode_bool(&mut out, o.finished);
    if o.items.len() > u32::MAX as usize {
        return Err(DbError::Serialization);
    }
    let n = o.items.len();
    encode_u32(&mut out, n as u32);
    let ghost head = out@;
    let mut i: usize = 0;
    while i < n
        invariant
            i <= n,
            n == o.items.len(),
            n <= u32::MAX,
            its == o@.items,
            its.len() == n,
            forall|j: int| 0 <= j < n ==> #[trigger] its[j] == o.items@[j]@,
            out@ == head + enc_items(its.take(i as int)),
            forall|j: int| 0 <= j < i ==> str_encodable((#[trigger] its[j]).id),
        decreases n - i,
    {
        match encode_str(&mut out, o.items[i].id.as_str()) {
            Ok(()) => (),
            Err(e) => {
                proof {
                    assert(!str_encodable(its[i as int].id));
                }
                return Err(e);
            },
        }
        encode_u32(&mut out, o.items[i].count);
        proof {
            assert(its.take(i + 1 as int).drop_last() =~= its.take(i as int));
            assert(its.take(i + 1 as int).last() == its[i as int]);
            lemma_enc_items_snoc(its.take(i as int), its[i as int]);
            assert(its.take(i as int).push(its[i as int]) =~= its.take(i + 1 as int));
            assert(out@ =~= head + enc_items(its.take(i + 1 as int)));
        }
        i = i + 1;
    }
    proof {
        assert(its.take(n as int) =~= its);
        assert(out@ =~= enc_order(o@));
    }
    Ok(out)
}

/// Decodes an order, rejecting any byte string that is not exactly one.
pub fn decode_order(b: &Vec<u8>) -> (r: Result<Order, DbError>)
    ensures
        match dec_order(b@) {
            Some(v) => r matches Ok(o) && o@ == v,
            None => r == Err::<Order, DbError>(DbError::Deserialization),
        },
{
    proof {
        assert(b@.skip(0) =~= b@);
    }
    let (table, p1) = match decode_str(b, 0) {
        Ok(q) => q,
        Err(_) => {
            return Err(DbError::Deserialization);
        },
    };
    let (count, p2) = match decode_u32(b, p1) {
        Ok(q) => q,
        Err(_) => {
            return Err(DbError::Deserialization);
        },
    };
    let (finished, p3) = match decode_bool(b, p2) {
        Ok(q) => q,
        Err(_) => {
            return Err(DbError::Deserialization);
        },
    };
    let (n, p4) = match decode_u32(b, p3) {
        Ok(q) => q,
        Err(_) => {
            return Err(DbError::Deserialization);
        },
    };
    let ghost start = b@.skip(p4 as int);
    let mut cursor = p4;
    let mut acc: Vec<OrderItem> = Vec::new();
    let mut i: u32 = 0;
    while i < n
        invariant
            cursor <= b@.len(),
            i <= n,
            acc@.len() == i,
            dec_order(b@) == (match dec_items(start, n as nat) {
                Some(p) => if p.1.len() == 0 {
                    Some(
                        OrderV {
                            id: OrderIDV { table: table@, count },
                            finished,
                            items: p.0,
                        },
                    )
                } else {
                    None::<OrderV>
                },
                None => None::<OrderV>,
            }),
            dec_items(start, n as nat) == (match dec_items(
                b@.skip(cursor as int),
                (n - i) as nat,
            ) {
                Some(p) => Some((acc@.map_values(|it: OrderItem| it@) + p.0, p.1)),
                None => None::<(Seq<OrderItemV>, Seq<u8>)>,
            }),
        decreases n - i,
    {
        let ghost cur = b@.skip(cursor as int);
        let ghost left = (n - i) as nat;
        let (id, q1) = match decode_str(b, cursor) {
            Ok(q) => q,
            Err(_) => {
                proof {
                    assert(dec_items(cur, left) is None);
                }
                return Err(DbError::Deserialization);
            },
        };
        let (icount, q2) = match decode_u32(b, q1) {
            Ok(q) => q,
            Err(_) => {
                proof {
                    assert(dec_items(cur, left) is None);
                }
                return Err(DbError::Deserialization);
            },
        };
        let it = OrderItem { id, count: icount };
        proof {
            assert(dec_item(cur) == Some((it@, b@.skip(q2 as int))));
        }
        let ghost acc_old = acc@.map_values(|x: OrderItem| x@);
        acc.push(it);
        proof {
            assert(acc@.map_values(|x: OrderItem| x@) =~= acc_old.push(it@));
            let nxt = b@.skip(q2 as int);
            let m = (left - 1) as nat;
            match dec_items(nxt, m) {
                Some(p) => {
                    assert(dec_items(cur, left) == Some((seq![it@] + p.0, p.1)));
                    assert(acc_old + (seq![it@] + p.0) =~= acc_old.push(it@) + p.0);
                },
                None => {
                    assert(dec_items(cur, left) is None);
                },
            }
        }
        cursor = q2;
        i = i + 1;
    }
    if cursor != b.len() {
        proof {
            assert(dec_items(b@.skip(cursor as int), 0) == Some(
                (Seq::<OrderItemV>::empty(), b@.skip(cursor as int)),
            ));
            let av = acc@.map_values(|x: OrderItem| x@);
            assert(av + Seq::<OrderItemV>::empty() =~= av);
        }
        return Err(DbError::Deserialization);
    }
    let o = Order { id: OrderID { table, count }, finished, items: acc };
    proof {
        assert(dec_items(b@.skip(cursor as int), 0) == Some(
            (Seq::<OrderItemV>::empty(), b@.skip(cursor as int)),
        ));
        let av = acc@.map_values(|x: OrderItem| x@);
        assert(av + Seq::<OrderItemV>::empty() =~= av);
    }
    Ok(o)
}

/// The decimal digits of `x`, as a string.
pub fn u32_to_decimal(x: u32) -> (r: String)
    ensures
        r@ == dec_digits(x as nat),
{
    let mut digits: Vec<char> = Vec::new();
    let mut n = x;
    proof {
        assert(dec_digits(x as nat) + Seq::<char>::empty() =~= dec_digits(x as nat));
        assert(digits@.reverse() =~= Seq::<char>::empty());
    }
    while n >= 10
        invariant
            dec_digits(x as nat) == dec_digits(n as nat) + digits@.reverse(),
        decreases n,
    {
        let ghost rev_old = digits@.reverse();
        let d = n % 10;
        let c = (48 + d as u8) as char;
        proof {
            assert(c == digit_char((n % 10) as nat));
        }
        digits.push(c);
        proof {
            assert(digits@.reverse() =~= seq![c] + rev_old);
            assert(dec_digits((n / 10) as nat) + (seq![c] + rev_old) =~= (dec_digits(
                (n / 10) as nat,
            ) + seq![c]) + rev_old);
            assert(dec_digits(n as nat) == dec_digits((n / 10) as nat) + seq![
                digit_char((n % 10) as nat),
            ]);
        }
        n = n / 10;
    }
    let ghost rev_old = digits@.reverse();
    let c = (48 + n as u8) as char;
    proof {
        assert(c == digit_char(n as nat));
        assert(dec_digits(n as nat) == seq![c]);
    }
    digits.push(c);
    proof {
        assert(digits@.reverse() =~= seq![c] + rev_old);
        assert(seq![c] + rev_old =~= dec_digits(n as nat) + rev_old);
    }
    let total = digits.len();
    let mut r = String::new();
    let mut i: usize = total;
    while i > 0
        invariant
            i <= total,
            total == digits.len(),
            r@ == digits@.reverse().take((total - i) as int),
        decreases i,
    {
        i = i - 1;
        r.push(digits[i]);
        proof {
            let rev = digits@.reverse();
            let k = (total - i - 1) as int;
            assert(rev[k] == digits@[i as int]);
            assert(rev.take(k + 1).drop_last() =~= rev.take(k));
            assert(rev.take(k + 1).last() == rev[k]);
            assert(r@ =~= rev.take(k + 1));
        }
    }
    proof {
        assert(digits@.reverse().take(total as int) =~= digits@.reverse());
    }
    r
}

impl DatabaseElement for Offer {
    open spec fn namespace_spec() -> Seq<char> {
        offer_namespace()
    }

    open spec fn status_of(v: OfferV) -> Seq<Seq<char>> {
        Seq::empty()
    }

    open spec fn main_identifier_of(v: OfferV) -> Seq<char> {
        v.name
    }

    open spec fn secondary_identifiers_of(v: OfferV) -> Seq<Seq<char>> {
        Seq::empty()
    }

    open spec fn encodable(v: OfferV) -> bool {
        offer_encodable(v)
    }

    open spec fn encoding(v: OfferV) -> Seq<u8> {
        enc_offer(v)
    }

    open spec fn decoded(b: Seq<u8>) -> Option<OfferV> {
        dec_offer(b)
    }

    proof fn lemma_decode_of_encoding(v: OfferV) {
        lemma_dec_offer_of_enc(v);
    }

    proof fn lemma_decoded_encodable(b: Seq<u8>) {
        lemma_dec_offer_encodable(b);
    }

    fn namespace() -> (r: &'static str) {
        let r = "offer";
        proof {
            reveal_strlit("offer");
            assert(r@ =~= offer_namespace());
        }
        r
    }

    fn main_identifier(&self) -> (r: String) {
        self.name.clone()
    }

    fn secondary_identifiers(&self) -> (r: Vec<String>) {
        let r: Vec<String> = Vec::new();
        proof {
            assert(r.deep_view() =~= Seq::<Seq<char>>::empty());
        }
        r
    }

    fn status(&self) -> (r: Vec<String>) {
        let r: Vec<String> = Vec::new();
        proof {
            assert(r.deep_view() =~= Seq::<Seq<char>>::empty());
        }
        r
    }

    fn encode(&self) -> (r: Result<Vec<u8>, DbError>) {
        encode_offer(self)
    }

    fn decode(b: &Vec<u8>) -> (r: Result<Self, DbError>) {
        decode_offer(b)
    }

    fn get_templated(&self, db: &Store) -> (r: Result<Vec<Self>, DbError>) {
        let mut prefix = self.qualified_identifier_mainless();
        prefix.append("/");
        proof {
            reveal_strlit("/");
            assert("/"@ =~= seq![crate::keys::sep_char()]);
        }
        let f = |b: &Vec<u8>| -> (ret: Result<Offer, DbError>)
            ensures
                (match dec_offer(b@) {
                    Some(v) => ret matches Ok(rec) && rec@ == v,
                    None => ret == Err::<Offer, DbError>(DbError::Deserialization),
                }),
            { decode_offer(b) };
        scan_decode::<Offer, _>(db, prefix.as_str(), f, Ghost(|b: Seq<u8>| Offer::decoded(b)))
    }

    fn get_status(&self, db: &Store) -> (r: Result<Vec<Self>, DbError>) {
        let prefix = self.qualified_identifier_mainless_secondless();
        let f = |b: &Vec<u8>| -> (ret: Result<Offer, DbError>)
            ensures
                (match dec_offer(b@) {
                    Some(v) => ret matches Ok(rec) && rec@ == v,
                    None => ret == Err::<Offer, DbError>(DbError::Deserialization),
                }),
            { decode_offer(b) };
        scan_decode::<Offer, _>(db, prefix.as_str(), f, Ghost(|b: Seq<u8>| Offer::decoded(b)))
    }

    fn get_all(db: &Store) -> (r: Result<Vec<Self>, DbError>) {
        let prefix = Self::namespace();
        let f = |b: &Vec<u8>| -> (ret: Result<Offer, DbError>)
            ensures
                (match dec_offer(b@) {
                    Some(v) => ret matches Ok(rec) && rec@ == v,
                    None => ret == Err::<Offer, DbError>(DbError::Deserialization),
                }),
            { decode_offer(b) };
        scan_decode::<Offer, _>(db, prefix, f, Ghost(|b: Seq<u8>| Offer::decoded(b)))
    }
}

impl DatabaseElement for VirtualTable {
    open spec fn namespace_spec() -> Seq<char> {
        table_namespace()
    }

    open spec fn status_of(v: VirtualTableV) -> Seq<Seq<char>> {
        Seq::empty()
    }

    open spec fn main_identifier_of(v: VirtualTableV) -> Seq<char> {
        v.name
    }

    open spec fn secondary_identifiers_of(v: VirtualTableV) -> Seq<Seq<char>> {
        Seq::empty()
    }

    open spec fn encodable(v: VirtualTableV) -> bool {
        table_encodable(v)
    }

    open spec fn encoding(v: VirtualTableV) -> Seq<u8> {
        enc_table(v)
    }

    open spec fn decoded(b: Seq<u8>) -> Option<VirtualTableV> {
        dec_table(b)
    }

    proof fn lemma_decode_of_encoding(v: VirtualTableV) {
        lemma_dec_table_of_enc(v);
    }

    proof fn lemma_decoded_encodable(b: Seq<u8>) {
        lemma_dec_table_encodable(b);
    }

    fn namespace() -> (r: &'static str) {
        let r = "table";
        proof {
            reveal_strlit("table");
            assert(r@ =~= table_namespace());
        }
        r
    }

    fn main_identifier(&self) -> (r: String) {
        self.name.clone()
    }

    fn secondary_identifiers(&self) -> (r: Vec<String>) {
        let r: Vec<String> = Vec::new();
        proof {
            assert(r.deep_view() =~= Seq::<Seq<char>>::empty());
        }
        r
    }

    fn status(&self) -> (r: Vec<String>) {
        let r: Vec<String> = Vec::new();
        proof {
            assert(r.deep_view() =~= Seq::<Seq<char>>::empty());
        }
        r
    }

    fn encode(&self) -> (r: Result<Vec<u8>, DbError>) {
        encode_table(self)
    }

    fn decode(b: &Vec<u8>) -> (r: Result<Self, DbError>) {
        decode_table(b)
    }

    fn get_templated(&self, db: &Store) -> (r: Result<Vec<Self>, DbError>) {
        let mut prefix = self.qualified_identifier_mainless();
        prefix.append("/");
        proof {
            reveal_strlit("/");
            assert("/"@ =~= seq![crate::keys::sep_char()]);
        }
        let f = |b: &Vec<u8>| -> (ret: Result<VirtualTable, DbError>)
            ensures
                (match dec_table(b@) {
                    Some(v) => ret matches Ok(rec) && rec@ == v,
                    None => ret == Err::<VirtualTable, DbError>(DbError::Deserialization),
                }),
            { decode_table(b) };
        scan_decode::<VirtualTable, _>(db, prefix.as_str(), f, Ghost(|b: Seq<u8>| VirtualTable::decoded(b)))
    }

    fn get_status(&self, db: &Store) -> (r: Result<Vec<Self>, DbError>) {
        let prefix = self.qualified_identifier_mainless_secondless();
        let f = |b: &Vec<u8>| -> (ret: Result<VirtualTable, DbError>)
            ensures
                (match dec_table(b@) {
                    Some(v) => ret matches Ok(rec) && rec@ == v,
                    None => ret == Err::<VirtualTable, DbError>(DbError::Deserialization),
                }),
            { decode_table(b) };
        scan_decode::<VirtualTable, _>(db, prefix.as_str(), f, Ghost(|b: Seq<u8>| VirtualTable::decoded(b)))
    }

    fn get_all(db: &Store) -> (r: Result<Vec<Self>, DbError>) {
        let prefix = Self::namespace();
        let f = |b: &Vec<u8>| -> (ret: Result<VirtualTable, DbError>)
            ensures
                (match dec_table(b@) {
                    Some(v) => ret matches Ok(rec) && rec@ == v,
                    None => ret == Err::<VirtualTable, DbError>(DbError::Deserialization),
                }),
            { decode_table(b) };
        scan_decode::<VirtualTable, _>(db, prefix, f, Ghost(|b: Seq<u8>| VirtualTable::decoded(b)))
    }
}

impl DatabaseElement for Order {
    open spec fn namespace_spec() -> Seq<char> {
        order_namespace()
    }

    open spec fn status_of(v: OrderV) -> Seq<Seq<char>> {
        seq![order_status_tag(v.finished)]
    }

    open spec fn main_identifier_of(v: OrderV) -> Seq<char> {
        dec_digits(v.id.count as nat)
    }

    open spec fn secondary_identifiers_of(v: OrderV) -> Seq<Seq<char>> {
        seq![v.id.table]
    }

    open spec fn encodable(v: OrderV) -> bool {
        order_encodable(v)
    }

    open spec fn encoding(v: OrderV) -> Seq<u8> {
        enc_order(v)
    }

    open spec fn decoded(b: Seq<u8>) -> Option<OrderV> {
        dec_order(b)
    }

    proof fn lemma_decode_of_encoding(v: OrderV) {
        lemma_dec_order_of_enc(v);
    }

    proof fn lemma_decoded_encodable(b: Seq<u8>) {
        lemma_dec_order_encodable(b);
    }

    fn namespace() -> (r: &'static str) {
        let r = "order";
        proof {
            reveal_strlit("order");
            assert(r@ =~= order_namespace());
        }
        r
    }

    fn main_identifier(&self) -> (r: String) {
        u32_to_decimal(self.id.count)
    }

    fn secondary_identifiers(&self) -> (r: Vec<String>) {
        let mut r: Vec<String> = Vec::new();
        r.push(self.id.table.clone());
        proof {
            assert(r.deep_view() =~= seq![self@.id.table]);
        }
        r
    }

    fn status(&self) -> (r: Vec<String>) {
        let tag = if self.finished {
            "old"
        } else {
            "new"
        };
        let mut r: Vec<String> = Vec::new();
        r.push(String::from_str(tag));
        proof {
            reveal_strlit("old");
            reveal_strlit("new");
            assert("old"@ =~= old_tag());
            assert("new"@ =~= new_tag());
            assert(r.deep_view() =~= seq![order_status_tag(self@.finished)]);
        }
        r
    }

    fn encode(&self) -> (r: Result<Vec<u8>, DbError>) {
        encode_order(self)
    }

    fn decode(b: &Vec<u8>) -> (r: Result<Self, DbError>) {
        decode_order(b)
    }

    fn get_templated(&self, db: &Store) -> (r: Result<Vec<Self>, DbError>) {
        let mut prefix = self.qualified_identifier_mainless();
        prefix.append("/");
        proof {
            reveal_strlit("/");
            assert("/"@ =~= seq![crate::keys::sep_char()]);
        }
        let f = |b: &Vec<u8>| -> (ret: Result<Order, DbError>)
            ensures
                (match dec_order(b@) {
                    Some(v) => ret matches Ok(rec) && rec@ == v,
                    None => ret == Err::<Order, DbError>(DbError::Deserialization),
                }),
            { decode_order(b) };
        scan_decode::<Order, _>(db, prefix.as_str(), f, Ghost(|b: Seq<u8>| Order::decoded(b)))
    }

    fn get_status(&self, db: &Store) -> (r: Result<Vec<Self>, DbError>) {
        let prefix = self.qualified_identifier_mainless_secondless();
        let f = |b: &Vec<u8>| -> (ret: Result<Order, DbError>)
            ensures
                (match dec_order(b@) {
                    Some(v) => ret matches Ok(rec) && rec@ == v,
                    None => ret == Err::<Order, DbError>(DbError::Deserialization),
                }),
            { decode_order(b) };
        scan_decode::<Order, _>(db, prefix.as_str(), f, Ghost(|b: Seq<u8>| Order::decoded(b)))
    }

    fn get_all(db: &Store) -> (r: Result<Vec<Self>, DbError>) {
        let prefix = Self::namespace();
        let f = |b: &Vec<u8>| -> (ret: Result<Order, DbError>)
            ensures
                (match dec_order(b@) {
                    Some(v) => ret matches Ok(rec) && rec@ == v,
                    None => ret == Err::<Order, DbError>(DbError::Deserialization),
                }),
            { decode_order(b) };
        scan_decode::<Order, _>(db, prefix, f, Ghost(|b: Seq<u8>| Order::decoded(b)))
    }
}

} // verus!
