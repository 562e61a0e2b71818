//! The laws of the record store, stated over the store model: what an
//! insert makes readable, what a removal clears, how many entries a prefix
//! scan accounts for, and what the status transition relocates.

use vstd::prelude::*;

use crate::element::{scan_decodes_to, DatabaseElement};
use crate::keys::{
    group_scan_prefix, join_with, key_kind_status, lemma_key_prefixes, qualified_key, sep_char,
    sep_free,
};
use crate::records::{
    dec_digits, dec_order, dec_table, enc_order, enc_table, lemma_dec_order_of_enc,
    lemma_dec_table_of_enc, new_tag, old_tag, order_encodable, order_key, order_namespace,
    order_status_tag, table_encodable, table_key, OrderV, VirtualTableV,
};
use crate::store::{lex_lt, matching_keys, scan_result};

verus! {

/// The strict lexicographic order never relates a key to itself.
pub proof fn lemma_lex_lt_irrefl(a: Seq<char>)
    ensures
        !lex_lt(a, a),
    decreases a.len(),
{
    if a.len() > 0 {
        lemma_lex_lt_irrefl(a.drop_first());
    }
}

/// Round trip: after a record is written at its qualified key, the entry
/// is present and decodes back to exactly the value that was written.
pub proof fn lemma_insert_then_get<T: DatabaseElement>(m: Map<Seq<char>, Seq<u8>>, v: T::V)
    requires
        T::encodable(v),
    ensures
        ({
            let k = qualified_key(
                T::namespace_spec(),
                T::status_of(v),
                T::secondary_identifiers_of(v),
                T::main_identifier_of(v),
            );
            let m2 = m.insert(k, T::encoding(v));
            m2.dom().contains(k) && T::decoded(m2[k]) == Some(v)
        }),
{
    T::lemma_decode_of_encoding(v);
}

/// Removal: after the entry at a key is removed, no lookup finds it and no
/// prefix scan lists it, and exactly that key leaves every matching set.
pub proof fn lemma_remove_clears(
    m: Map<Seq<char>, Seq<u8>>,
    k: Seq<char>,
    prefix: Seq<char>,
    pairs: Seq<(Seq<char>, Seq<u8>)>,
)
    ensures
        !m.remove(k).dom().contains(k),
        scan_result(m.remove(k), prefix, pairs) ==> forall|i: int|
            0 <= i < pairs.len() ==> (#[trigger] pairs[i]).0 != k,
        matching_keys(m.remove(k), prefix) == matching_keys(m, prefix).remove(k),
{
    assert(matching_keys(m.remove(k), prefix) =~= matching_keys(m, prefix).remove(k));
}

/// Prefix scoping: a scan accounts for exactly the matching keys — the
/// keys of its listing form that set, and its length is that set's size.
pub proof fn lemma_scan_result_counts(
    m: Map<Seq<char>, Seq<u8>>,
    prefix: Seq<char>,
    pairs: Seq<(Seq<char>, Seq<u8>)>,
)
    requires
        scan_result(m, prefix, pairs),
    ensures
        pairs.map_values(|p: (Seq<char>, Seq<u8>)| p.0).to_set() == matching_keys(m, prefix),
        matching_keys(m, prefix).finite(),
        pairs.len() == matching_keys(m, prefix).len(),
{
    broadcast use vstd::seq_lib::seq_to_set_is_finite;

    let ks = pairs.map_values(|p: (Seq<char>, Seq<u8>)| p.0);
    assert forall|i: int, j: int| 0 <= i < j < ks.len() implies ks[i] != ks[j] by {
        if ks[i] == ks[j] {
            lemma_lex_lt_irrefl(pairs[i].0);
        }
    }
    assert(ks.no_duplicates());
    assert forall|x: Seq<char>| ks.to_set().contains(x) implies matching_keys(
        m,
        prefix,
    ).contains(x) by {
        let i = choose|i: int| 0 <= i < ks.len() && ks[i] == x;
        assert(m.dom().contains(pairs[i].0) && prefix.is_prefix_of(pairs[i].0));
    }
    assert forall|x: Seq<char>| matching_keys(m, prefix).contains(x) implies ks.to_set().contains(
        x,
    ) by {
        assert(m.dom().contains(x) && prefix.is_prefix_of(x));
        let i = choose|i: int| 0 <= i < pairs.len() && pairs[i].0 == x;
        assert(ks[i] == x);
    }
    assert(ks.to_set() =~= matching_keys(m, prefix));
    ks.unique_seq_to_set();
}

/// Prefix scoping, at the record level: a scan that succeeds hands back
/// exactly one record per entry under the prefix.
pub proof fn lemma_scan_views_count<V>(
    m: Map<Seq<char>, Seq<u8>>,
    prefix: Seq<char>,
    views: Seq<V>,
    dec: spec_fn(Seq<u8>) -> Option<V>,
)
    requires
        scan_decodes_to(m, prefix, views, dec),
    ensures
        views.len() == matching_keys(m, prefix).len(),
        matching_keys(m, prefix).finite(),
{
    let pairs = choose|pairs: Seq<(Seq<char>, Seq<u8>)>|
        {
            &&& #[trigger] scan_result(m, prefix, pairs)
            &&& views.len() == pairs.len()
            &&& forall|i: int|
                0 <= i < pairs.len() ==> dec((#[trigger] pairs[i]).1) == Some(views[i])
        };
    lemma_scan_result_counts(m, prefix, pairs);
}

/// One write changes one matching set by at most its own key: inserting
/// at a key adds it to the matching set of every prefix it starts with
/// and to no other.
pub proof fn lemma_matching_keys_insert(
    m: Map<Seq<char>, Seq<u8>>,
    k: Seq<char>,
    v: Seq<u8>,
    prefix: Seq<char>,
)
    ensures
        prefix.is_prefix_of(k) ==> matching_keys(m.insert(k, v), prefix) == matching_keys(
            m,
            prefix,
        ).insert(k),
        !prefix.is_prefix_of(k) ==> matching_keys(m.insert(k, v), prefix) == matching_keys(
            m,
            prefix,
        ),
{
    if prefix.is_prefix_of(k) {
        assert(matching_keys(m.insert(k, v), prefix) =~= matching_keys(m, prefix).insert(k));
    } else {
        assert(matching_keys(m.insert(k, v), prefix) =~= matching_keys(m, prefix));
    }
}

/// Group scoping is exact for orders: one table's group prefix starts
/// precisely the order keys of that table and status, provided table
/// names are free of the separator (the record-construction boundary's
/// obligation).  A name that merely begins with another — "T1" beside
/// "T10" — selects nothing of the longer one.
pub proof fn lemma_order_group_prefix_exact(
    t1: Seq<char>,
    t2: Seq<char>,
    count: u32,
    f1: bool,
    f2: bool,
)
    requires
        sep_free(t1),
        sep_free(t2),
    ensures
        group_scan_prefix(order_namespace(), seq![order_status_tag(f1)], seq![t1]).is_prefix_of(
            order_key(t2, count, f2),
        ) <==> (f1 == f2 && t1 == t2),
{
    let tag1 = order_status_tag(f1);
    let tag2 = order_status_tag(f2);
    let ks1 = key_kind_status(order_namespace(), seq![tag1]);
    let ks2 = key_kind_status(order_namespace(), seq![tag2]);
    let digits = dec_digits(count as nat);
    let gp = group_scan_prefix(order_namespace(), seq![tag1], seq![t1]);
    let key = order_key(t2, count, f2);
    assert(join_with(seq![tag1], seq![',']) == tag1);
    assert(join_with(seq![tag2], seq![',']) == tag2);
    assert(join_with(seq![t1], seq![sep_char()]) == t1);
    assert(join_with(seq![t2], seq![sep_char()]) == t2);
    if f1 {
        assert(ks1 =~= seq!['o', 'r', 'd', 'e', 'r', '/', '(', 'o', 'l', 'd', ')']);
    } else {
        assert(ks1 =~= seq!['o', 'r', 'd', 'e', 'r', '/', '(', 'n', 'e', 'w', ')']);
    }
    if f2 {
        assert(ks2 =~= seq!['o', 'r', 'd', 'e', 'r', '/', '(', 'o', 'l', 'd', ')']);
    } else {
        assert(ks2 =~= seq!['o', 'r', 'd', 'e', 'r', '/', '(', 'n', 'e', 'w', ')']);
    }
    assert(gp =~= ((ks1 + seq![sep_char()]) + t1) + seq![sep_char()]);
    assert(key =~= (((ks2 + seq![sep_char()]) + t2) + seq![sep_char()]) + digits);
    assert(digits.len() >= 1);
    let a = t1.len() as int;
    let b = t2.len() as int;
    assert(gp.len() == 13 + a);
    assert(key.len() == 13 + b + digits.len());
    if f1 == f2 && t1 == t2 {
        lemma_key_prefixes(order_namespace(), seq![tag1], seq![t1], digits);
    }
    if gp.is_prefix_of(key) {
        assert(gp =~= key.subrange(0, gp.len() as int));
        assert(forall|i: int| 0 <= i < gp.len() ==> gp[i] == key[i]) by {
            assert(forall|i: int|
                0 <= i < gp.len() ==> gp[i] == key.subrange(0, gp.len() as int)[i]);
        }
        assert(gp[7] == ks1[7]);
        assert(key[7] == ks2[7]);
        assert(f1 == f2);
        if a < b {
            assert(gp[12 + a] == sep_char());
            assert(key[12 + a] == t2[a]);
            assert(t2[a] != sep_char());
            assert(false);
        }
        if a > b {
            assert(gp[12 + b] == t1[b]);
            assert(t1[b] != sep_char());
            assert(key[12 + b] == sep_char());
            assert(false);
        }
        assert(t1 =~= t2) by {
            assert(forall|i: int| 0 <= i < a ==> gp[12 + i] == t1[i] && key[12 + i] == t2[i]);
        }
    }
}

/// Order numbering: drawing the next number re-encodes the table with its
/// counter advanced by exactly one, and the new open order, numbered with
/// that counter value, is readable under its own key; the two writes land
/// on distinct keys.
pub proof fn lemma_create_order_numbering(
    m: Map<Seq<char>, Seq<u8>>,
    tv: VirtualTableV,
    o: OrderV,
)
    requires
        table_encodable(tv),
        order_encodable(o),
        tv.order_count < u32::MAX,
        o.id.count == tv.order_count + 1,
    ensures
        ({
            let tv2 = VirtualTableV { name: tv.name, order_count: (tv.order_count + 1) as u32 };
            let k_table = table_key(tv.name);
            let k_order = order_key(o.id.table, o.id.count, false);
            let m2 = m.insert(k_table, enc_table(tv2)).insert(k_order, enc_order(o));
            &&& k_table != k_order
            &&& dec_table(m2[k_table]) == Some(tv2)
            &&& dec_order(m2[k_order]) == Some(o)
        }),
{
    let tv2 = VirtualTableV { name: tv.name, order_count: (tv.order_count + 1) as u32 };
    let k_table = table_key(tv.name);
    let k_order = order_key(o.id.table, o.id.count, false);
    assert(k_table[0] == 't' && k_order[0] == 'o');
    lemma_dec_table_of_enc(tv2);
    lemma_dec_order_of_enc(o);
}

/// Status transition: moving an order from its open key to its finished
/// key leaves no entry at the open key, so no scan of the open status
/// lists it any more; the finished entry carries the same identity and
/// line items, readable under the finished-status prefix.
pub proof fn lemma_finish_relocates(m: Map<Seq<char>, Seq<u8>>, ov: OrderV)
    requires
        order_encodable(ov),
    ensures
        ({
            let fin = OrderV { id: ov.id, finished: true, items: ov.items };
            let k_open = order_key(ov.id.table, ov.id.count, false);
            let k_fin = order_key(ov.id.table, ov.id.count, true);
            let m2 = m.remove(k_open).insert(k_fin, enc_order(fin));
            &&& k_open != k_fin
            &&& !m2.dom().contains(k_open)
            &&& m2.dom().contains(k_fin)
            &&& dec_order(m2[k_fin]) == Some(fin)
            &&& !matching_keys(m2, key_kind_status(order_namespace(), seq![new_tag()])).contains(
                k_open,
            )
            &&& matching_keys(m2, key_kind_status(order_namespace(), seq![old_tag()])).contains(
                k_fin,
            )
        }),
{
    let fin = OrderV { id: ov.id, finished: true, items: ov.items };
    let k_open = order_key(ov.id.table, ov.id.count, false);
    let k_fin = order_key(ov.id.table, ov.id.count, true);
    assert(join_with(seq![new_tag()], seq![',']) == new_tag());
    assert(join_with(seq![old_tag()], seq![',']) == old_tag());
    let ks_open = key_kind_status(order_namespace(), seq![new_tag()]);
    let ks_fin = key_kind_status(order_namespace(), seq![old_tag()]);
    assert(ks_open =~= seq!['o', 'r', 'd', 'e', 'r', '/', '(', 'n', 'e', 'w', ')']);
    assert(ks_fin =~= seq!['o', 'r', 'd', 'e', 'r', '/', '(', 'o', 'l', 'd', ')']);
    lemma_key_prefixes(
        order_namespace(),
        seq![new_tag()],
        seq![ov.id.table],
        crate::records::dec_digits(ov.id.count as nat),
    );
    lemma_key_prefixes(
        order_namespace(),
        seq![old_tag()],
        seq![ov.id.table],
        crate::records::dec_digits(ov.id.count as nat),
    );
    assert(k_open[7] == 'n');
    assert(k_fin[7] == 'o');
    assert(k_open != k_fin);
    lemma_dec_order_of_enc(fin);
    let m2 = m.remove(k_open).insert(k_fin, enc_order(fin));
    assert(matching_keys(m2, ks_fin).contains(k_fin)) by {
        assert(ks_fin.is_prefix_of(k_fin));
    }
}



} // verus!
