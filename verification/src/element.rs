//! The generic record interface: anything stored in the keyspace supplies a
//! namespace, status tags, secondary identifiers and a main identifier, and
//! a checked binary codec for its values.  From those the trait derives the
//! composite keys and the store operations: insert, remove, membership,
//! exact lookup, and the three prefix scans.

use vstd::prelude::*;
use vstd::string::*;

use crate::keys::{
    group_scan_prefix, join_strings, join_with, key_kind_status, key_kind_status_secondary,
    qualified_key, sep_char, status_segment,
};
use crate::store::{contents, pairs_view, scan_result, Store};
use crate::DbError;

verus! {

/// A successful scan's meaning: some key-ordered listing of exactly the
/// entries under the prefix decodes entrywise, under `dec`, to these views.
pub open spec fn scan_decodes_to<V>(
    m: Map<Seq<char>, Seq<u8>>,
    prefix: Seq<char>,
    views: Seq<V>,
    dec: spec_fn(Seq<u8>) -> Option<V>,
) -> bool {
    exists|pairs: Seq<(Seq<char>, Seq<u8>)>|
        {
            &&& #[trigger] scan_result(m, prefix, pairs)
            &&& views.len() == pairs.len()
            &&& forall|i: int|
                0 <= i < pairs.len() ==> dec((#[trigger] pairs[i]).1) == Some(views[i])
        }
}

/// Whether every entry under the prefix decodes under `dec`.
pub open spec fn scan_all_decodable<V>(
    m: Map<Seq<char>, Seq<u8>>,
    prefix: Seq<char>,
    dec: spec_fn(Seq<u8>) -> Option<V>,
) -> bool {
    forall|k: Seq<char>|
        #[trigger] m.dom().contains(k) && prefix.is_prefix_of(k) ==> dec(m[k]) is Some
}

/// Anything that can be placed in the keyspace.
///
/// An implementation supplies the four derived properties and the value
/// codec; the trait derives the composite keys and the store operations
/// from them.
pub trait DatabaseElement: Sized + View {
    /// The fixed string discriminating this kind in the shared keyspace.
    spec fn namespace_spec() -> Seq<char>;

    /// The mutable classification tags embedded in the key.
    spec fn status_of(v: Self::V) -> Seq<Seq<char>>;

    /// The identifier unique within this kind's namespace and secondary
    /// group.
    spec fn main_identifier_of(v: Self::V) -> Seq<char>;

    /// The grouping identifiers shared by several records of the kind.
    spec fn secondary_identifiers_of(v: Self::V) -> Seq<Seq<char>>;

    /// Whether the value fits the codec's length prefixes.
    spec fn encodable(v: Self::V) -> bool;

    /// The stored byte string of the value.
    spec fn encoding(v: Self::V) -> Seq<u8>;

    /// The value a stored byte string stands for, if any.
    spec fn decoded(b: Seq<u8>) -> Option<Self::V>;

    /// Decoding inverts encoding.
    proof fn lemma_decode_of_encoding(v: Self::V)
        requires
            Self::encodable(v),
        ensures
            Self::decoded(Self::encoding(v)) == Some(v),
    ;

    /// Whatever decodes could be encoded again.
    proof fn lemma_decoded_encodable(b: Seq<u8>)
        ensures
            Self::decoded(b) matches Some(v) ==> Self::encodable(v),
    ;

    fn namespace() -> (r: &'static str)
        ensures
            r@ == Self::namespace_spec(),
    ;

    fn main_identifier(&self) -> (r: String)
        ensures
            r@ == Self::main_identifier_of(self@),
    ;

    fn secondary_identifiers(&self) -> (r: Vec<String>)
        ensures
            r.deep_view() == Self::secondary_identifiers_of(self@),
    ;

    fn status(&self) -> (r: Vec<String>)
        ensures
            r.deep_view() == Self::status_of(self@),
    ;

    fn encode(&self) -> (r: Result<Vec<u8>, DbError>)
        ensures
            r is Ok <==> Self::encodable(self@),
            r matches Ok(v) ==> v@ == Self::encoding(self@),
            r is Err ==> r == Err::<Vec<u8>, DbError>(DbError::Serialization),
    ;

    fn decode(b: &Vec<u8>) -> (r: Result<Self, DbError>)
        ensures
            match Self::decoded(b@) {
                Some(v) => r matches Ok(rec) && rec@ == v,
                None => r == Err::<Self, DbError>(DbError::Deserialization),
            },
    ;

    fn self_namespace(&self) -> (r: &'static str)
        ensures
            r@ == Self::namespace_spec(),
    {
        Self::namespace()
    }

    /// The secondary identifiers joined by the separator, or `None` when
    /// there are none.
    fn secondary_identifiers_try_to_string(&self) -> (r: Option<String>)
        ensures
            r is None <==> Self::secondary_identifiers_of(self@).len() == 0,
            r matches Some(s) ==> s@ == join_with(
                Self::secondary_identifiers_of(self@),
                seq![sep_char()],
            ),
    {
        let sec = self.secondary_identifiers();
        if sec.len() == 0 {
            None
        } else {
            let joined = join_strings(&sec, "/");
            proof {
                reveal_strlit("/");
                assert("/"@ =~= seq![sep_char()]);
            }
            Some(joined)
        }
    }

    /// The status tags joined by commas, in parentheses.
    fn status_to_string(&self) -> (r: String)
        ensures
            r@ == status_segment(Self::status_of(self@)),
    {
        let st = self.status();
        let joined = join_strings(&st, ",");
        let mut r = String::from_str("(");
        r.append(joined.as_str());
        r.append(")");
        proof {
            reveal_strlit("(");
            reveal_strlit(")");
            reveal_strlit(",");
            assert("("@ =~= seq!['(']);
            assert(")"@ =~= seq![')']);
            assert(","@ =~= seq![',']);
            assert(r@ =~= status_segment(Self::status_of(self@)));
        }
        r
    }

    /// The key prefix of this record's kind and status.
    fn qualified_identifier_mainless_secondless(&self) -> (r: String)
        ensures
            r@ == key_kind_status(Self::namespace_spec(), Self::status_of(self@)),
    {
        let mut r = String::from_str(Self::namespace());
        r.append("/");
        let st = self.status_to_string();
        r.append(st.as_str());
        proof {
            reveal_strlit("/");
            assert("/"@ =~= seq![sep_char()]);
            assert(r@ =~= key_kind_status(Self::namespace_spec(), Self::status_of(self@)));
        }
        r
    }

    /// The key prefix of this record's kind, status and secondary group.
    fn qualified_identifier_mainless(&self) -> (r: String)
        ensures
            r@ == key_kind_status_secondary(
                Self::namespace_spec(),
                Self::status_of(self@),
                Self::secondary_identifiers_of(self@),
            ),
    {
        let mut r = self.qualified_identifier_mainless_secondless();
        match self.secondary_identifiers_try_to_string() {
            Some(s) => {
                r.append("/");
                r.append(s.as_str());
                proof {
                    reveal_strlit("/");
                    assert("/"@ =~= seq![sep_char()]);
                    assert(r@ =~= key_kind_status_secondary(
                Self::namespace_spec(),
                Self::status_of(self@),
                Self::secondary_identifiers_of(self@),
            ));
                }
            },
            None => {
                proof {
                    assert(r@ =~= key_kind_status_secondary(
                Self::namespace_spec(),
                Self::status_of(self@),
                Self::secondary_identifiers_of(self@),
            ));
                }
            },
        }
        r
    }

    /// The full key of this record.
    fn qualified_identifier(&self) -> (r: String)
        ensures
            r@ == qualified_key(
                Self::namespace_spec(),
                Self::status_of(self@),
                Self::secondary_identifiers_of(self@),
                Self::main_identifier_of(self@),
            ),
    {
        let mut r = self.qualified_identifier_mainless();
        r.append("/");
        let m = self.main_identifier();
        r.append(m.as_str());
        proof {
            reveal_strlit("/");
            assert("/"@ =~= seq![sep_char()]);
            assert(r@ =~= qualified_key(
                Self::namespace_spec(),
                Self::status_of(self@),
                Self::secondary_identifiers_of(self@),
                Self::main_identifier_of(self@),
            ));
        }
        r
    }

    /// Serializes the record and writes it at its qualified key,
    /// overwriting whatever that exact key held.
    fn insert(&self, db: &mut Store) -> (r: Result<(), DbError>)
        ensures
            r is Ok ==> Self::encodable(self@) && contents(*final(db)) == contents(
                *old(db),
            ).insert(
                qualified_key(
                    Self::namespace_spec(),
                    Self::status_of(self@),
                    Self::secondary_identifiers_of(self@),
                    Self::main_identifier_of(self@),
                ),
                Self::encoding(self@),
            ),
            !Self::encodable(self@) ==> r == Err::<(), DbError>(DbError::Serialization),
            r == Err::<(), DbError>(DbError::Serialization) ==> !Self::encodable(self@)
                && contents(*final(db)) == contents(*old(db)),
            r is Err ==> r->Err_0 == DbError::Serialization || r->Err_0 == DbError::Store,
    {
        let encoded = match self.encode() {
            Ok(v) => v,
            Err(e) => {
                return Err(e);
            },
        };
        let key = self.qualified_identifier();
        db.kv_insert(key.as_str(), encoded.as_slice())
    }

    /// Deletes the entry at this record's qualified key; absence is not an
    /// error.
    fn remove(&self, db: &mut Store) -> (r: Result<(), DbError>)
        ensures
            r is Ok ==> contents(*final(db)) == contents(*old(db)).remove(
                qualified_key(
                    Self::namespace_spec(),
                    Self::status_of(self@),
                    Self::secondary_identifiers_of(self@),
                    Self::main_identifier_of(self@),
                ),
            ),
            r is Err ==> r->Err_0 == DbError::Store,
    {
        let key = self.qualified_identifier();
        db.kv_remove(key.as_str())
    }

    /// Moves a logical record between physical keys: deletes the entry at
    /// this record's key and writes `new` at `new`'s own key.  The two
    /// steps are not atomic: between them the record is absent, and when
    /// the insert fails after the remove succeeded, it stays absent.
    fn relocate(&self, new: &Self, db: &mut Store) -> (r: Result<(), DbError>)
        ensures
            r is Ok ==> Self::encodable(new@) && contents(*final(db)) == contents(
                *old(db),
            ).remove(
                qualified_key(
                    Self::namespace_spec(),
                    Self::status_of(self@),
                    Self::secondary_identifiers_of(self@),
                    Self::main_identifier_of(self@),
                ),
            ).insert(
                qualified_key(
                    Self::namespace_spec(),
                    Self::status_of(new@),
                    Self::secondary_identifiers_of(new@),
                    Self::main_identifier_of(new@),
                ),
                Self::encoding(new@),
            ),
            r == Err::<(), DbError>(DbError::Serialization) ==> !Self::encodable(new@)
                && contents(*final(db)) == contents(*old(db)).remove(
                qualified_key(
                    Self::namespace_spec(),
                    Self::status_of(self@),
                    Self::secondary_identifiers_of(self@),
                    Self::main_identifier_of(self@),
                ),
            ),
            r is Err ==> r->Err_0 == DbError::Serialization || r->Err_0 == DbError::Store,
    {
        match self.remove(db) {
            Ok(()) => (),
            Err(e) => {
                return Err(e);
            },
        }
        new.insert(db)
    }

    /// Whether an entry is stored at this record's qualified key.
    fn exists_in(&self, db: &Store) -> (r: Result<bool, DbError>)
        ensures
            r matches Ok(b) ==> b == contents(*db).dom().contains(
                qualified_key(
                    Self::namespace_spec(),
                    Self::status_of(self@),
                    Self::secondary_identifiers_of(self@),
                    Self::main_identifier_of(self@),
                ),
            ),
            r is Err ==> r->Err_0 == DbError::Store,
    {
        let key = self.qualified_identifier();
        db.kv_contains(key.as_str())
    }

    /// Point lookup at a fully qualified key.  Absence is reported as
    /// `Ok(None)`, distinct from every error.
    fn get(id: String, db: &Store) -> (r: Result<Option<Self>, DbError>)
        ensures
            r matches Ok(Some(rec)) ==> contents(*db).dom().contains(id@) && Self::decoded(
                contents(*db)[id@],
            ) == Some(rec@),
            r matches Ok(o) && o is None ==> !contents(*db).dom().contains(id@),
            r == Err::<Option<Self>, DbError>(DbError::Deserialization) ==> contents(
                *db,
            ).dom().contains(id@) && Self::decoded(contents(*db)[id@]) is None,
            r is Err ==> r->Err_0 == DbError::Store || r->Err_0 == DbError::Deserialization,
            !contents(*db).dom().contains(id@) ==> r == Ok::<Option<Self>, DbError>(None) || r
                == Err::<Option<Self>, DbError>(DbError::Store),
    {
        let raw = match db.kv_get(id.as_str()) {
            Ok(Some(v)) => v,
            Ok(None) => {
                return Ok(None);
            },
            Err(e) => {
                return Err(e);
            },
        };
        match Self::decode(&raw) {
            Ok(rec) => Ok(Some(rec)),
            Err(e) => Err(e),
        }
    }

    /// Scans every record of this kind with this record's status and
    /// secondary group, in key order.  The scan prefix is the group prefix
    /// closed by a separator, so a group whose name merely starts with
    /// this one's is not included.
    fn get_templated(&self, db: &Store) -> (r: Result<Vec<Self>, DbError>)
        ensures
            r matches Ok(recs) ==> scan_decodes_to(
                contents(*db),
                group_scan_prefix(
                    Self::namespace_spec(),
                    Self::status_of(self@),
                    Self::secondary_identifiers_of(self@),
                ),
                recs@.map_values(|t: Self| t@),
                (|b: Seq<u8>| Self::decoded(b)),
            ),
            r == Err::<Vec<Self>, DbError>(DbError::Deserialization) ==> !scan_all_decodable(
                contents(*db),
                group_scan_prefix(
                    Self::namespace_spec(),
                    Self::status_of(self@),
                    Self::secondary_identifiers_of(self@),
                ),
                (|b: Seq<u8>| Self::decoded(b)),
            ),
            r is Err ==> r->Err_0 == DbError::Store || r->Err_0 == DbError::Deserialization,
            scan_all_decodable(
                contents(*db),
                group_scan_prefix(
                    Self::namespace_spec(),
                    Self::status_of(self@),
                    Self::secondary_identifiers_of(self@),
                ),
                (|b: Seq<u8>| Self::decoded(b)),
            ) ==> r is Ok || r == Err::<Vec<Self>, DbError>(DbError::Store),
    ;

    /// Scans every record of this kind with this record's status, in key
    /// order.
    fn get_status(&self, db: &Store) -> (r: Result<Vec<Self>, DbError>)
        ensures
            r matches Ok(recs) ==> scan_decodes_to(
                contents(*db),
                key_kind_status(Self::namespace_spec(), Self::status_of(self@)),
                recs@.map_values(|t: Self| t@),
                (|b: Seq<u8>| Self::decoded(b)),
            ),
            r == Err::<Vec<Self>, DbError>(DbError::Deserialization) ==> !scan_all_decodable(
                contents(*db),
                key_kind_status(Self::namespace_spec(), Self::status_of(self@)),
                (|b: Seq<u8>| Self::decoded(b)),
            ),
            r is Err ==> r->Err_0 == DbError::Store || r->Err_0 == DbError::Deserialization,
            scan_all_decodable(contents(*db), key_kind_status(Self::namespace_spec(), Self::status_of(self@)), (|b: Seq<u8>| Self::decoded(b)))
                ==> r is Ok || r == Err::<Vec<Self>, DbError>(DbError::Store),
    ;

    /// Scans every record of this kind, whatever its status or group, in
    /// key order.
    fn get_all(db: &Store) -> (r: Result<Vec<Self>, DbError>)
        ensures
            r matches Ok(recs) ==> scan_decodes_to(
                contents(*db),
                Self::namespace_spec(),
                recs@.map_values(|t: Self| t@),
                (|b: Seq<u8>| Self::decoded(b)),
            ),
            r == Err::<Vec<Self>, DbError>(DbError::Deserialization) ==> !scan_all_decodable(
                contents(*db),
                Self::namespace_spec(),
                (|b: Seq<u8>| Self::decoded(b)),
            ),
            r is Err ==> r->Err_0 == DbError::Store || r->Err_0 == DbError::Deserialization,
            scan_all_decodable(contents(*db), Self::namespace_spec(), (|b: Seq<u8>| Self::decoded(b))) ==> r
                is Ok || r == Err::<Vec<Self>, DbError>(DbError::Store),
    ;
}

/// Runs one prefix scan and decodes every returned value with `f`, whose
/// behaviour must follow the ghost decoder `dec`; a value that does not
/// decode aborts the whole scan.
pub(crate) fn scan_decode<T: View, F: Fn(&Vec<u8>) -> Result<T, DbError>>(
    db: &Store,
    prefix: &str,
    f: F,
    Ghost(dec): Ghost<spec_fn(Seq<u8>) -> Option<T::V>>,
) -> (r: Result<Vec<T>, DbError>)
    requires
        forall|b: &Vec<u8>| #[trigger] call_requires(f, (b,)),
        forall|b: &Vec<u8>, ret: Result<T, DbError>| #[trigger] call_ensures(f, (b,), ret)
            ==> (match dec(b@) {
                Some(v) => ret matches Ok(rec) && rec@ == v,
                None => ret == Err::<T, DbError>(DbError::Deserialization),
            }),
    ensures
        r matches Ok(recs) ==> scan_decodes_to(
            contents(*db),
            prefix@,
            recs@.map_values(|t: T| t@),
            dec,
        ),
        r == Err::<Vec<T>, DbError>(DbError::Deserialization) ==> !scan_all_decodable(
            contents(*db),
            prefix@,
            dec,
        ),
        r is Err ==> r->Err_0 == DbError::Store || r->Err_0 == DbError::Deserialization,
        scan_all_decodable(contents(*db), prefix@, dec) ==> r is Ok || r == Err::<
            Vec<T>,
            DbError,
        >(DbError::Store),
{
    let pairs = match db.kv_scan_prefix(prefix) {
        Ok(p) => p,
        Err(e) => {
            return Err(e);
        },
    };
    let ghost pv = pairs_view(pairs@);
    let mut out: Vec<T> = Vec::new();
    let n = pairs.len();
    let mut i: usize = 0;
    while i < n
        invariant
            n == pairs.len(),
            i <= n,
            out@.len() == i,
            scan_result(contents(*db), prefix@, pv),
            pv == pairs_view(pairs@),
            forall|j: int| 0 <= j < i ==> dec((#[trigger] pv[j]).1) == Some(out@[j]@),
            forall|b: &Vec<u8>| #[trigger] call_requires(f, (b,)),
            forall|b: &Vec<u8>, ret: Result<T, DbError>| #[trigger] call_ensures(f, (b,), ret)
                ==> (match dec(b@) {
                    Some(v) => ret matches Ok(rec) && rec@ == v,
                    None => ret == Err::<T, DbError>(DbError::Deserialization),
                }),
        decreases n - i,
    {
        let rec = match f(&pairs[i].1) {
            Ok(rec) => rec,
            Err(_) => {
                proof {
                    assert(contents(*db).dom().contains(pv[i as int].0));
                    assert(dec(contents(*db)[pv[i as int].0]) is None);
                }
                return Err(DbError::Deserialization);
            },
        };
        out.push(rec);
        i = i + 1;
    }
    proof {
        let views = out@.map_values(|t: T| t@);
        assert(views.len() == pv.len());
        assert(forall|j: int| 0 <= j < pv.len() ==> dec((#[trigger] pv[j]).1) == Some(views[j]));
    }
    Ok(out)
}

/// The namespace segment of a raw key: everything before the first
/// separator, or nothing when the key holds no separator.
pub fn database_element_get_kind(s: &str) -> (r: Option<String>)
    ensures
        r is Some <==> exists|i: int| 0 <= i < s@.len() && s@[i] == sep_char(),
        r matches Some(k) ==> exists|i: int|
            {
                &&& 0 <= i < s@.len()
                &&& s@[i] == sep_char()
                &&& forall|j: int| 0 <= j < i ==> s@[j] != sep_char()
                &&& k@ == s@.subrange(0, i)
            },
{
    let n = s.unicode_len();
    let mut i: usize = 0;
    while i < n
        invariant
            i <= n,
            n == s@.len(),
            forall|j: int| 0 <= j < i ==> s@[j] != sep_char(),
        decreases n - i,
    {
        let c = s.get_char(i);
        if c == '/' {
            let sub = s.substring_char(0, i);
            return Some(sub.to_owned());
        }
        i = i + 1;
    }
    None
}

} // verus!
