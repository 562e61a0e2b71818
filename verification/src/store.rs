//! The underlying sorted key-value store, held behind a small set of trusted
//! wrappers around `sled`.
//!
//! The store is modelled as a map from key (a character sequence; every key
//! is written through these wrappers as UTF-8 text) to value (a byte
//! sequence).  `sled` iterates keys in ascending byte order, and UTF-8
//! preserves the code-point order of the text it encodes, so a prefix scan
//! hands the matching entries back in ascending order of their character
//! sequences.
//!
//! A `sled` call can fail with an I/O or internal error on any input; every
//! wrapper surfaces that as `DbError::Store` and promises nothing about the
//! contents in that case.

use vstd::prelude::*;

use crate::DbError;

verus! {

/// A handle on one open embedded store.
///
/// The underlying store supports a single writer per process; opening the
/// same store from several processes at once is refused by `sled` itself at
/// open time.
#[verifier::external_body]
pub struct Store {
    db: sled::Db,
}

/// The entries the store currently holds: each key, as the character
/// sequence its UTF-8 bytes encode, mapped to its value bytes.
pub uninterp spec fn contents(s: Store) -> Map<Seq<char>, Seq<u8>>;

/// Strict lexicographic order on character sequences, by code point.
pub open spec fn lex_lt(a: Seq<char>, b: Seq<char>) -> bool
    decreases a.len(),
{
    if b.len() == 0 {
        false
    } else if a.len() == 0 {
        true
    } else if a[0] != b[0] {
        (a[0] as nat) < (b[0] as nat)
    } else {
        lex_lt(a.drop_first(), b.drop_first())
    }
}

/// The keys of `m` that start with `prefix`.
pub open spec fn matching_keys(m: Map<Seq<char>, Seq<u8>>, prefix: Seq<char>) -> Set<Seq<char>> {
    m.dom().filter(|k: Seq<char>| prefix.is_prefix_of(k))
}

/// What a successful prefix scan hands back: every pair is an entry of `m`
/// whose key starts with `prefix`, the keys come in strictly ascending
/// order, and every matching entry of `m` is among them.
pub open spec fn scan_result(
    m: Map<Seq<char>, Seq<u8>>,
    prefix: Seq<char>,
    pairs: Seq<(Seq<char>, Seq<u8>)>,
) -> bool {
    &&& forall|i: int|
        0 <= i < pairs.len() ==> {
            &&& m.dom().contains((#[trigger] pairs[i]).0)
            &&& prefix.is_prefix_of(pairs[i].0)
            &&& pairs[i].1 == m[pairs[i].0]
        }
    &&& forall|i: int, j: int|
        0 <= i < j < pairs.len() ==> lex_lt((#[trigger] pairs[i]).0, (#[trigger] pairs[j]).0)
    &&& forall|k: Seq<char>|
        #[trigger] m.dom().contains(k) && prefix.is_prefix_of(k) ==> exists|i: int|
            0 <= i < pairs.len() && (#[trigger] pairs[i]).0 == k
}

/// The views of the key-value pairs a scan returned.
pub open spec fn pairs_view(pairs: Seq<(String, Vec<u8>)>) -> Seq<(Seq<char>, Seq<u8>)> {
    pairs.map_values(|kv: (String, Vec<u8>)| (kv.0@, kv.1@))
}

/// A freshly created store is empty, when creating it succeeded.
pub open spec fn opened_fresh(r: Result<Store, DbError>) -> bool {
    r is Ok ==> contents(r->Ok_0) == Map::<Seq<char>, Seq<u8>>::empty()
}

impl Store {
    /// Relies on `sled::open`: opens (creating if absent) the store rooted
    /// at the given path.  What it holds is whatever the path held, so
    /// nothing is promised of the contents.
    #[verifier::external_body]
    pub fn open(path: &str) -> (r: Result<Store, DbError>) {
        match sled::open(path) {
            Ok(db) => Ok(Store { db }),
            Err(_) => Err(DbError::Store),
        }
    }

    /// Relies on `sled::Config::open` with the `temporary` option: a fresh
    /// store backed by a temporary directory, holding no entries.
    #[verifier::external_body]
    pub fn open_temporary() -> (r: Result<Store, DbError>)
        ensures
            opened_fresh(r),
    {
        match sled::Config::new().temporary(true).open() {
            Ok(db) => Ok(Store { db }),
            Err(_) => Err(DbError::Store),
        }
    }

    /// Relies on `sled::Tree::insert`: sets the key to the value,
    /// overwriting any value the exact key held before.
    #[verifier::external_body]
    pub(crate) fn kv_insert(&mut self, key: &str, value: &[u8]) -> (r: Result<(), DbError>)
        ensures
            r is Ok ==> contents(*final(self)) == contents(*old(self)).insert(key@, value@),
            r is Err ==> r->Err_0 == DbError::Store,
    {
        match self.db.insert(key, value) {
            Ok(_) => Ok(()),
            Err(_) => Err(DbError::Store),
        }
    }

    /// Relies on `sled::Tree::remove`: deletes the entry at the key;
    /// absence is not an error.
    #[verifier::external_body]
    pub(crate) fn kv_remove(&mut self, key: &str) -> (r: Result<(), DbError>)
        ensures
            r is Ok ==> contents(*final(self)) == contents(*old(self)).remove(key@),
            r is Err ==> r->Err_0 == DbError::Store,
    {
        match self.db.remove(key) {
            Ok(_) => Ok(()),
            Err(_) => Err(DbError::Store),
        }
    }

    /// Relies on `sled::Tree::contains_key`: whether the exact key holds a
    /// value.
    #[verifier::external_body]
    pub(crate) fn kv_contains(&self, key: &str) -> (r: Result<bool, DbError>)
        ensures
            r matches Ok(b) ==> b == contents(*self).dom().contains(key@),
            r is Err ==> r->Err_0 == DbError::Store,
    {
        match self.db.contains_key(key) {
            Ok(b) => Ok(b),
            Err(_) => Err(DbError::Store),
        }
    }

    /// Relies on `sled::Tree::get`: the value at the exact key, or `None`
    /// when the key holds none.
    #[verifier::external_body]
    pub(crate) fn kv_get(&self, key: &str) -> (r: Result<Option<Vec<u8>>, DbError>)
        ensures
            r matches Ok(Some(v)) ==> contents(*self).dom().contains(key@) && v@ == contents(
                *self,
            )[key@],
            r matches Ok(ov) && ov is None ==> !contents(*self).dom().contains(key@),
            r is Err ==> r->Err_0 == DbError::Store,
    {
        match self.db.get(key) {
            Ok(Some(v)) => Ok(Some(v.to_vec())),
            Ok(None) => Ok(None),
            Err(_) => Err(DbError::Store),
        }
    }

    /// Relies on `sled::Tree::scan_prefix`: iterates, in ascending key
    /// order, exactly the entries whose key starts with the prefix.  An
    /// entry the iterator reports as errored, or a key that is not UTF-8
    /// (none is ever written by this library), aborts the scan.
    #[verifier::external_body]
    pub(crate) fn kv_scan_prefix(&self, prefix: &str) -> (r: Result<
        Vec<(String, Vec<u8>)>,
        DbError,
    >)
        ensures
            r matches Ok(pairs) ==> scan_result(contents(*self), prefix@, pairs_view(pairs@)),
            r is Err ==> r->Err_0 == DbError::Store,
    {
        let mut out: Vec<(String, Vec<u8>)> = Vec::new();
        for kv in self.db.scan_prefix(prefix) {
            match kv {
                Ok((k, v)) => match String::from_utf8(k.to_vec()) {
                    Ok(ks) => out.push((ks, v.to_vec())),
                    Err(_) => return Err(DbError::Store),
                },
                Err(_) => return Err(DbError::Store),
            }
        }
        Ok(out)
    }
}

} // verus!
