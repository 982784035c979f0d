//! The catalog: a durable mapping between document paths and the vector ids
//! of their chunks, kept in a sled store under two key spaces, plus the source
//! of fresh ids.
//!
//! `/byfile/<path without a leading slash>` and `/byindex/<id>` both hold the
//! stored form of the same entry (see `record`).
use vstd::prelude::*;
use vstd::bytes::*;
use vstd::slice::*;
use vstd::string::*;
use vstd::utf8::*;

use crate::error::CatalogError;
use crate::record::{decode_entry, encode_entry, entry_bytes, lemma_entry_round_trip, parse_entry};

verus! {

broadcast use vstd::seq::group_seq_axioms;

#[verifier::external_type_specification]
#[verifier::external_body]
pub struct ExDb(sled::Db);

/// What a sled store holds: the bytes of each key mapped to the bytes of its value.
pub uninterp spec fn store_contents(db: sled::Db) -> Map<Seq<u8>, Seq<u8>>;

/// A bound below which a sled store hands out no more generated ids.
pub uninterp spec fn store_id_floor(db: sled::Db) -> nat;

/// Relies on `sled::Tree::insert`: once it returns `Ok`, the key maps to the
/// value; the id generator is not touched.
#[verifier::external_body]
fn store_insert(db: &mut sled::Db, key: &Vec<u8>, value: &Vec<u8>) -> (r: Result<(), CatalogError>)
    ensures
        r is Ok ==> store_contents(*final(db)) == store_contents(*old(db)).insert(key@, value@),
        r is Ok ==> store_id_floor(*final(db)) == store_id_floor(*old(db)),
    r matches Err(e) ==> e == CatalogError::Store,
{
    match db.insert(key.as_slice(), value.as_slice()) {
        Ok(_) => Ok(()),
        Err(_) => Err(CatalogError::Store),
    }
}

/// Relies on `sled::Tree::remove`: once it returns `Ok`, the key is absent;
/// the id generator is not touched.
#[verifier::external_body]
fn store_remove(db: &mut sled::Db, key: &Vec<u8>) -> (r: Result<(), CatalogError>)
    ensures
        r is Ok ==> store_contents(*final(db)) == store_contents(*old(db)).remove(key@),
        r is Ok ==> store_id_floor(*final(db)) == store_id_floor(*old(db)),
    r matches Err(e) ==> e == CatalogError::Store,
{
    match db.remove(key.as_slice()) {
        Ok(_) => Ok(()),
        Err(_) => Err(CatalogError::Store),
    }
}

/// Relies on `sled::Tree::get`: the value stored under the key, if any.
#[verifier::external_body]
fn store_get(db: &sled::Db, key: &Vec<u8>) -> (r: Result<Option<Vec<u8>>, CatalogError>)
    ensures
        r matches Ok(v) ==> (v is Some <==> store_contents(*db).contains_key(key@)),
        r matches Ok(Some(v)) ==> v@ == store_contents(*db)[key@],
        r matches Err(e) ==> e == CatalogError::Store,
{
    match db.get(key.as_slice()) {
        Ok(Some(v)) => Ok(Some(v.to_vec())),
        Ok(None) => Ok(None),
        Err(_) => Err(CatalogError::Store),
    }
}

/// Relies on `sled::Tree::contains_key`: whether the key is present.
#[verifier::external_body]
fn store_contains(db: &sled::Db, key: &Vec<u8>) -> (r: Result<bool, CatalogError>)
    ensures
        r matches Ok(b) ==> b == store_contents(*db).contains_key(key@),
        r matches Err(e) ==> e == CatalogError::Store,
{
    match db.contains_key(key.as_slice()) {
        Ok(b) => Ok(b),
        Err(_) => Err(CatalogError::Store),
    }
}

/// Relies on `sled::Db::generate_id`: a monotonic id, never handed out
/// before; the stored keys are not touched.
#[verifier::external_body]
fn store_generate_id(db: &mut sled::Db) -> (r: Result<u64, CatalogError>)
    ensures
        r matches Ok(id) ==> store_id_floor(*old(db)) <= id < store_id_floor(*final(db)),
        r is Ok ==> store_contents(*final(db)) == store_contents(*old(db)),
        r matches Err(e) ==> e == CatalogError::Store,
{
    match db.generate_id() {
        Ok(id) => Ok(id),
        Err(_) => Err(CatalogError::Store),
    }
}

/// A path as the catalog keys it: without one leading `/`.
pub open spec fn normalized(p: Seq<char>) -> Seq<char> {
    if p.len() > 0 && p[0] == '/' {
        p.drop_first()
    } else {
        p
    }
}

/// The bytes of `/byfile/`.
pub open spec fn byfile_prefix() -> Seq<u8> {
    seq![47u8, 98u8, 121u8, 102u8, 105u8, 108u8, 101u8, 47u8]
}

/// The bytes of `/byindex/`.
pub open spec fn byindex_prefix() -> Seq<u8> {
    seq![47u8, 98u8, 121u8, 105u8, 110u8, 100u8, 101u8, 120u8, 47u8]
}

/// The key of a path's entry.
pub open spec fn file_key(p: Seq<char>) -> Seq<u8> {
    byfile_prefix() + encode_utf8(normalized(p))
}

/// The decimal digits of a number, in ASCII.
pub open spec fn decimal(n: nat) -> Seq<u8>
    decreases n,
{
    if n < 10 {
        seq![(48 + n) as u8]
    } else {
        decimal(n / 10).push((48 + n % 10) as u8)
    }
}

/// The key of an id's entry: `/byindex/` and the id in decimal.
pub open spec fn index_key(id: u64) -> Seq<u8> {
    byindex_prefix() + decimal(id as nat)
}

/// `m` with every id of `ids` keyed to `v`.
pub open spec fn put_index_keys(m: Map<Seq<u8>, Seq<u8>>, ids: Seq<u64>, v: Seq<u8>) -> Map<
    Seq<u8>,
    Seq<u8>,
>
    decreases ids.len(),
{
    if ids.len() == 0 {
        m
    } else {
        put_index_keys(m, ids.drop_last(), v).insert(index_key(ids.last()), v)
    }
}

/// `m` without the keys of the ids of `ids`.
pub open spec fn drop_index_keys(m: Map<Seq<u8>, Seq<u8>>, ids: Seq<u64>) -> Map<Seq<u8>, Seq<u8>>
    decreases ids.len(),
{
    if ids.len() == 0 {
        m
    } else {
        drop_index_keys(m, ids.drop_last()).remove(index_key(ids.last()))
    }
}

/// The store after an entry is added: its path key and each of its id keys
/// hold its stored form.
pub open spec fn with_entry(m: Map<Seq<u8>, Seq<u8>>, e: (Seq<char>, Seq<u64>)) -> Map<
    Seq<u8>,
    Seq<u8>,
> {
    put_index_keys(m.insert(file_key(e.0), entry_bytes(e)), e.1, entry_bytes(e))
}

/// The store after the entry stored as `e` under the path `p` is removed.
pub open spec fn without_entry(
    m: Map<Seq<u8>, Seq<u8>>,
    p: Seq<char>,
    e: (Seq<char>, Seq<u64>),
) -> Map<Seq<u8>, Seq<u8>> {
    drop_index_keys(m.remove(file_key(p)), e.1)
}

/// What the store holds for a key, read as an entry.
pub open spec fn entry_under(m: Map<Seq<u8>, Seq<u8>>, k: Seq<u8>) -> Option<
    (Seq<char>, Seq<u64>),
> {
    if m.contains_key(k) {
        parse_entry(m[k])
    } else {
        None
    }
}

/// Whether a key lies in the id key space (`/byi...`).
pub open spec fn is_index_key(k: Seq<u8>) -> bool {
    k.len() > 3 && k[3] == 105u8
}

proof fn lemma_key_spaces(p: Seq<char>, id: u64)
    ensures
        is_index_key(index_key(id)),
        !is_index_key(file_key(p)),
{
    assert(index_key(id)[3] == byindex_prefix()[3]);
    assert(file_key(p)[3] == byfile_prefix()[3]);
}

proof fn lemma_put_index_keys(m: Map<Seq<u8>, Seq<u8>>, ids: Seq<u64>, v: Seq<u8>)
    ensures
        forall|i: int|
            0 <= i < ids.len() ==> #[trigger] put_index_keys(m, ids, v).contains_key(index_key(ids[i]))
                && put_index_keys(m, ids, v)[index_key(ids[i])] == v,
        forall|k: Seq<u8>|
            !is_index_key(k) ==> (#[trigger] put_index_keys(m, ids, v).contains_key(k) == m.contains_key(k))
                && (m.contains_key(k) ==> put_index_keys(m, ids, v)[k] == m[k]),
    decreases ids.len(),
{
    if ids.len() > 0 {
        let init = ids.drop_last();
        lemma_put_index_keys(m, init, v);
        lemma_key_spaces(Seq::empty(), ids.last());
        assert forall|i: int| 0 <= i < ids.len() implies #[trigger] put_index_keys(m, ids, v).contains_key(
            index_key(ids[i]),
        ) && put_index_keys(m, ids, v)[index_key(ids[i])] == v by {
            if i < ids.len() - 1 {
                assert(init[i] == ids[i]);
                assert(put_index_keys(m, init, v).contains_key(index_key(init[i])));
            }
        }
        assert forall|k: Seq<u8>| !is_index_key(k) implies (#[trigger] put_index_keys(
            m,
            ids,
            v,
        ).contains_key(k) == m.contains_key(k)) && (m.contains_key(k) ==> put_index_keys(m, ids, v)[k]
            == m[k]) by {
            assert(k != index_key(ids.last()));
            assert(put_index_keys(m, init, v).contains_key(k) == m.contains_key(k));
        }
    }
}

proof fn lemma_drop_index_keys(m: Map<Seq<u8>, Seq<u8>>, ids: Seq<u64>)
    ensures
        forall|i: int|
            0 <= i < ids.len() ==> !#[trigger] drop_index_keys(m, ids).contains_key(index_key(ids[i])),
        forall|k: Seq<u8>|
            !is_index_key(k) ==> #[trigger] drop_index_keys(m, ids).contains_key(k) == m.contains_key(k),
    decreases ids.len(),
{
    if ids.len() > 0 {
        let init = ids.drop_last();
        lemma_drop_index_keys(m, init);
        lemma_key_spaces(Seq::empty(), ids.last());
        assert forall|i: int| 0 <= i < ids.len() implies !#[trigger] drop_index_keys(m, ids).contains_key(
            index_key(ids[i]),
        ) by {
            if i < ids.len() - 1 {
                assert(init[i] == ids[i]);
                assert(!drop_index_keys(m, init).contains_key(index_key(init[i])));
            }
        }
        assert forall|k: Seq<u8>| !is_index_key(k) implies #[trigger] drop_index_keys(
            m,
            ids,
        ).contains_key(k) == m.contains_key(k) by {
            assert(k != index_key(ids.last()));
            assert(drop_index_keys(m, init).contains_key(k) == m.contains_key(k));
        }
    }
}

/// Once an entry is added, its path and each of its ids read back as that
/// entry.
pub proof fn lemma_add_then_lookup(m: Map<Seq<u8>, Seq<u8>>, e: (Seq<char>, Seq<u64>))
    requires
        e.1.len() <= u64::MAX,
    ensures
        entry_under(with_entry(m, e), file_key(e.0)) == Some(e),
        forall|i: int|
            0 <= i < e.1.len() ==> #[trigger] entry_under(with_entry(m, e), index_key(e.1[i]))
                == Some(e),
{
    let v = entry_bytes(e);
    let start = m.insert(file_key(e.0), v);
    lemma_entry_round_trip(e);
    lemma_put_index_keys(start, e.1, v);
    lemma_key_spaces(e.0, 0);
    assert(put_index_keys(start, e.1, v).contains_key(file_key(e.0)));
}

/// Once an entry is added and then deleted by its path, neither its path nor
/// any of its ids has a key left in the store.
pub proof fn lemma_add_then_delete(m: Map<Seq<u8>, Seq<u8>>, e: (Seq<char>, Seq<u64>))
    requires
        e.1.len() <= u64::MAX,
    ensures
        entry_under(with_entry(m, e), file_key(e.0)) == Some(e),
        !without_entry(with_entry(m, e), e.0, e).contains_key(file_key(e.0)),
        forall|i: int|
            0 <= i < e.1.len() ==> !#[trigger] without_entry(with_entry(m, e), e.0, e).contains_key(
                index_key(e.1[i]),
            ),
{
    lemma_add_then_lookup(m, e);
    let removed = with_entry(m, e).remove(file_key(e.0));
    lemma_drop_index_keys(removed, e.1);
    lemma_key_spaces(e.0, 0);
    assert(!drop_index_keys(removed, e.1).contains_key(file_key(e.0)));
}

/// The ids of an entry, if there is one.
pub open spec fn ids_of(e: Option<(Seq<char>, Seq<u64>)>) -> Seq<u64> {
    match e {
        Some(e) => e.1,
        None => Seq::empty(),
    }
}

/// The file name of an entry, if there is one.
pub open spec fn name_of(e: Option<(Seq<char>, Seq<u64>)>) -> Seq<char> {
    match e {
        Some(e) => e.0,
        None => Seq::empty(),
    }
}

/// `k` is the key of none of `ids`.
pub open spec fn untouched(k: Seq<u8>, ids: Seq<u64>) -> bool {
    forall|j: int| 0 <= j < ids.len() ==> k != #[trigger] index_key(ids[j])
}

proof fn lemma_put_untouched(m: Map<Seq<u8>, Seq<u8>>, ids: Seq<u64>, v: Seq<u8>, k: Seq<u8>)
    requires
        untouched(k, ids),
    ensures
        put_index_keys(m, ids, v).contains_key(k) == m.contains_key(k),
        m.contains_key(k) ==> put_index_keys(m, ids, v)[k] == m[k],
    decreases ids.len(),
{
    if ids.len() > 0 {
        let init = ids.drop_last();
        assert(k != index_key(ids[ids.len() - 1]));
        assert forall|j: int| 0 <= j < init.len() implies k != #[trigger] index_key(init[j]) by {
            assert(init[j] == ids[j]);
            assert(k != index_key(ids[j]));
        }
        lemma_put_untouched(m, init, v, k);
    }
}

proof fn lemma_drop_untouched(m: Map<Seq<u8>, Seq<u8>>, ids: Seq<u64>, k: Seq<u8>)
    requires
        untouched(k, ids),
    ensures
        drop_index_keys(m, ids).contains_key(k) == m.contains_key(k),
        m.contains_key(k) ==> drop_index_keys(m, ids)[k] == m[k],
    decreases ids.len(),
{
    if ids.len() > 0 {
        let init = ids.drop_last();
        assert(k != index_key(ids[ids.len() - 1]));
        assert forall|j: int| 0 <= j < init.len() implies k != #[trigger] index_key(init[j]) by {
            assert(init[j] == ids[j]);
            assert(k != index_key(ids[j]));
        }
        lemma_drop_untouched(m, init, k);
    }
}

/// Every entry stored under a path is stored, the same, under each of its
/// ids.
pub open spec fn consistent(m: Map<Seq<u8>, Seq<u8>>) -> bool {
    forall|p: Seq<char>, i: int|
        #![trigger entry_under(m, file_key(p)), entry_under(m, index_key(ids_of(entry_under(m, file_key(p)))[i]))]
        entry_under(m, file_key(p)) is Some && 0 <= i < ids_of(entry_under(m, file_key(p))).len()
            ==> entry_under(m, index_key(ids_of(entry_under(m, file_key(p)))[i])) == entry_under(
            m,
            file_key(p),
        )
}

/// Every entry stored under a path names that path.
pub open spec fn self_keyed(m: Map<Seq<u8>, Seq<u8>>) -> bool {
    forall|p: Seq<char>|
        #[trigger] entry_under(m, file_key(p)) is Some ==> file_key(name_of(entry_under(m, file_key(p))))
            == file_key(p)
}

/// An empty store is consistent.
pub proof fn lemma_empty_is_consistent()
    ensures
        consistent(Map::<Seq<u8>, Seq<u8>>::empty()),
        self_keyed(Map::<Seq<u8>, Seq<u8>>::empty()),
{
}

/// Adding an entry whose ids have no key in the store (fresh ids) keeps the
/// store consistent: for every entry under a path, each of its ids reads back
/// as that entry.
pub proof fn lemma_add_keeps_consistent(m: Map<Seq<u8>, Seq<u8>>, e: (Seq<char>, Seq<u64>))
    requires
        consistent(m),
        self_keyed(m),
        e.1.len() <= u64::MAX,
        forall|j: int| 0 <= j < e.1.len() ==> !m.contains_key(#[trigger] index_key(e.1[j])),
    ensures
        consistent(with_entry(m, e)),
        self_keyed(with_entry(m, e)),
{
    let m1 = with_entry(m, e);
    let v = entry_bytes(e);
    let start = m.insert(file_key(e.0), v);
    lemma_add_then_lookup(m, e);
    assert forall|p: Seq<char>| #[trigger] entry_under(m1, file_key(p)) is Some implies file_key(
        name_of(entry_under(m1, file_key(p))),
    ) == file_key(p) by {
        lemma_key_spaces(p, 0);
        lemma_put_index_keys(start, e.1, v);
        if file_key(p) != file_key(e.0) {
            assert(entry_under(m1, file_key(p)) == entry_under(m, file_key(p)));
        }
    }
    assert forall|p: Seq<char>, i: int|
        entry_under(m1, file_key(p)) is Some && 0 <= i < ids_of(entry_under(m1, file_key(p))).len() implies
        #[trigger] entry_under(m1, index_key(ids_of(entry_under(m1, file_key(p)))[i])) == #[trigger] entry_under(
            m1,
            file_key(p),
        ) by {
        lemma_key_spaces(p, 0);
        lemma_put_index_keys(start, e.1, v);
        if file_key(p) != file_key(e.0) {
            assert(entry_under(m1, file_key(p)) == entry_under(m, file_key(p)));
            let e2 = entry_under(m, file_key(p))->0;
            let k = index_key(e2.1[i]);
            assert(entry_under(m, k) == entry_under(m, file_key(p)));
            assert(m.contains_key(k));
            assert(untouched(k, e.1));
            lemma_key_spaces(e.0, e2.1[i]);
            lemma_put_untouched(start, e.1, v, k);
            assert(entry_under(m1, k) == entry_under(m, k));
        }
    }
}

/// Deleting the entry under a path keeps the store consistent and every
/// remaining entry keyed by its own path.
pub proof fn lemma_delete_keeps_consistent(m: Map<Seq<u8>, Seq<u8>>, dp: Seq<char>)
    requires
        consistent(m),
        self_keyed(m),
        entry_under(m, file_key(dp)) is Some,
    ensures
        consistent(without_entry(m, dp, entry_under(m, file_key(dp))->0)),
        self_keyed(without_entry(m, dp, entry_under(m, file_key(dp))->0)),
{
    let e0 = entry_under(m, file_key(dp))->0;
    let removed = m.remove(file_key(dp));
    let m2 = without_entry(m, dp, e0);
    lemma_drop_index_keys(removed, e0.1);
    assert forall|p: Seq<char>| #[trigger] entry_under(m2, file_key(p)) is Some implies file_key(
        name_of(entry_under(m2, file_key(p))),
    ) == file_key(p) by {
        lemma_key_spaces(p, 0);
        lemma_drop_untouched_file(removed, e0.1, p);
        assert(entry_under(m2, file_key(p)) == entry_under(m, file_key(p)));
    }
    assert forall|p: Seq<char>, i: int|
        entry_under(m2, file_key(p)) is Some && 0 <= i < ids_of(entry_under(m2, file_key(p))).len() implies
        #[trigger] entry_under(m2, index_key(ids_of(entry_under(m2, file_key(p)))[i])) == #[trigger] entry_under(
            m2,
            file_key(p),
        ) by {
        lemma_key_spaces(p, 0);
        lemma_drop_untouched_file(removed, e0.1, p);
        assert(entry_under(m2, file_key(p)) == entry_under(m, file_key(p)));
        let e = entry_under(m, file_key(p))->0;
        let k = index_key(e.1[i]);
        assert(ids_of(entry_under(m, file_key(p))) == e.1);
        assert(entry_under(m, index_key(ids_of(entry_under(m, file_key(p)))[i])) == entry_under(
            m,
            file_key(p),
        ));
        assert(entry_under(m, k) == Some(e));
        assert forall|j: int| 0 <= j < e0.1.len() implies k != #[trigger] index_key(e0.1[j]) by {
            if k == index_key(e0.1[j]) {
                assert(ids_of(entry_under(m, file_key(dp))) == e0.1);
                assert(entry_under(m, index_key(ids_of(entry_under(m, file_key(dp)))[j])) == entry_under(
                    m,
                    file_key(dp),
                ));
                assert(e == e0);
                assert(file_key(name_of(entry_under(m, file_key(p)))) == file_key(p));
                assert(file_key(name_of(entry_under(m, file_key(dp)))) == file_key(dp));
                assert(removed.contains_key(file_key(p)));
                assert(false);
            }
        }
        lemma_key_spaces(dp, e.1[i]);
        lemma_drop_untouched(removed, e0.1, k);
        assert(entry_under(m2, k) == entry_under(m, k));
    }
}

proof fn lemma_drop_untouched_file(m: Map<Seq<u8>, Seq<u8>>, ids: Seq<u64>, p: Seq<char>)
    ensures
        drop_index_keys(m, ids).contains_key(file_key(p)) == m.contains_key(file_key(p)),
        m.contains_key(file_key(p)) ==> drop_index_keys(m, ids)[file_key(p)] == m[file_key(p)],
{
    lemma_key_spaces(p, 0);
    assert forall|j: int| 0 <= j < ids.len() implies file_key(p) != #[trigger] index_key(ids[j]) by {
        lemma_key_spaces(p, ids[j]);
    }
    lemma_drop_untouched(m, ids, file_key(p));
}

/// A change to the catalog, as the store sees it.
pub enum CatalogOp {
    /// `add` of an entry.
    Add((Seq<char>, Seq<u64>)),
    /// `delete` of a path (it leaves the store as it was where no entry reads
    /// back under the path).
    Delete(Seq<char>),
}

/// The store after one change.
pub open spec fn apply_op(m: Map<Seq<u8>, Seq<u8>>, op: CatalogOp) -> Map<Seq<u8>, Seq<u8>> {
    match op {
        CatalogOp::Add(e) => with_entry(m, e),
        CatalogOp::Delete(p) => match entry_under(m, file_key(p)) {
            Some(e) => without_entry(m, p, e),
            None => m,
        },
    }
}

/// The store after the changes of `ops`, in order.
pub open spec fn apply_ops(m: Map<Seq<u8>, Seq<u8>>, ops: Seq<CatalogOp>) -> Map<Seq<u8>, Seq<u8>>
    decreases ops.len(),
{
    if ops.len() == 0 {
        m
    } else {
        apply_op(apply_ops(m, ops.drop_last()), ops.last())
    }
}

/// Each entry added by `ops` comes with ids that have no key in the store at
/// that point (ids fresh from `gen_id`).
pub open spec fn fresh_adds(m: Map<Seq<u8>, Seq<u8>>, ops: Seq<CatalogOp>) -> bool
    decreases ops.len(),
{
    if ops.len() == 0 {
        true
    } else {
        fresh_adds(m, ops.drop_last()) && match ops.last() {
            CatalogOp::Add(e) => e.1.len() <= u64::MAX && forall|j: int|
                0 <= j < e.1.len() ==> !apply_ops(m, ops.drop_last()).contains_key(
                    #[trigger] index_key(e.1[j]),
                ),
            CatalogOp::Delete(_) => true,
        }
    }
}

/// Whatever adds (of fresh ids) and deletes a store has seen since it was
/// empty, every entry stored under a path is stored, the same, under each of
/// its ids.
pub proof fn lemma_changes_keep_consistent(ops: Seq<CatalogOp>)
    requires
        fresh_adds(Map::empty(), ops),
    ensures
        consistent(apply_ops(Map::empty(), ops)),
        self_keyed(apply_ops(Map::empty(), ops)),
    decreases ops.len(),
{
    if ops.len() > 0 {
        lemma_changes_keep_consistent(ops.drop_last());
        let m = apply_ops(Map::empty(), ops.drop_last());
        match ops.last() {
            CatalogOp::Add(e) => lemma_add_keeps_consistent(m, e),
            CatalogOp::Delete(p) => {
                if entry_under(m, file_key(p)) is Some {
                    lemma_delete_keeps_consistent(m, p);
                }
            },
        }
    }
}

/// In a consistent store, each id of the entry under a path reads back as
/// that entry (what `get_by_index` returns).
pub proof fn lemma_lookup_in_consistent(m: Map<Seq<u8>, Seq<u8>>, p: Seq<char>, i: int)
    requires
        consistent(m),
        entry_under(m, file_key(p)) is Some,
        0 <= i < ids_of(entry_under(m, file_key(p))).len(),
    ensures
        entry_under(m, index_key(ids_of(entry_under(m, file_key(p)))[i])) == entry_under(
            m,
            file_key(p),
        ),
{
}

proof fn lemma_decimal_len(n: nat)
    ensures
        decimal(n).len() >= 1,
    decreases n,
{
    if n >= 10 {
        lemma_decimal_len(n / 10);
    }
}

proof fn lemma_decimal_injective(a: nat, b: nat)
    requires
        decimal(a) == decimal(b),
    ensures
        a == b,
    decreases a,
{
    if a < 10 && b < 10 {
        let x = (48 + a) as u8;
        let y = (48 + b) as u8;
        assert(decimal(a) == seq![x]);
        assert(decimal(b) == seq![y]);
        assert(seq![x][0] == x);
        assert(seq![y][0] == y);
        assert(x == y);
        assert(x as int == 48 + a);
        assert(y as int == 48 + b);
        assert(a == b);
    } else if a < 10 {
        lemma_decimal_len(b / 10);
        assert(decimal(a) == seq![(48 + a) as u8]);
        assert(decimal(b) == decimal(b / 10).push((48 + b % 10) as u8));
        assert(decimal(b).len() >= 2);
        assert(false);
    } else if b < 10 {
        lemma_decimal_len(a / 10);
        assert(decimal(b) == seq![(48 + b) as u8]);
        assert(decimal(a) == decimal(a / 10).push((48 + a % 10) as u8));
        assert(decimal(a).len() >= 2);
        assert(false);
    } else {
        assert(decimal(a).drop_last() =~= decimal(a / 10));
        assert(decimal(b).drop_last() =~= decimal(b / 10));
        assert(decimal(a) == decimal(a / 10).push((48 + a % 10) as u8));
        assert(decimal(b) == decimal(b / 10).push((48 + b % 10) as u8));
        assert(decimal(a).last() == (48 + a % 10) as u8);
        assert(decimal(b).last() == (48 + b % 10) as u8);
        assert(decimal(a).last() == decimal(b).last());
        lemma_decimal_injective(a / 10, b / 10);
        assert(((48 + a % 10) as u8) as int == 48 + a % 10);
        assert(((48 + b % 10) as u8) as int == 48 + b % 10);
        assert(a % 10 == b % 10);
        assert(a == b) by (nonlinear_arith)
            requires
                a / 10 == b / 10,
                a % 10 == b % 10,
        ;
    }
}

proof fn lemma_index_key_injective(a: u64, b: u64)
    requires
        index_key(a) == index_key(b),
    ensures
        a == b,
{
    let n = byindex_prefix().len() as int;
    assert(index_key(a).subrange(n, index_key(a).len() as int) =~= decimal(a as nat));
    assert(index_key(b).subrange(n, index_key(b).len() as int) =~= decimal(b as nat));
    lemma_decimal_injective(a as nat, b as nat);
}

proof fn lemma_drop_shrinks(m: Map<Seq<u8>, Seq<u8>>, ids: Seq<u64>, k: Seq<u8>)
    ensures
        drop_index_keys(m, ids).contains_key(k) ==> m.contains_key(k),
    decreases ids.len(),
{
    if ids.len() > 0 {
        lemma_drop_shrinks(m, ids.drop_last(), k);
    }
}

/// The ids an operation adds.
pub open spec fn added_ids(op: CatalogOp) -> Seq<u64> {
    match op {
        CatalogOp::Add(e) => e.1,
        CatalogOp::Delete(_) => Seq::empty(),
    }
}

/// Once an id has no key in the store, it gets none back until an entry with
/// that id is added: `get_by_index` on it finds nothing.
pub proof fn lemma_absent_id_stays_absent(m: Map<Seq<u8>, Seq<u8>>, ops: Seq<CatalogOp>, id: u64)
    requires
        !m.contains_key(index_key(id)),
        forall|j: int, k: int|
            0 <= j < ops.len() && 0 <= k < added_ids(ops[j]).len() ==> #[trigger] added_ids(ops[j])[k]
                != id,
    ensures
        !apply_ops(m, ops).contains_key(index_key(id)),
    decreases ops.len(),
{
    if ops.len() > 0 {
        let init = ops.drop_last();
        assert forall|j: int, k: int|
            0 <= j < init.len() && 0 <= k < added_ids(init[j]).len() implies #[trigger] added_ids(
            init[j],
        )[k] != id by {
            assert(init[j] == ops[j]);
        }
        lemma_absent_id_stays_absent(m, init, id);
        let m1 = apply_ops(m, init);
        let key = index_key(id);
        match ops.last() {
            CatalogOp::Add(e) => {
                assert forall|j: int| 0 <= j < e.1.len() implies key != #[trigger] index_key(e.1[j]) by {
                    assert(added_ids(ops[ops.len() - 1])[j] != id);
                    if key == index_key(e.1[j]) {
                        lemma_index_key_injective(id, e.1[j]);
                    }
                }
                lemma_key_spaces(e.0, id);
                lemma_put_untouched(m1.insert(file_key(e.0), entry_bytes(e)), e.1, entry_bytes(e), key);
            },
            CatalogOp::Delete(p) => {
                if entry_under(m1, file_key(p)) is Some {
                    let e = entry_under(m1, file_key(p))->0;
                    lemma_drop_shrinks(m1.remove(file_key(p)), e.1, key);
                }
            },
        }
    }
}

/// Once an entry is added and then deleted by its path, none of its ids is
/// found again until an entry with that id is added.
pub proof fn lemma_deleted_ids_stay_gone(
    m: Map<Seq<u8>, Seq<u8>>,
    e: (Seq<char>, Seq<u64>),
    ops: Seq<CatalogOp>,
    i: int,
)
    requires
        e.1.len() <= u64::MAX,
        0 <= i < e.1.len(),
        forall|j: int, k: int|
            0 <= j < ops.len() && 0 <= k < added_ids(ops[j]).len() ==> #[trigger] added_ids(ops[j])[k]
                != e.1[i],
    ensures
        !apply_ops(without_entry(with_entry(m, e), e.0, e), ops).contains_key(index_key(e.1[i])),
{
    lemma_add_then_delete(m, e);
    lemma_absent_id_stays_absent(without_entry(with_entry(m, e), e.0, e), ops, e.1[i]);
}

/// One indexed file: its path and the ids of its chunks' vectors.
#[derive(Debug)]
pub struct Entry {
    pub filename: String,
    indexes: Vec<u64>,
}

impl View for Entry {
    type V = (Seq<char>, Seq<u64>);

    closed spec fn view(&self) -> (Seq<char>, Seq<u64>) {
        (self.filename@, self.indexes@)
    }
}

impl Entry {
    pub fn new(filename: String, indexes: Vec<u64>) -> (r: Entry)
        ensures
            r@ == (filename@, indexes@),
    {
        Entry { filename, indexes }
    }

    /// The path of the file.
    pub fn filename(&self) -> (r: &String)
        ensures
            r@ == self@.0,
    {
        &self.filename
    }

    /// The ids of the file's chunks, in the order they were added.
    pub fn indexes(&self) -> (r: &Vec<u64>)
        ensures
            r@ == self@.1,
    {
        &self.indexes
    }
}

/// The key of a path's entry.
fn file_key_of(path: &str) -> (r: Vec<u8>)
    ensures
        r@ == file_key(path@),
{
    let mut key: Vec<u8> = vec![47u8, 98u8, 121u8, 102u8, 105u8, 108u8, 101u8, 47u8];
    let n = path.unicode_len();
    let tail: &str = if n > 0 && path.get_char(0) == '/' {
        path.substring_char(1, n)
    } else {
        path
    };
    assert(tail@ == normalized(path@));
    let mut b = slice_to_vec(tail.as_bytes());
    key.append(&mut b);
    key
}

/// The key of an id's entry.
fn index_key_of(id: u64) -> (r: Vec<u8>)
    ensures
        r@ == index_key(id),
{
    let mut key: Vec<u8> = vec![47u8, 98u8, 121u8, 105u8, 110u8, 100u8, 101u8, 120u8, 47u8];
    let mut b = decimal_bytes(id);
    key.append(&mut b);
    key
}

/// The decimal digits of a number, in ASCII.
fn decimal_bytes(n: u64) -> (r: Vec<u8>)
    ensures
        r@ == decimal(n as nat),
    decreases n,
{
    if n < 10 {
        vec![(48 + n) as u8]
    } else {
        let mut v = decimal_bytes(n / 10);
        v.push((48 + n % 10) as u8);
        v
    }
}

/// The durable path/id catalog over one sled store.
pub struct Catalog {
    db: sled::Db,
}

impl Catalog {
    /// What the store holds, key by key.
    pub closed spec fn contents(&self) -> Map<Seq<u8>, Seq<u8>> {
        store_contents(self.db)
    }

    /// The least id that `gen_id` may still return.
    pub closed spec fn id_floor(&self) -> nat {
        store_id_floor(self.db)
    }

    /// A catalog over an opened store. The contract of each operation speaks
    /// of what this handle sees: hold one handle per store (a `sled::Db` is
    /// `Clone`), and share the catalog itself where threads need it.
    pub fn new(db: sled::Db) -> (r: Catalog)
        ensures
            r.contents() == store_contents(db),
            r.id_floor() == store_id_floor(db),
    {
        Catalog { db }
    }

    /// Stores an entry under its path and under each of its ids, replacing
    /// whatever those keys held.
    pub fn add(&mut self, entry: Entry) -> (r: Result<(), CatalogError>)
        ensures
            r is Ok ==> final(self).contents() == with_entry(old(self).contents(), entry@),
            final(self).id_floor() == old(self).id_floor() || r is Err,
            r matches Err(e) ==> e == CatalogError::Store,
    {
        let value = encode_entry(entry.filename.as_str(), &entry.indexes);
        let key = file_key_of(entry.filename.as_str());
        match store_insert(&mut self.db, &key, &value) {
            Ok(()) => {},
            Err(e) => return Err(e),
        }
        let ghost start = old(self).contents().insert(key@, value@);
        let mut i: usize = 0;
        while i < entry.indexes.len()
            invariant
                0 <= i <= entry.indexes@.len(),
                value@ == entry_bytes(entry@),
                key@ == file_key(entry@.0),
                start == old(self).contents().insert(key@, value@),
                self.contents() == put_index_keys(start, entry.indexes@.subrange(0, i as int), value@),
                self.id_floor() == old(self).id_floor(),
            decreases entry.indexes@.len() - i,
        {
            let k = index_key_of(entry.indexes[i]);
            match store_insert(&mut self.db, &k, &value) {
                Ok(()) => {},
                Err(e) => return Err(e),
            }
            proof {
                assert(entry.indexes@.subrange(0, i + 1).drop_last() =~= entry.indexes@.subrange(0, i as int));
            }
            i += 1;
        }
        assert(entry.indexes@.subrange(0, entry.indexes@.len() as int) =~= entry.indexes@);
        Ok(())
    }

    /// Reads the entry stored under a key.
    fn read_entry(&self, key: &Vec<u8>) -> (r: Result<Entry, CatalogError>)
        ensures
            r matches Ok(e) ==> entry_under(self.contents(), key@) == Some(e@),
            r matches Err(CatalogError::NotFound) ==> !self.contents().contains_key(key@),
            r matches Err(CatalogError::Corrupt) ==> self.contents().contains_key(key@)
                && parse_entry(self.contents()[key@]) is None,
    {
        match store_get(&self.db, key) {
            Ok(Some(v)) => match decode_entry(&v) {
                Some((filename, indexes)) => Ok(Entry { filename, indexes }),
                None => Err(CatalogError::Corrupt),
            },
            Ok(None) => Err(CatalogError::NotFound),
            Err(e) => Err(e),
        }
    }

    /// The entry stored under a path (a leading `/` is ignored).
    pub fn get_by_file(&self, filename: String) -> (r: Result<Entry, CatalogError>)
        ensures
            r matches Ok(e) ==> entry_under(self.contents(), file_key(filename@)) == Some(e@),
            r matches Err(CatalogError::NotFound) ==> !self.contents().contains_key(
                file_key(filename@),
            ),
            r matches Err(CatalogError::Corrupt) ==> self.contents().contains_key(file_key(filename@))
                && parse_entry(self.contents()[file_key(filename@)]) is None,
    {
        let key = file_key_of(filename.as_str());
        self.read_entry(&key)
    }

    /// The entry stored under a vector id.
    pub fn get_by_index(&self, index: u64) -> (r: Result<Entry, CatalogError>)
        ensures
            r matches Ok(e) ==> entry_under(self.contents(), index_key(index)) == Some(e@),
            r matches Err(CatalogError::NotFound) ==> !self.contents().contains_key(index_key(index)),
            r matches Err(CatalogError::Corrupt) ==> self.contents().contains_key(index_key(index))
                && parse_entry(self.contents()[index_key(index)]) is None,
    {
        let key = index_key_of(index);
        self.read_entry(&key)
    }

    /// Removes the entry of a path: its path key and the key of each of its ids.
    pub fn delete(&mut self, filename: String) -> (r: Result<(), CatalogError>)
        ensures
            r is Ok ==> entry_under(old(self).contents(), file_key(filename@)) is Some
                && final(self).contents() == without_entry(
                old(self).contents(),
                filename@,
                entry_under(old(self).contents(), file_key(filename@))->0,
            ),
            r matches Err(CatalogError::NotFound) ==> !old(self).contents().contains_key(
                file_key(filename@),
            ) && final(self).contents() == old(self).contents(),
            r matches Err(CatalogError::Corrupt) ==> old(self).contents().contains_key(
                file_key(filename@),
            ) && parse_entry(old(self).contents()[file_key(filename@)]) is None
                && final(self).contents() == old(self).contents(),
            final(self).id_floor() == old(self).id_floor() || r matches Err(CatalogError::Store),
    {
        let key = file_key_of(filename.as_str());
        let entry = match self.read_entry(&key) {
            Ok(e) => e,
            Err(e) => return Err(e),
        };
        match store_remove(&mut self.db, &key) {
            Ok(()) => {},
            Err(e) => return Err(e),
        }
        let ghost start = old(self).contents().remove(key@);
        let mut i: usize = 0;
        while i < entry.indexes.len()
            invariant
                0 <= i <= entry.indexes@.len(),
                key@ == file_key(filename@),
                entry_under(old(self).contents(), key@) == Some(entry@),
                start == old(self).contents().remove(key@),
                self.contents() == drop_index_keys(start, entry.indexes@.subrange(0, i as int)),
                self.id_floor() == old(self).id_floor(),
            decreases entry.indexes@.len() - i,
        {
            let k = index_key_of(entry.indexes[i]);
            match store_remove(&mut self.db, &k) {
                Ok(()) => {},
                Err(e) => return Err(e),
            }
            proof {
                assert(entry.indexes@.subrange(0, i + 1).drop_last() =~= entry.indexes@.subrange(0, i as int));
            }
            i += 1;
        }
        assert(entry.indexes@.subrange(0, entry.indexes@.len() as int) =~= entry.indexes@);
        Ok(())
    }

    /// Whether an entry is stored under a path (a leading `/` is ignored).
    pub fn is_file_in_catalog(&self, filename: String) -> (r: Result<bool, CatalogError>)
        ensures
            r matches Ok(b) ==> b == self.contents().contains_key(file_key(filename@)),
            r matches Err(e) ==> e == CatalogError::Store,
    {
        let key = file_key_of(filename.as_str());
        store_contains(&self.db, &key)
    }

    /// A fresh id: at least the floor before the call and below the floor after it.
    pub fn gen_id(&mut self) -> (r: Result<u64, CatalogError>)
        ensures
            r matches Ok(id) ==> old(self).id_floor() <= id < final(self).id_floor(),
            r is Ok ==> final(self).contents() == old(self).contents(),
            r matches Err(e) ==> e == CatalogError::Store,
    {
        store_generate_id(&mut self.db)
    }

    /// `n` fresh ids, in increasing order, all between the floor before the
    /// call and the floor after it.
    pub fn gen_ids(&mut self, n: usize) -> (r: Result<Vec<u64>, CatalogError>)
        ensures
            r matches Ok(ids) ==> ids@.len() == n && fresh_ids(
                ids@,
                old(self).id_floor(),
                final(self).id_floor(),
            ),
            r is Ok ==> final(self).contents() == old(self).contents(),
            n == 0 ==> (r matches Ok(ids) && ids@.len() == 0) && final(self).id_floor() == old(
                self,
            ).id_floor() && final(self).contents() == old(self).contents(),
            r matches Err(e) ==> e == CatalogError::Store,
    {
        let mut ids: Vec<u64> = Vec::new();
        let mut i: usize = 0;
        while i < n
            invariant
                0 <= i <= n,
                ids@.len() == i,
                fresh_ids(ids@, old(self).id_floor(), self.id_floor()),
                old(self).id_floor() <= self.id_floor(),
                i == 0 ==> self.id_floor() == old(self).id_floor(),
                self.contents() == old(self).contents(),
            decreases n - i,
        {
            let ghost floor = self.id_floor();
            let id = match self.gen_id() {
                Ok(id) => id,
                Err(e) => return Err(e),
            };
            let ghost prev = ids@;
            ids.push(id);
            proof {
                assert forall|a: int, b: int| 0 <= a < b < ids@.len() implies ids@[a] < ids@[b] by {
                    if b < prev.len() {
                        assert(prev[a] < prev[b]);
                    } else {
                        assert(prev[a] < floor);
                    }
                }
                assert forall|a: int| 0 <= a < ids@.len() implies old(self).id_floor() <= #[trigger] ids@[a]
                    < self.id_floor() by {
                    if a < prev.len() {
                        assert(prev[a] < floor);
                    }
                }
            }
            i += 1;
        }
        Ok(ids)
    }
}

/// Ids drawn one after another are pairwise distinct: each draw returns an id
/// at or above the floor it found and leaves the floor above that id (as
/// `gen_id` ensures), and `floors[i]` is the floor the `i`-th draw found.
pub proof fn lemma_drawn_ids_are_distinct(ids: Seq<u64>, floors: Seq<nat>)
    requires
        floors.len() == ids.len() + 1,
        forall|i: int| 0 <= i < ids.len() ==> floors[i] <= #[trigger] ids[i] < floors[i + 1],
    ensures
        forall|i: int, j: int| 0 <= i < j < ids.len() ==> ids[i] < ids[j],
{
    assert forall|i: int, j: int| 0 <= i < j < ids.len() implies ids[i] < ids[j] by {
        lemma_floor_above(ids, floors, i, j);
    }
}

proof fn lemma_floor_above(ids: Seq<u64>, floors: Seq<nat>, i: int, j: int)
    requires
        floors.len() == ids.len() + 1,
        forall|k: int| 0 <= k < ids.len() ==> floors[k] <= #[trigger] ids[k] < floors[k + 1],
        0 <= i < j < ids.len(),
    ensures
        ids[i] < floors[j],
    decreases j - i,
{
    if j > i + 1 {
        lemma_floor_above(ids, floors, i, j - 1);
        assert(floors[j - 1] <= ids[j - 1]);
    }
}

/// `ids` increase strictly and lie in `[lo, hi)`.
pub open spec fn fresh_ids(ids: Seq<u64>, lo: nat, hi: nat) -> bool {
    &&& forall|i: int, j: int| 0 <= i < j < ids.len() ==> ids[i] < ids[j]
    &&& forall|i: int| 0 <= i < ids.len() ==> lo <= #[trigger] ids[i] < hi
}

} // verus!
