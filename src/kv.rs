//! The key-value engine underneath the store: one column of an in-memory
//! `kvdb` database, written through transactions.
use vstd::prelude::*;
use kvdb::{DBTransaction, KeyValueDB};
use kvdb_memorydb::InMemory;
use crate::keys::has_prefix;

verus! {

#[verifier::external_type_specification]
#[verifier::external_body]
pub struct ExInMemory(InMemory);

#[verifier::external_type_specification]
#[verifier::external_body]
pub struct ExDBTransaction(DBTransaction);

/// The entries of column 0 of a database.
pub uninterp spec fn kv_contents(db: InMemory) -> Map<Seq<u8>, Seq<u8>>;

/// Column 0 of the database exists.
pub uninterp spec fn kv_has_column(db: InMemory) -> bool;

/// The operations staged in a transaction, in order: a key with `Some(value)`
/// to insert, or with `None` to delete.
pub uninterp spec fn tx_ops(t: DBTransaction) -> Seq<(Seq<u8>, Option<Seq<u8>>)>;

/// The entries after applying `ops` in order to `m`.
pub open spec fn apply_ops(m: Map<Seq<u8>, Seq<u8>>, ops: Seq<(Seq<u8>, Option<Seq<u8>>)>) -> Map<Seq<u8>, Seq<u8>>
    decreases ops.len(),
{
    if ops.len() == 0 {
        m
    } else {
        let prev = apply_ops(m, ops.drop_last());
        match ops.last().1 {
            Some(v) => prev.insert(ops.last().0, v),
            None => prev.remove(ops.last().0),
        }
    }
}

/// Relies on `kvdb_memorydb::create`: a database whose one column is empty.
#[verifier::external_body]
pub(crate) fn kv_create() -> (r: InMemory)
    ensures
        kv_contents(r).dom() == Set::<Seq<u8>>::empty(),
        kv_has_column(r),
{
    kvdb_memorydb::create(1)
}

/// Relies on `KeyValueDB::get` of `InMemory`: a copy of the value under the
/// key, which fails only for a missing column.
#[verifier::external_body]
pub(crate) fn kv_get(db: &InMemory, key: &Vec<u8>) -> (r: Option<Vec<u8>>)
    requires
        kv_has_column(*db),
    ensures
        r is Some <==> kv_contents(*db).contains_key(key@),
        r is Some ==> r->0@ == kv_contents(*db)[key@],
{
    db.get(0, key).ok().flatten()
}

/// Relies on `KeyValueDB::iter_with_prefix` of `InMemory`: the entries of the
/// column whose keys start with the prefix.
#[verifier::external_body]
pub(crate) fn kv_keys_with_prefix(db: &InMemory, prefix: &Vec<u8>) -> (r: Vec<Vec<u8>>)
    requires
        kv_has_column(*db),
    ensures
        forall|i: int|
            0 <= i < r@.len() ==> has_prefix(#[trigger] r@[i]@, prefix@) && kv_contents(*db).contains_key(
                r@[i]@,
            ),
        forall|k: Seq<u8>|
            #[trigger] kv_contents(*db).contains_key(k) && has_prefix(k, prefix@) ==> exists|i: int|
                0 <= i < r@.len() && r@[i]@ == k,
{
    db.iter_with_prefix(0, prefix).flatten().map(|(k, _)| k.to_vec()).collect()
}

/// Relies on `DBTransaction::new`: no operation staged.
#[verifier::external_body]
pub(crate) fn tx_new() -> (r: DBTransaction)
    ensures
        tx_ops(r).len() == 0,
{
    DBTransaction::new()
}

/// Relies on `DBTransaction::put`: stages an insert into column 0.
#[verifier::external_body]
pub(crate) fn tx_put(t: &mut DBTransaction, key: &Vec<u8>, value: &Vec<u8>)
    ensures
        tx_ops(*final(t)) == tx_ops(*old(t)).push((key@, Some(value@))),
{
    t.put(0, key, value)
}

/// Relies on `DBTransaction::delete`: stages a delete from column 0.
#[verifier::external_body]
pub(crate) fn tx_delete(t: &mut DBTransaction, key: &Vec<u8>)
    ensures
        tx_ops(*final(t)) == tx_ops(*old(t)).push((key@, None::<Seq<u8>>)),
{
    t.delete(0, key)
}

/// Relies on `KeyValueDB::write` of `InMemory`: applies the staged operations
/// in order, under one lock, and always succeeds.
#[verifier::external_body]
pub(crate) fn kv_write(db: &mut InMemory, t: DBTransaction)
    requires
        kv_has_column(*old(db)),
    ensures
        kv_contents(*final(db)) == apply_ops(kv_contents(*old(db)), tx_ops(t)),
        kv_has_column(*final(db)),
{
    let _ = db.write(t);
}

} // verus!
