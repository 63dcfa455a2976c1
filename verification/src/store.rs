//! The durable link store: a named partition of an embedded keyspace,
//! holding serialized reference lists by canonical identifier key.
//!
//! The partition lives in the `fjall` keyspace the caller opens. Verified
//! code sees its contents through `links_of`, and reaches the store only
//! through the wrappers here; each wrapper's contract states what the
//! fjall source shows of the one call it makes. Store failures are fatal
//! to the operation in progress and are never retried.

use vstd::prelude::*;

verus! {

#[verifier::external_type_specification]
#[verifier::external_body]
pub struct ExKeyspace(fjall::Keyspace);

#[verifier::external_type_specification]
#[verifier::external_body]
pub struct ExPartitionHandle(fjall::PartitionHandle);

#[verifier::external_type_specification]
#[verifier::external_body]
pub struct ExFjallError(fjall::Error);

/// What the links partition holds: its entries, as a map from byte key to
/// byte value.
pub uninterp spec fn links_of(p: fjall::PartitionHandle) -> Map<Seq<u8>, Seq<u8>>;

/// A failure of the underlying store, fatal to the operation in progress.
#[derive(Debug)]
pub struct StoreFailure {
    pub error: fjall::Error,
}

/// Relies on fjall's Keyspace::open_partition: it opens the named
/// partition, creating it when absent, and a store holds finitely many
/// entries.
#[verifier::external_body]
pub(crate) fn open_links_partition(
    ks: &fjall::Keyspace,
) -> (r: Result<fjall::PartitionHandle, StoreFailure>)
    ensures
        r is Ok ==> links_of(r.unwrap()).dom().finite(),
{
    match ks.open_partition("links", fjall::PartitionCreateOptions::default()) {
        Ok(h) => Ok(h),
        Err(e) => Err(StoreFailure { error: e }),
    }
}

/// Relies on fjall's Keyspace::delete_partition, which destroys the
/// partition and all data associated with it, and Keyspace::open_partition,
/// which then creates it anew: the fresh partition holds no entries.
#[verifier::external_body]
pub(crate) fn recreate_links_partition(
    ks: &fjall::Keyspace,
    h: fjall::PartitionHandle,
) -> (r: Result<fjall::PartitionHandle, StoreFailure>)
    ensures
        r is Ok ==> links_of(r.unwrap()) =~= Map::empty(),
{
    match ks.delete_partition(h) {
        Ok(()) => {},
        Err(e) => {
            return Err(StoreFailure { error: e });
        },
    }
    match ks.open_partition("links", fjall::PartitionCreateOptions::default()) {
        Ok(h2) => Ok(h2),
        Err(e) => Err(StoreFailure { error: e }),
    }
}

/// The longest key the store accepts, in bytes: a longer one trips an
/// assertion inside its write path rather than returning an error.
pub const MAX_KEY_BYTES: usize = 65535;

/// The largest value the store accepts, in bytes.
pub const MAX_VALUE_BYTES: u64 = 4294967295;

/// Relies on fjall's PartitionHandle::get: an exact lookup that returns the
/// value stored under the key, or nothing when the key is absent. The key
/// must stay within the store's documented length limit: internally a
/// lookup key is built through the same constructor as a written one,
/// which asserts the limit.
#[verifier::external_body]
pub(crate) fn partition_get(
    h: &fjall::PartitionHandle,
    key: &Vec<u8>,
) -> (r: Result<Option<Vec<u8>>, StoreFailure>)
    requires
        key@.len() <= MAX_KEY_BYTES,
    ensures
        r matches Ok(Some(v)) ==> links_of(*h).contains_key(key@) && links_of(*h)[key@] == v@,
        r matches Ok(None) ==> !links_of(*h).contains_key(key@),
{
    match h.get(key.as_slice()) {
        Ok(Some(slice)) => Ok(Some(slice.to_vec())),
        Ok(None) => Ok(None),
        Err(e) => Err(StoreFailure { error: e }),
    }
}

/// Relies on fjall's PartitionHandle::insert: on success the entry is
/// stored under the key, replacing any previous value. The store documents
/// its size limits — a non-empty key of at most [`MAX_KEY_BYTES`] bytes, a
/// value of at most [`MAX_VALUE_BYTES`] bytes — and asserts them in its
/// write path instead of returning an error.
#[verifier::external_body]
pub(crate) fn partition_insert(
    h: &mut fjall::PartitionHandle,
    key: Vec<u8>,
    value: Vec<u8>,
) -> (r: Result<(), StoreFailure>)
    requires
        0 < key@.len() <= MAX_KEY_BYTES,
        value@.len() <= MAX_VALUE_BYTES,
    ensures
        r is Ok ==> links_of(*final(h)) == links_of(*old(h)).insert(key@, value@),
{
    match h.insert(key, value) {
        Ok(()) => Ok(()),
        Err(e) => Err(StoreFailure { error: e }),
    }
}

/// Relies on fjall's PartitionHandle::len: it scans the partition and
/// returns the number of stored entries.
#[verifier::external_body]
pub(crate) fn partition_len(h: &fjall::PartitionHandle) -> (r: Result<usize, StoreFailure>)
    ensures
        r matches Ok(n) ==> n == links_of(*h).dom().len(),
{
    match h.len() {
        Ok(n) => Ok(n),
        Err(e) => Err(StoreFailure { error: e }),
    }
}

} // verus!
