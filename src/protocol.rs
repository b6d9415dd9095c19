//! Decisions of the write, read and rebuild protocol between the durable
//! vector store and the in-memory indices. The store itself is reached by the
//! caller; these functions say what to send to it and what its answers mean.
use crate::codec::{decode_vector, decoded, encode_vector, encoding, Vector};
use vstd::prelude::*;

verus! {

/// Errors of the service's operations.
#[derive(Debug, Clone, Copy, PartialEq, Eq, Structural)]
pub enum ServiceError {
    /// A vector's length differs from the configured dimension.
    DimensionMismatch,
    /// The durable store failed, or holds a row that is not a stored vector.
    StoreUnavailable,
    /// An index could not be built; the previous one stays in place.
    RebuildFailed,
}

/// What a write does to the durable store.
pub enum WriteAction {
    /// The id is new: insert the row. The namespace's index is not rebuilt,
    /// so the id is not searchable until its next rebuild.
    Insert { bytes: Vec<u8> },
    /// The id is stored already: overwrite the row, then rebuild the
    /// namespace's index from the store.
    Update { bytes: Vec<u8> },
}

impl WriteAction {
    /// Whether the namespace's index is rebuilt after the store is written.
    pub open spec fn spec_triggers_rebuild(&self) -> bool {
        self is Update
    }

    /// The row's bytes.
    pub open spec fn spec_bytes(&self) -> Seq<u8> {
        match self {
            WriteAction::Insert { bytes } => bytes@,
            WriteAction::Update { bytes } => bytes@,
        }
    }

    /// Whether the namespace's index is rebuilt after the store is written.
    pub fn triggers_rebuild(&self) -> (r: bool)
        ensures
            r == self.spec_triggers_rebuild(),
    {
        match self {
            WriteAction::Insert { .. } => false,
            WriteAction::Update { .. } => true,
        }
    }
}

/// Plans `Write(namespace, id, vector)`, given how many rows the store holds
/// for `(namespace, id)`. A vector of the wrong length is refused before the
/// store is touched; otherwise an existing row is updated (and the index
/// rebuilt) and a missing one inserted.
pub fn plan_write(dim: usize, vector: &Vector, stored_count: i64) -> (r: Result<
    WriteAction,
    ServiceError,
>)
    ensures
        r is Err <==> vector@.len() != dim,
        r matches Err(e) ==> e == ServiceError::DimensionMismatch,
        r matches Ok(a) ==> a.spec_bytes() == encoding(vector@) && (a is Update <==> stored_count
            > 0),
{
    if vector.vector.len() != dim {
        return Err(ServiceError::DimensionMismatch);
    }
    let bytes = encode_vector(vector);
    if stored_count > 0 {
        Ok(WriteAction::Update { bytes })
    } else {
        Ok(WriteAction::Insert { bytes })
    }
}

/// Answers `Read(namespace, id)` from the row the store returned, if any.
pub fn read_result(row: Option<&[u8]>) -> (r: Result<Option<Vector>, ServiceError>)
    ensures
        row is None ==> r == Ok::<Option<Vector>, ServiceError>(None),
        row matches Some(b) ==> match decoded(b@) {
            Some(s) => r matches Ok(Some(v)) && v@ == s,
            None => r == Err::<Option<Vector>, ServiceError>(ServiceError::StoreUnavailable),
        },
{
    match row {
        None => Ok(None),
        Some(b) => match decode_vector(b) {
            Some(v) => Ok(Some(v)),
            None => Err(ServiceError::StoreUnavailable),
        },
    }
}

/// Whether a stored row holds a vector of the configured dimension.
pub open spec fn row_is_valid(bytes: Seq<u8>, dim: usize) -> bool {
    decoded(bytes) matches Some(s) && s.len() == dim
}

/// Turns a namespace's listing from the store into the `(id, vector)` pairs an
/// index is built from. The rebuild fails, and nothing is built, if any row
/// does not hold a vector of the configured dimension.
pub fn decode_listing(rows: &Vec<(u64, Vec<u8>)>, dim: usize) -> (r: Result<
    Vec<(u64, Vector)>,
    ServiceError,
>)
    ensures
        r is Ok <==> forall|i: int| 0 <= i < rows@.len() ==> row_is_valid(#[trigger] rows@[i].1@, dim),
        r matches Err(e) ==> e == ServiceError::RebuildFailed,
        r matches Ok(pairs) ==> {
            &&& pairs@.len() == rows@.len()
            &&& forall|i: int|
                0 <= i < rows@.len() ==> #[trigger] pairs@[i].0 == rows@[i].0 && decoded(rows@[i].1@)
                    == Some(pairs@[i].1@)
        },
{
    let mut pairs: Vec<(u64, Vector)> = Vec::new();
    let mut i: usize = 0;
    while i < rows.len()
        invariant
            i <= rows@.len(),
            pairs@.len() == i,
            forall|j: int| 0 <= j < i ==> row_is_valid(#[trigger] rows@[j].1@, dim),
            forall|j: int|
                0 <= j < i ==> #[trigger] pairs@[j].0 == rows@[j].0 && decoded(rows@[j].1@) == Some(
                    pairs@[j].1@,
                ),
        decreases rows@.len() - i,
    {
        let (id, bytes) = &rows[i];
        match decode_vector(bytes.as_slice()) {
            Some(v) => {
                if v.vector.len() != dim {
                    return Err(ServiceError::RebuildFailed);
                }
                pairs.push((*id, v));
            },
            None => {
                return Err(ServiceError::RebuildFailed);
            },
        }
        i += 1;
    }
    Ok(pairs)
}

/// Answers `Query(namespace, vector, k)`: the ids of the neighbours that the
/// namespace's index returned nearest first, or nothing where the namespace
/// has no index. At most `k` ids; all of them where fewer were found.
pub fn query_result(neighbours: Option<&Vec<usize>>, k: usize) -> (r: Vec<u64>)
    ensures
        neighbours is None ==> r@.len() == 0,
        neighbours matches Some(n) ==> {
            &&& r@.len() == if n@.len() < k { n@.len() as int } else { k as int }
            &&& forall|i: int| 0 <= i < r@.len() ==> #[trigger] r@[i] == n@[i] as u64
        },
{
    let mut ids: Vec<u64> = Vec::new();
    match neighbours {
        None => ids,
        Some(n) => {
            let mut i: usize = 0;
            while i < n.len() && i < k
                invariant
                    i <= n@.len(),
                    i <= k,
                    ids@.len() == i,
                    forall|j: int| 0 <= j < i ==> #[trigger] ids@[j] == n@[j] as u64,
                decreases n@.len() - i,
            {
                ids.push(n[i] as u64);
                i += 1;
            }
            ids
        },
    }
}

} // verus!
