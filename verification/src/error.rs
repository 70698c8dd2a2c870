use diskann::ANNError;
use vstd::prelude::*;

verus! {

/// The error type of the proximity-graph library, carried through unread.
#[verifier::external_type_specification]
#[verifier::external_body]
pub struct ExANNError(ANNError);

/// What can go wrong in the vector index.
#[derive(Debug)]
pub enum VectorIndexError {
    /// A build was asked for with no vectors.
    EmptyDataset,
    /// The operation needs a built index.
    IndexNotBuilt,
    /// A vertex id does not fit the 32 bits of a slot.
    VertexIdOverflow { vertex_id: u64 },
    /// A vertex id occurs twice in a build or an insert.
    DuplicateNodeId { node_id: u64 },
    /// A vertex id to delete is not in the index.
    NodeIdNotFound { node_id: u64 },
    /// The inner index returned a slot that no vertex id is mapped to.
    VectorIdNotFound { vector_id: u32 },
    /// A query and a stored vector differ in length.
    InvalidDimension { expected: usize, actual: usize },
    /// The inner index refused a build or an insert.
    BuildError(String),
    /// The inner index refused a search.
    SearchError(String),
    /// The operation is not offered.
    NotSupported(String),
    /// An error of the inner index, handed on as it came.
    DiskANN(ANNError),
}

/// Renders an error of the inner index with `ANNError`'s `Display`. The text
/// may hold a source location and a backtrace, so nothing is claimed of it.
#[verifier::external_body]
pub(crate) fn error_text(e: &ANNError) -> (text: String)
{
    e.to_string()
}

} // verus!
