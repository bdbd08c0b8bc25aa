use vstd::prelude::*;

verus! {

/// What can go wrong while decoding a replica frame.
#[derive(Debug, Clone, Copy, PartialEq, Eq, Structural)]
pub enum ReplicaError {
    /// A read needed more bits than the frame holds.
    TruncatedStream,
    /// The object's type data names a component kind outside the known set.
    UnknownComponentKind(u32),
}

} // verus!
