use vstd::prelude::*;

verus! {

/// The ways an operation of the store can fail.
#[derive(Clone, Copy, Debug, PartialEq, Eq, Structural)]
pub enum StoreError {
    /// A vector whose length differs from the store's dimension.
    DimensionMismatch,
    /// The embedding provider could not be reached.
    ProviderError,
    /// The provider's answer does not have the expected shape.
    DeserializationError,
    /// A neighbour handle that no stored label carries.
    UnknownHandle,
}

} // verus!
