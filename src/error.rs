use vstd::prelude::*;

verus! {

/// Every failure of the library, returned as a value to the immediate caller.
#[derive(Debug, Clone, Copy, PartialEq, Eq, Structural)]
pub enum Error {
    /// The metadata envelope is malformed, of an unsupported version, or
    /// refers to a type id it does not define.
    BadMetadata,
    /// The path does not name a storage item; the payload is the index of
    /// the segment that failed (0 for the pallet, 1 for the item).
    ItemNotFound(usize),
    /// The number of key segments differs from the item's declared keys.
    KeyArityMismatch,
    /// The key segment at this index could not be encoded for its type.
    KeyEncodeError(usize),
    /// The input ended before the value did.
    TruncatedInput,
    /// An enum discriminant names no declared variant.
    UnknownVariant,
    /// A compact integer is wider than 128 bits.
    UnsupportedType,
    /// The value nests deeper than the decoder allows.
    DepthLimit,
    /// The backend could not deliver the value stored under a key.
    StorageKeyNotFound,
    /// The backend could not be reached or answered nonsense.
    TransportError,
    /// The node refused a submitted payload.
    NodeRejected,
    /// The payload to submit could not be read.
    BadInput,
}

} // verus!
