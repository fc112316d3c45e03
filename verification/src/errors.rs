use vstd::prelude::*;

verus! {

/// Every failure a warehouse operation can report.
///
/// `EmptyHeap` is the heap-layer condition; the transaction layer
/// translates it to `InsufficientInventory` before it reaches a caller
/// of `transact`.
#[derive(Clone, Copy, Debug, PartialEq, Eq, Structural)]
pub enum WarehouseError {
    /// The transaction's kind and its cost field do not agree, or a
    /// produce asks for a quantity of zero or one beyond the machine
    /// limit, or its cost lies outside the exact decimal's domain.
    InvalidTransaction,
    /// A consume named a product that has no heap of lots.
    UnknownProduct,
    /// A consume found the product's heap with no units left.
    InsufficientInventory,
    /// A peek or an extraction was asked of a heap with no lots.
    EmptyHeap,
}

} // verus!
