use vstd::prelude::*;

verus! {

/// The failure outcomes of the registry's two operations. Every failing
/// operation reports exactly one of these and leaves the registry untouched.
#[derive(Clone, Copy, Debug, PartialEq, Eq, Structural)]
pub enum NarrativeError {
    /// A record already exists at the address derived from the
    /// (author, metadata reference) pair.
    AddressCollision,
    /// The targeted address holds no record.
    RecordNotFound,
    /// The caller's balance cannot cover the required value: the storage
    /// allocation on registration, or the staked amount on validation.
    InsufficientFunds,
    /// The metadata reference does not fit the record's fixed capacity.
    OversizedMetadata,
    /// Adding the stake would exceed the range of the 64-bit accumulator.
    ArithmeticOverflow,
    /// The caller has not proven the identity it acts for.
    Unauthorized,
}

} // verus!
