//! What the processor holds fixed of the coin it sends: how an output is
//! named, how long a transaction waits, and how large it may be.
use vstd::prelude::*;

verus! {

/// The number of blocks after which a transaction counts as confirmed.
pub const CONFIRMATIONS: usize = 10;

/// The most inputs one transaction spends.
pub const MAX_INPUTS: usize = 128;

/// The most outputs one transaction creates.
pub const MAX_OUTPUTS: usize = 16;

/// The name of an output: the hash of its transaction and its position in
/// it, which fits a byte.
pub fn output_id(tx: [u8; 32], o: usize) -> (r: ([u8; 32], u8))
    requires
        o <= 255,
    ensures
        r.0 == tx,
        r.1 == o,
{
    (tx, o as u8)
}

/// Whether a transaction of so many inputs and outputs is within what one
/// transaction may hold.
pub fn fits_transaction(inputs: usize, outputs: usize) -> (r: bool)
    ensures
        r == (inputs <= MAX_INPUTS && outputs <= MAX_OUTPUTS),
{
    inputs <= MAX_INPUTS && outputs <= MAX_OUTPUTS
}

} // verus!
