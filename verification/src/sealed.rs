//! The marker that closes the set of supported numeric kinds: the
//! module is private to the crate, so no outside code can name the
//! marker, and hence none can implement the codec traits that require
//! it.

use vstd::prelude::*;

verus! {

/// Implemented for exactly the supported numeric kinds, and nameable
/// only inside the crate.
pub trait Marker {

}

impl Marker for u8 {

}

impl Marker for i8 {

}

impl Marker for u16 {

}

impl Marker for i16 {

}

impl Marker for u32 {

}

impl Marker for i32 {

}

impl Marker for u64 {

}

impl Marker for i64 {

}

impl Marker for u128 {

}

impl Marker for i128 {

}

} // verus!
