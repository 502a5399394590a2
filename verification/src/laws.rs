//! The round-trip laws of the codec contract, stated for every
//! supported numeric kind at once.

use vstd::prelude::*;
use crate::codec::be_bytes;
use crate::codec::be_val;
use crate::codec::le_bytes;
use crate::codec::le_val;
use crate::codec::lemma_be_round_trip;
use crate::codec::lemma_le_round_trip;
use crate::read::Sealed;

verus! {

/// Round-trip law, little-endian: any value of a supported kind that
/// decodes from the little-endian window of `v` is `v` itself.
pub proof fn lemma_codec_round_trip_le<T: Sealed>(v: T, w: T)
    requires
        w.as_unsigned() == le_val(le_bytes(v.as_unsigned(), T::width())),
    ensures
        w == v,
{
    v.lemma_as_unsigned();
    lemma_le_round_trip(v.as_unsigned(), T::width());
    w.lemma_injective(v);
}

/// Round-trip law, big-endian: any value of a supported kind that
/// decodes from the big-endian window of `v` is `v` itself.
pub proof fn lemma_codec_round_trip_be<T: Sealed>(v: T, w: T)
    requires
        w.as_unsigned() == be_val(be_bytes(v.as_unsigned(), T::width())),
    ensures
        w == v,
{
    v.lemma_as_unsigned();
    lemma_be_round_trip(v.as_unsigned(), T::width());
    w.lemma_injective(v);
}

} // verus!
