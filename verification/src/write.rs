//! Writing numeric values to a byte-stream sink: the sink abstraction,
//! the per-kind encoding contracts, and the extension that adds
//! `write_be` / `write_le` to every sink.

use vstd::prelude::*;
use crate::codec::be_bytes;
use crate::codec::i8_to_unsigned;
use crate::codec::i16_to_unsigned;
use crate::codec::i32_to_unsigned;
use crate::codec::i64_to_unsigned;
use crate::codec::i128_to_unsigned;
use crate::codec::le_bytes;
use crate::codec::lemma_be_bytes_is_reversed_le_bytes;
use crate::codec::reversed_exec;
use crate::codec::unsigned_to_le_exec;
use crate::read::IoError;
use crate::read::Sealed;

verus! {

/// A byte-stream sink: a caller-supplied sequential stream that accepts
/// pushed bytes.
pub trait Write {
    /// The bytes the sink has accepted so far, in order.
    spec fn written(&self) -> Seq<u8>;

    /// Whether this sink can never fail: an infallible sink (an
    /// in-memory buffer, say) accepts every pushed byte, and stays
    /// infallible.
    spec fn infallible(&self) -> bool;

    /// Pushes the whole of `buf` into the sink. A failure is the sink's
    /// own, and some prefix of `buf` may already be in the sink; nothing
    /// is rolled back.
    fn write_all(&mut self, buf: &Vec<u8>) -> (r: Result<(), IoError>)
        ensures
            final(self).infallible() == old(self).infallible(),
            old(self).infallible() ==> r is Ok,
            (match r {
                Ok(_) => final(self).written() == old(self).written() + buf@,
                Err(e) => e is Transport && exists|i: int|
                    0 <= i <= buf@.len() && final(self).written() == old(self).written()
                        + buf@.take(i),
            }),
    ;
}

impl Write for Vec<u8> {
    open spec fn written(&self) -> Seq<u8> {
        self@
    }

    open spec fn infallible(&self) -> bool {
        true
    }

    fn write_all(&mut self, buf: &Vec<u8>) -> (r: Result<(), IoError>) {
        let mut i: usize = 0;
        proof {
            assert(self@ =~= old(self)@ + buf@.take(0));
        }
        while i < buf.len()
            invariant
                i <= buf@.len(),
                self@ == old(self)@ + buf@.take(i as int),
            decreases buf@.len() - i,
        {
            let b: u8 = buf[i];
            proof {
                assert(old(self)@ + buf@.take(i as int + 1) =~= (old(self)@ + buf@.take(
                    i as int,
                )).push(buf@[i as int]));
            }
            self.push(b);
            i = i + 1;
        }
        proof {
            assert(buf@.take(buf@.len() as int) =~= buf@);
        }
        Ok(())
    }
}

/// Conversion of a value to bytes in little/big endian order, `N` being
/// the kind's fixed byte width.
pub trait ToBytes<const N: usize>: Sealed {
    /// The big-endian window for this value: exactly `N` bytes, the most
    /// significant first.
    fn to_be_bytes(self) -> (r: Vec<u8>)
        ensures
            r@ == be_bytes(self.as_unsigned(), N as nat),
    ;

    /// The little-endian window for this value: exactly `N` bytes, the
    /// least significant first.
    fn to_le_bytes(self) -> (r: Vec<u8>)
        ensures
            r@ == le_bytes(self.as_unsigned(), N as nat),
    ;
}

/// Provides extended methods to byte-stream sinks.
pub trait WriteExt<const N: usize>: Write + Sized {
    /// Write `T` to the destination in big endian order.
    fn write_be<T: ToBytes<N>>(&mut self, t: T) -> (r: Result<(), IoError>)
        ensures
            final(self).infallible() == old(self).infallible(),
            old(self).infallible() ==> r is Ok,
            (match r {
                Ok(_) => final(self).written() == old(self).written() + be_bytes(
                    t.as_unsigned(),
                    N as nat,
                ),
                Err(e) => e is Transport && exists|i: int|
                    0 <= i <= N && final(self).written() == old(self).written() + (#[trigger] be_bytes(
                        t.as_unsigned(),
                        N as nat,
                    ).take(i)),
            }),
    {
        let buf = t.to_be_bytes();
        proof {
            crate::codec::lemma_width_exact(t.as_unsigned(), N as nat);
        }
        self.write_all(&buf)
    }

    /// Write `T` to the destination in little endian order.
    fn write_le<T: ToBytes<N>>(&mut self, t: T) -> (r: Result<(), IoError>)
        ensures
            final(self).infallible() == old(self).infallible(),
            old(self).infallible() ==> r is Ok,
            (match r {
                Ok(_) => final(self).written() == old(self).written() + le_bytes(
                    t.as_unsigned(),
                    N as nat,
                ),
                Err(e) => e is Transport && exists|i: int|
                    0 <= i <= N && final(self).written() == old(self).written() + (#[trigger] le_bytes(
                        t.as_unsigned(),
                        N as nat,
                    ).take(i)),
            }),
    {
        let buf = t.to_le_bytes();
        proof {
            crate::codec::lemma_width_exact(t.as_unsigned(), N as nat);
        }
        self.write_all(&buf)
    }
}

impl<W: Write, const N: usize> WriteExt<N> for W {
}

impl ToBytes<1> for u8 {
    fn to_be_bytes(self) -> (r: Vec<u8>) {
        let u: u128 = self as u128;
        let le = unsigned_to_le_exec(u, 1);
        proof {
            lemma_be_bytes_is_reversed_le_bytes(self.as_unsigned(), 1);
        }
        reversed_exec(&le)
    }

    fn to_le_bytes(self) -> (r: Vec<u8>) {
        let u: u128 = self as u128;
        unsigned_to_le_exec(u, 1)
    }
}

impl ToBytes<1> for i8 {
    fn to_be_bytes(self) -> (r: Vec<u8>) {
        let u: u128 = i8_to_unsigned(self) as u128;
        let le = unsigned_to_le_exec(u, 1);
        proof {
            lemma_be_bytes_is_reversed_le_bytes(self.as_unsigned(), 1);
        }
        reversed_exec(&le)
    }

    fn to_le_bytes(self) -> (r: Vec<u8>) {
        let u: u128 = i8_to_unsigned(self) as u128;
        unsigned_to_le_exec(u, 1)
    }
}

impl ToBytes<2> for u16 {
    fn to_be_bytes(self) -> (r: Vec<u8>) {
        let u: u128 = self as u128;
        let le = unsigned_to_le_exec(u, 2);
        proof {
            lemma_be_bytes_is_reversed_le_bytes(self.as_unsigned(), 2);
        }
        reversed_exec(&le)
    }

    fn to_le_bytes(self) -> (r: Vec<u8>) {
        let u: u128 = self as u128;
        unsigned_to_le_exec(u, 2)
    }
}

impl ToBytes<2> for i16 {
    fn to_be_bytes(self) -> (r: Vec<u8>) {
        let u: u128 = i16_to_unsigned(self) as u128;
        let le = unsigned_to_le_exec(u, 2);
        proof {
            lemma_be_bytes_is_reversed_le_bytes(self.as_unsigned(), 2);
        }
        reversed_exec(&le)
    }

    fn to_le_bytes(self) -> (r: Vec<u8>) {
        let u: u128 = i16_to_unsigned(self) as u128;
        unsigned_to_le_exec(u, 2)
    }
}

impl ToBytes<4> for u32 {
    fn to_be_bytes(self) -> (r: Vec<u8>) {
        let u: u128 = self as u128;
        let le = unsigned_to_le_exec(u, 4);
        proof {
            lemma_be_bytes_is_reversed_le_bytes(self.as_unsigned(), 4);
        }
        reversed_exec(&le)
    }

    fn to_le_bytes(self) -> (r: Vec<u8>) {
        let u: u128 = self as u128;
        unsigned_to_le_exec(u, 4)
    }
}

impl ToBytes<4> for i32 {
    fn to_be_bytes(self) -> (r: Vec<u8>) {
        let u: u128 = i32_to_unsigned(self) as u128;
        let le = unsigned_to_le_exec(u, 4);
        proof {
            lemma_be_bytes_is_reversed_le_bytes(self.as_unsigned(), 4);
        }
        reversed_exec(&le)
    }

    fn to_le_bytes(self) -> (r: Vec<u8>) {
        let u: u128 = i32_to_unsigned(self) as u128;
        unsigned_to_le_exec(u, 4)
    }
}

impl ToBytes<8> for u64 {
    fn to_be_bytes(self) -> (r: Vec<u8>) {
        let u: u128 = self as u128;
        let le = unsigned_to_le_exec(u, 8);
        proof {
            lemma_be_bytes_is_reversed_le_bytes(self.as_unsigned(), 8);
        }
        reversed_exec(&le)
    }

    fn to_le_bytes(self) -> (r: Vec<u8>) {
        let u: u128 = self as u128;
        unsigned_to_le_exec(u, 8)
    }
}

impl ToBytes<8> for i64 {
    fn to_be_bytes(self) -> (r: Vec<u8>) {
        let u: u128 = i64_to_unsigned(self) as u128;
        let le = unsigned_to_le_exec(u, 8);
        proof {
            lemma_be_bytes_is_reversed_le_bytes(self.as_unsigned(), 8);
        }
        reversed_exec(&le)
    }

    fn to_le_bytes(self) -> (r: Vec<u8>) {
        let u: u128 = i64_to_unsigned(self) as u128;
        unsigned_to_le_exec(u, 8)
    }
}

impl ToBytes<16> for u128 {
    fn to_be_bytes(self) -> (r: Vec<u8>) {
        let u: u128 = self;
        let le = unsigned_to_le_exec(u, 16);
        proof {
            lemma_be_bytes_is_reversed_le_bytes(self.as_unsigned(), 16);
        }
        reversed_exec(&le)
    }

    fn to_le_bytes(self) -> (r: Vec<u8>) {
        let u: u128 = self;
        unsigned_to_le_exec(u, 16)
    }
}

impl ToBytes<16> for i128 {
    fn to_be_bytes(self) -> (r: Vec<u8>) {
        let u: u128 = i128_to_unsigned(self);
        let le = unsigned_to_le_exec(u, 16);
        proof {
            lemma_be_bytes_is_reversed_le_bytes(self.as_unsigned(), 16);
        }
        reversed_exec(&le)
    }

    fn to_le_bytes(self) -> (r: Vec<u8>) {
        let u: u128 = i128_to_unsigned(self);
        unsigned_to_le_exec(u, 16)
    }
}

} // verus!
