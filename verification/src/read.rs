//! Reading numeric values from a byte-stream source: the source
//! abstraction, the per-kind decoding contracts, and the extension that
//! adds `read_be` / `read_le` to every source.

use vstd::prelude::*;
use crate::codec::be_val;
use crate::codec::i8_from_unsigned;
use crate::codec::i16_from_unsigned;
use crate::codec::i32_from_unsigned;
use crate::codec::i64_from_unsigned;
use crate::codec::i128_from_unsigned;
use crate::codec::le_val;
use crate::codec::lemma_le_val_bound;
use crate::codec::lemma_pow256_widths;
use crate::codec::pow256;
use crate::codec::reversed_exec;
use crate::codec::to_unsigned;
use crate::codec::unsigned_from_le_exec;

verus! {

/// The failures a read or write can surface: a stream that ended before
/// the whole window was transferred, or a failure the stream itself
/// reported.
#[derive(Clone, Copy, Debug, PartialEq, Eq)]
pub enum IoError {
    /// Fewer bytes were available than the width of the value asked for.
    Truncated,
    /// The underlying source or sink reported a failure of its own.
    Transport,
}

/// A byte-stream source: a caller-supplied sequential stream that hands
/// out some prefix of its remaining bytes on each pull.
pub trait Read {
    /// The bytes the source will deliver, in order, from its current
    /// position to its end.
    spec fn remaining(&self) -> Seq<u8>;

    /// Whether this source can never fail: an infallible source (an
    /// in-memory buffer, say) delivers bytes on every pull until its
    /// remaining bytes run out, and stays infallible.
    spec fn infallible(&self) -> bool;

    /// Pulls up to `limit` bytes from the front of the stream. An empty
    /// result reports end-of-input; a failure of the transport leaves the
    /// stream position unspecified.
    fn read(&mut self, limit: usize) -> (r: Result<Vec<u8>, IoError>)
        ensures
            final(self).infallible() == old(self).infallible(),
            old(self).infallible() ==> r is Ok,
            (match r {
                Ok(chunk) => chunk@.len() <= limit && chunk@.len() <= old(self).remaining().len()
                    && chunk@ == old(self).remaining().take(chunk@.len() as int)
                    && final(self).remaining() == old(self).remaining().skip(chunk@.len() as int) && (
                chunk@.len() == 0 ==> old(self).remaining().len() == 0 || limit == 0),
                Err(e) => e is Transport,
            }),
    ;
}

/// An in-memory byte-stream source: a byte buffer together with a read
/// position.
pub struct Cursor {
    data: Vec<u8>,
    pos: usize,
}

impl Cursor {
    /// The source that will deliver exactly the bytes of `data`.
    pub fn new(data: Vec<u8>) -> (c: Cursor)
        ensures
            c.remaining() == data@,
            c.infallible(),
    {
        let c = Cursor { data, pos: 0 };
        proof {
            assert(c.remaining() =~= c.data@);
        }
        c
    }
}

impl Read for Cursor {
    closed spec fn remaining(&self) -> Seq<u8> {
        if self.pos <= self.data@.len() {
            self.data@.skip(self.pos as int)
        } else {
            Seq::empty()
        }
    }

    open spec fn infallible(&self) -> bool {
        true
    }

    fn read(&mut self, limit: usize) -> (r: Result<Vec<u8>, IoError>) {
        let avail = if self.pos <= self.data.len() {
            self.data.len() - self.pos
        } else {
            0
        };
        let k = if limit < avail {
            limit
        } else {
            avail
        };
        let mut chunk: Vec<u8> = Vec::new();
        let mut j: usize = 0;
        while j < k
            invariant
                j <= k,
                self == old(self),
                k <= limit,
                self.pos + k <= self.data@.len() <= usize::MAX || k == 0,
                chunk@.len() == j as nat,
                forall|m: int| 0 <= m < j ==> chunk@[m] == self.data@[self.pos + m],
            decreases k - j,
        {
            let b: u8 = self.data[self.pos + j];
            chunk.push(b);
            j = j + 1;
        }
        proof {
            assert(chunk@ =~= old(self).remaining().take(k as int));
        }
        self.pos = self.pos + k;
        proof {
            assert(self.remaining() =~= old(self).remaining().skip(k as int));
        }
        Ok(chunk)
    }
}

/// Pulls exactly `n` bytes from the source, or reports why it could not:
/// `Truncated` when the stream ended short of `n` bytes, or the failure
/// the transport reported.
fn read_exact<R: Read>(src: &mut R, n: usize) -> (r: Result<Vec<u8>, IoError>)
    ensures
        final(src).infallible() == old(src).infallible(),
        old(src).infallible() && n as nat <= old(src).remaining().len() ==> r is Ok,
        old(src).infallible() && old(src).remaining().len() < n ==> (r == Err::<
            Vec<u8>,
            IoError,
        >(IoError::Truncated)),
        (match r {
            Ok(buf) => buf@.len() == n && n as nat <= old(src).remaining().len() && buf@ == old(
                src,
            ).remaining().take(n as int) && final(src).remaining() == old(src).remaining().skip(n as int),
            Err(e) => e is Truncated ==> old(src).remaining().len() < n,
        }),
        old(src).remaining().len() < n ==> r is Err,
{
    let mut out: Vec<u8> = Vec::new();
    proof {
        assert(out@ =~= old(src).remaining().take(0));
        assert(src.remaining() =~= old(src).remaining().skip(0));
    }
    while out.len() < n
        invariant
            out@.len() <= n,
            out@.len() <= old(src).remaining().len(),
            out@ == old(src).remaining().take(out@.len() as int),
            src.remaining() == old(src).remaining().skip(out@.len() as int),
            src.infallible() == old(src).infallible(),
        decreases n - out@.len(),
    {
        let want = n - out.len();
        let mut chunk = match src.read(want) {
            Ok(chunk) => chunk,
            Err(e) => {
                return Err(e);
            },
        };
        if chunk.len() == 0 {
            return Err(IoError::Truncated);
        }
        proof {
            let a = out@.len() as int;
            let b = chunk@.len() as int;
            let rem = old(src).remaining();
            assert(rem.take(a) + rem.skip(a).take(b) =~= rem.take(a + b));
            assert(rem.skip(a).skip(b) =~= rem.skip(a + b));
        }
        out.append(&mut chunk);
    }
    Ok(out)
}

/// The codec contract shared by every supported numeric kind: a fixed
/// byte width, and the unsigned value (the two's complement
/// representative) that the kind's byte windows encode.
pub trait Sealed: Sized + crate::sealed::Marker {
    /// The number of bytes in this kind's byte window.
    spec fn width() -> nat;

    /// The unsigned value below `pow256(width)` whose windows are this
    /// value's windows.
    spec fn as_unsigned(self) -> nat;

    /// The representative is in range for the width.
    proof fn lemma_as_unsigned(self)
        ensures
            self.as_unsigned() < pow256(Self::width()),
    ;

    /// Two values of the kind with one representative are one value.
    proof fn lemma_injective(self, other: Self)
        requires
            self.as_unsigned() == other.as_unsigned(),
        ensures
            self == other,
    ;
}

/// Conversion of bytes in little endian order to a new value.
pub trait FromLeBytes: Sealed {
    /// Pulls exactly `width` bytes from the source and reinterprets them
    /// as a little-endian window; the window consumed is exactly the
    /// encoding of the value returned.
    fn from_le_bytes<R: Read>(bytes: &mut R) -> (r: Result<Self, IoError>)
        ensures
            final(bytes).infallible() == old(bytes).infallible(),
            old(bytes).infallible() && Self::width() <= old(bytes).remaining().len() ==> r is Ok,
            old(bytes).infallible() && old(bytes).remaining().len() < Self::width() ==> (r == Err::<
                Self,
                IoError,
            >(IoError::Truncated)),
            (match r {
                Ok(v) => Self::width() <= old(bytes).remaining().len() && v.as_unsigned() == le_val(
                    old(bytes).remaining().take(Self::width() as int),
                ) && final(bytes).remaining() == old(bytes).remaining().skip(Self::width() as int),
                Err(e) => e is Truncated ==> old(bytes).remaining().len() < Self::width(),
            }),
            old(bytes).remaining().len() < Self::width() ==> r is Err,
    ;
}

/// Conversion of bytes in big endian order to a new value.
pub trait FromBeBytes: Sealed {
    /// Pulls exactly `width` bytes from the source and reinterprets them
    /// as a big-endian window; the window consumed is exactly the
    /// encoding of the value returned.
    fn from_be_bytes<R: Read>(bytes: &mut R) -> (r: Result<Self, IoError>)
        ensures
            final(bytes).infallible() == old(bytes).infallible(),
            old(bytes).infallible() && Self::width() <= old(bytes).remaining().len() ==> r is Ok,
            old(bytes).infallible() && old(bytes).remaining().len() < Self::width() ==> (r == Err::<
                Self,
                IoError,
            >(IoError::Truncated)),
            (match r {
                Ok(v) => Self::width() <= old(bytes).remaining().len() && v.as_unsigned() == be_val(
                    old(bytes).remaining().take(Self::width() as int),
                ) && final(bytes).remaining() == old(bytes).remaining().skip(Self::width() as int),
                Err(e) => e is Truncated ==> old(bytes).remaining().len() < Self::width(),
            }),
            old(bytes).remaining().len() < Self::width() ==> r is Err,
    ;
}

/// Provides extended methods to byte-stream sources.
pub trait ReadExt: Read + Sized {
    /// Read `T` from the source in little endian order.
    fn read_le<T: FromLeBytes>(&mut self) -> (r: Result<T, IoError>)
        ensures
            final(self).infallible() == old(self).infallible(),
            old(self).infallible() && T::width() <= old(self).remaining().len() ==> r is Ok,
            old(self).infallible() && old(self).remaining().len() < T::width() ==> (r == Err::<
                T,
                IoError,
            >(IoError::Truncated)),
            (match r {
                Ok(v) => T::width() <= old(self).remaining().len() && v.as_unsigned() == le_val(
                    old(self).remaining().take(T::width() as int),
                ) && final(self).remaining() == old(self).remaining().skip(T::width() as int),
                Err(e) => e is Truncated ==> old(self).remaining().len() < T::width(),
            }),
            old(self).remaining().len() < T::width() ==> r is Err,
    {
        T::from_le_bytes(self)
    }

    /// Read `T` from the source in big endian order.
    fn read_be<T: FromBeBytes>(&mut self) -> (r: Result<T, IoError>)
        ensures
            final(self).infallible() == old(self).infallible(),
            old(self).infallible() && T::width() <= old(self).remaining().len() ==> r is Ok,
            old(self).infallible() && old(self).remaining().len() < T::width() ==> (r == Err::<
                T,
                IoError,
            >(IoError::Truncated)),
            (match r {
                Ok(v) => T::width() <= old(self).remaining().len() && v.as_unsigned() == be_val(
                    old(self).remaining().take(T::width() as int),
                ) && final(self).remaining() == old(self).remaining().skip(T::width() as int),
                Err(e) => e is Truncated ==> old(self).remaining().len() < T::width(),
            }),
            old(self).remaining().len() < T::width() ==> r is Err,
    {
        T::from_be_bytes(self)
    }
}

impl<R: Read> ReadExt for R {
}

impl Sealed for u8 {
    open spec fn width() -> nat {
        1
    }

    open spec fn as_unsigned(self) -> nat {
        self as nat
    }

    proof fn lemma_as_unsigned(self) {
        lemma_pow256_widths();
    }

    proof fn lemma_injective(self, other: Self) {
    }
}

impl FromLeBytes for u8 {
    fn from_le_bytes<R: Read>(bytes: &mut R) -> (r: Result<Self, IoError>) {
        match read_exact(bytes, 1) {
            Ok(buf) => {
                let u = unsigned_from_le_exec(&buf);
                proof {
                    lemma_le_val_bound(buf@);
                    lemma_pow256_widths();
                }
                Ok(u as u8)
            },
            Err(e) => Err(e),
        }
    }
}

impl FromBeBytes for u8 {
    fn from_be_bytes<R: Read>(bytes: &mut R) -> (r: Result<Self, IoError>) {
        match read_exact(bytes, 1) {
            Ok(buf) => {
                let rev = reversed_exec(&buf);
                let u = unsigned_from_le_exec(&rev);
                proof {
                    assert(rev@.len() == 1);
                    lemma_le_val_bound(rev@);
                    lemma_pow256_widths();
                }
                Ok(u as u8)
            },
            Err(e) => Err(e),
        }
    }
}

impl Sealed for i8 {
    open spec fn width() -> nat {
        1
    }

    open spec fn as_unsigned(self) -> nat {
        to_unsigned(self as int, 1)
    }

    proof fn lemma_as_unsigned(self) {
        lemma_pow256_widths();
    }

    proof fn lemma_injective(self, other: Self) {
        lemma_pow256_widths();
        crate::codec::lemma_to_unsigned_injective(self as int, other as int, 1);
    }
}

impl FromLeBytes for i8 {
    fn from_le_bytes<R: Read>(bytes: &mut R) -> (r: Result<Self, IoError>) {
        match read_exact(bytes, 1) {
            Ok(buf) => {
                let u = unsigned_from_le_exec(&buf);
                proof {
                    lemma_le_val_bound(buf@);
                    lemma_pow256_widths();
                }
                Ok(i8_from_unsigned(u as u8))
            },
            Err(e) => Err(e),
        }
    }
}

impl FromBeBytes for i8 {
    fn from_be_bytes<R: Read>(bytes: &mut R) -> (r: Result<Self, IoError>) {
        match read_exact(bytes, 1) {
            Ok(buf) => {
                let rev = reversed_exec(&buf);
                let u = unsigned_from_le_exec(&rev);
                proof {
                    assert(rev@.len() == 1);
                    lemma_le_val_bound(rev@);
                    lemma_pow256_widths();
                }
                Ok(i8_from_unsigned(u as u8))
            },
            Err(e) => Err(e),
        }
    }
}

impl Sealed for u16 {
    open spec fn width() -> nat {
        2
    }

    open spec fn as_unsigned(self) -> nat {
        self as nat
    }

    proof fn lemma_as_unsigned(self) {
        lemma_pow256_widths();
    }

    proof fn lemma_injective(self, other: Self) {
    }
}

impl FromLeBytes for u16 {
    fn from_le_bytes<R: Read>(bytes: &mut R) -> (r: Result<Self, IoError>) {
        match read_exact(bytes, 2) {
            Ok(buf) => {
                let u = unsigned_from_le_exec(&buf);
                proof {
                    lemma_le_val_bound(buf@);
                    lemma_pow256_widths();
                }
                Ok(u as u16)
            },
            Err(e) => Err(e),
        }
    }
}

impl FromBeBytes for u16 {
    fn from_be_bytes<R: Read>(bytes: &mut R) -> (r: Result<Self, IoError>) {
        match read_exact(bytes, 2) {
            Ok(buf) => {
                let rev = reversed_exec(&buf);
                let u = unsigned_from_le_exec(&rev);
                proof {
                    assert(rev@.len() == 2);
                    lemma_le_val_bound(rev@);
                    lemma_pow256_widths();
                }
                Ok(u as u16)
            },
            Err(e) => Err(e),
        }
    }
}

impl Sealed for i16 {
    open spec fn width() -> nat {
        2
    }

    open spec fn as_unsigned(self) -> nat {
        to_unsigned(self as int, 2)
    }

    proof fn lemma_as_unsigned(self) {
        lemma_pow256_widths();
    }

    proof fn lemma_injective(self, other: Self) {
        lemma_pow256_widths();
        crate::codec::lemma_to_unsigned_injective(self as int, other as int, 2);
    }
}

impl FromLeBytes for i16 {
    fn from_le_bytes<R: Read>(bytes: &mut R) -> (r: Result<Self, IoError>) {
        match read_exact(bytes, 2) {
            Ok(buf) => {
                let u = unsigned_from_le_exec(&buf);
                proof {
                    lemma_le_val_bound(buf@);
                    lemma_pow256_widths();
                }
                Ok(i16_from_unsigned(u as u16))
            },
            Err(e) => Err(e),
        }
    }
}

impl FromBeBytes for i16 {
    fn from_be_bytes<R: Read>(bytes: &mut R) -> (r: Result<Self, IoError>) {
        match read_exact(bytes, 2) {
            Ok(buf) => {
                let rev = reversed_exec(&buf);
                let u = unsigned_from_le_exec(&rev);
                proof {
                    assert(rev@.len() == 2);
                    lemma_le_val_bound(rev@);
                    lemma_pow256_widths();
                }
                Ok(i16_from_unsigned(u as u16))
            },
            Err(e) => Err(e),
        }
    }
}

impl Sealed for u32 {
    open spec fn width() -> nat {
        4
    }

    open spec fn as_unsigned(self) -> nat {
        self as nat
    }

    proof fn lemma_as_unsigned(self) {
        lemma_pow256_widths();
    }

    proof fn lemma_injective(self, other: Self) {
    }
}

impl FromLeBytes for u32 {
    fn from_le_bytes<R: Read>(bytes: &mut R) -> (r: Result<Self, IoError>) {
        match read_exact(bytes, 4) {
            Ok(buf) => {
                let u = unsigned_from_le_exec(&buf);
                proof {
                    lemma_le_val_bound(buf@);
                    lemma_pow256_widths();
                }
                Ok(u as u32)
            },
            Err(e) => Err(e),
        }
    }
}

impl FromBeBytes for u32 {
    fn from_be_bytes<R: Read>(bytes: &mut R) -> (r: Result<Self, IoError>) {
        match read_exact(bytes, 4) {
            Ok(buf) => {
                let rev = reversed_exec(&buf);
                let u = unsigned_from_le_exec(&rev);
                proof {
                    assert(rev@.len() == 4);
                    lemma_le_val_bound(rev@);
                    lemma_pow256_widths();
                }
                Ok(u as u32)
            },
            Err(e) => Err(e),
        }
    }
}

impl Sealed for i32 {
    open spec fn width() -> nat {
        4
    }

    open spec fn as_unsigned(self) -> nat {
        to_unsigned(self as int, 4)
    }

    proof fn lemma_as_unsigned(self) {
        lemma_pow256_widths();
    }

    proof fn lemma_injective(self, other: Self) {
        lemma_pow256_widths();
        crate::codec::lemma_to_unsigned_injective(self as int, other as int, 4);
    }
}

impl FromLeBytes for i32 {
    fn from_le_bytes<R: Read>(bytes: &mut R) -> (r: Result<Self, IoError>) {
        match read_exact(bytes, 4) {
            Ok(buf) => {
                let u = unsigned_from_le_exec(&buf);
                proof {
                    lemma_le_val_bound(buf@);
                    lemma_pow256_widths();
                }
                Ok(i32_from_unsigned(u as u32))
            },
            Err(e) => Err(e),
        }
    }
}

impl FromBeBytes for i32 {
    fn from_be_bytes<R: Read>(bytes: &mut R) -> (r: Result<Self, IoError>) {
        match read_exact(bytes, 4) {
            Ok(buf) => {
                let rev = reversed_exec(&buf);
                let u = unsigned_from_le_exec(&rev);
                proof {
                    assert(rev@.len() == 4);
                    lemma_le_val_bound(rev@);
                    lemma_pow256_widths();
                }
                Ok(i32_from_unsigned(u as u32))
            },
            Err(e) => Err(e),
        }
    }
}

impl Sealed for u64 {
    open spec fn width() -> nat {
        8
    }

    open spec fn as_unsigned(self) -> nat {
        self as nat
    }

    proof fn lemma_as_unsigned(self) {
        lemma_pow256_widths();
    }

    proof fn lemma_injective(self, other: Self) {
    }
}

impl FromLeBytes for u64 {
    fn from_le_bytes<R: Read>(bytes: &mut R) -> (r: Result<Self, IoError>) {
        match read_exact(bytes, 8) {
            Ok(buf) => {
                let u = unsigned_from_le_exec(&buf);
                proof {
                    lemma_le_val_bound(buf@);
                    lemma_pow256_widths();
                }
                Ok(u as u64)
            },
            Err(e) => Err(e),
        }
    }
}

impl FromBeBytes for u64 {
    fn from_be_bytes<R: Read>(bytes: &mut R) -> (r: Result<Self, IoError>) {
        match read_exact(bytes, 8) {
            Ok(buf) => {
                let rev = reversed_exec(&buf);
                let u = unsigned_from_le_exec(&rev);
                proof {
                    assert(rev@.len() == 8);
                    lemma_le_val_bound(rev@);
                    lemma_pow256_widths();
                }
                Ok(u as u64)
            },
            Err(e) => Err(e),
        }
    }
}

impl Sealed for i64 {
    open spec fn width() -> nat {
        8
    }

    open spec fn as_unsigned(self) -> nat {
        to_unsigned(self as int, 8)
    }

    proof fn lemma_as_unsigned(self) {
        lemma_pow256_widths();
    }

    proof fn lemma_injective(self, other: Self) {
        lemma_pow256_widths();
        crate::codec::lemma_to_unsigned_injective(self as int, other as int, 8);
    }
}

impl FromLeBytes for i64 {
    fn from_le_bytes<R: Read>(bytes: &mut R) -> (r: Result<Self, IoError>) {
        match read_exact(bytes, 8) {
            Ok(buf) => {
                let u = unsigned_from_le_exec(&buf);
                proof {
                    lemma_le_val_bound(buf@);
                    lemma_pow256_widths();
                }
                Ok(i64_from_unsigned(u as u64))
            },
            Err(e) => Err(e),
        }
    }
}

impl FromBeBytes for i64 {
    fn from_be_bytes<R: Read>(bytes: &mut R) -> (r: Result<Self, IoError>) {
        match read_exact(bytes, 8) {
            Ok(buf) => {
                let rev = reversed_exec(&buf);
                let u = unsigned_from_le_exec(&rev);
                proof {
                    assert(rev@.len() == 8);
                    lemma_le_val_bound(rev@);
                    lemma_pow256_widths();
                }
                Ok(i64_from_unsigned(u as u64))
            },
            Err(e) => Err(e),
        }
    }
}

impl Sealed for u128 {
    open spec fn width() -> nat {
        16
    }

    open spec fn as_unsigned(self) -> nat {
        self as nat
    }

    proof fn lemma_as_unsigned(self) {
        lemma_pow256_widths();
    }

    proof fn lemma_injective(self, other: Self) {
    }
}

impl FromLeBytes for u128 {
    fn from_le_bytes<R: Read>(bytes: &mut R) -> (r: Result<Self, IoError>) {
        match read_exact(bytes, 16) {
            Ok(buf) => {
                let u = unsigned_from_le_exec(&buf);
                proof {
                    lemma_le_val_bound(buf@);
                    lemma_pow256_widths();
                }
                Ok(u)
            },
            Err(e) => Err(e),
        }
    }
}

impl FromBeBytes for u128 {
    fn from_be_bytes<R: Read>(bytes: &mut R) -> (r: Result<Self, IoError>) {
        match read_exact(bytes, 16) {
            Ok(buf) => {
                let rev = reversed_exec(&buf);
                let u = unsigned_from_le_exec(&rev);
                proof {
                    assert(rev@.len() == 16);
                    lemma_le_val_bound(rev@);
                    lemma_pow256_widths();
                }
                Ok(u)
            },
            Err(e) => Err(e),
        }
    }
}

impl Sealed for i128 {
    open spec fn width() -> nat {
        16
    }

    open spec fn as_unsigned(self) -> nat {
        to_unsigned(self as int, 16)
    }

    proof fn lemma_as_unsigned(self) {
        lemma_pow256_widths();
    }

    proof fn lemma_injective(self, other: Self) {
        lemma_pow256_widths();
        crate::codec::lemma_to_unsigned_injective(self as int, other as int, 16);
    }
}

impl FromLeBytes for i128 {
    fn from_le_bytes<R: Read>(bytes: &mut R) -> (r: Result<Self, IoError>) {
        match read_exact(bytes, 16) {
            Ok(buf) => {
                let u = unsigned_from_le_exec(&buf);
                proof {
                    lemma_le_val_bound(buf@);
                    lemma_pow256_widths();
                }
                Ok(i128_from_unsigned(u))
            },
            Err(e) => Err(e),
        }
    }
}

impl FromBeBytes for i128 {
    fn from_be_bytes<R: Read>(bytes: &mut R) -> (r: Result<Self, IoError>) {
        match read_exact(bytes, 16) {
            Ok(buf) => {
                let rev = reversed_exec(&buf);
                let u = unsigned_from_le_exec(&rev);
                proof {
                    assert(rev@.len() == 16);
                    lemma_le_val_bound(rev@);
                    lemma_pow256_widths();
                }
                Ok(i128_from_unsigned(u))
            },
            Err(e) => Err(e),
        }
    }
}

} // verus!
