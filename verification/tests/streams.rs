use eio::IoError;
use eio::Read;
use eio::ReadExt;

/// A source whose transport always fails.
struct FailingSource;

impl Read for FailingSource {
    // The model of the stream is ghost state: it is erased from compiled
    // code and never called at run time.
    fn remaining(&self) -> vstd::seq::Seq<u8> {
        unreachable!()
    }

    fn infallible(&self) -> bool {
        unreachable!()
    }

    fn read(&mut self, _limit: usize) -> Result<Vec<u8>, IoError> {
        Err(IoError::Transport)
    }
}

/// A source that hands out its bytes one at a time, however many were
/// asked for.
struct TrickleSource {
    data: Vec<u8>,
    pos: usize,
}

impl Read for TrickleSource {
    fn remaining(&self) -> vstd::seq::Seq<u8> {
        unreachable!()
    }

    fn infallible(&self) -> bool {
        unreachable!()
    }

    fn read(&mut self, limit: usize) -> Result<Vec<u8>, IoError> {
        if limit == 0 || self.pos >= self.data.len() {
            return Ok(Vec::new());
        }
        let b = self.data[self.pos];
        self.pos += 1;
        Ok(vec![b])
    }
}

#[test]
fn transport_failure_propagates() {
    let mut src = FailingSource;
    let r: Result<u32, IoError> = src.read_be();
    assert_eq!(r, Err(IoError::Transport));
}

#[test]
fn short_reads_are_retried_until_the_window_is_full() {
    let mut src = TrickleSource {
        data: vec![0x12, 0x34, 0x56, 0x78],
        pos: 0,
    };
    let x: u32 = src.read_be().unwrap();
    assert_eq!(x, 0x12345678);
}

#[test]
fn trickle_source_still_fails_when_short() {
    let mut src = TrickleSource {
        data: vec![0x12, 0x34],
        pos: 0,
    };
    let r: Result<u32, IoError> = src.read_le();
    assert_eq!(r, Err(IoError::Truncated));
}
