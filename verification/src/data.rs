//! Models how the raw data is accessed.

use vstd::prelude::*;

verus! {

/// The bytes of `content` that a read of at most `count` bytes at `offset` returns: the bytes
/// from `offset` up to `offset + count` or the end of the content, whichever comes first, and no
/// bytes at all if `offset` lies at or past the end.
pub open spec fn content_at(content: Seq<u8>, offset: int, count: int) -> Seq<u8> {
    if offset >= content.len() {
        Seq::empty()
    } else if offset + count <= content.len() {
        content.subrange(offset, offset + count)
    } else {
        content.subrange(offset, content.len() as int)
    }
}

/// A data source to work with.
///
/// A source holds a sequence of bytes (its content) that reads do not change.
pub trait DataSource {
    /// The error type for fallible sources.
    type Error;

    /// The bytes that the source holds.
    spec fn content(&self) -> Seq<u8>;

    /// Reads from sources of this type never fail.
    spec fn infallible() -> bool;

    /// The length of the data.
    fn len(&mut self) -> (r: Result<u64, Self::Error>)
        ensures
            final(self).content() == old(self).content(),
            r matches Ok(n) ==> n == old(self).content().len(),
            Self::infallible() ==> r is Ok,
    ;

    /// Determines if the data source is empty.
    fn is_empty(&mut self) -> (r: Result<bool, Self::Error>)
        ensures
            final(self).content() == old(self).content(),
            r matches Ok(b) ==> b == (old(self).content().len() == 0),
            Self::infallible() ==> r is Ok,
    {
        match self.len() {
            Ok(n) => Ok(n == 0),
            Err(e) => Err(e),
        }
    }

    /// Reads at most `count` bytes at the given offset in the data.
    ///
    /// Fewer bytes are returned only where the data ends before `offset + count`.
    fn window_at(&mut self, offset: u64, count: usize) -> (r: Result<Vec<u8>, Self::Error>)
        ensures
            final(self).content() == old(self).content(),
            r matches Ok(bytes) ==> bytes@ == content_at(
                old(self).content(),
                offset as int,
                count as int,
            ),
            Self::infallible() ==> r is Ok,
    ;
}

/// Data held in memory is a data source that never fails.
impl DataSource for Vec<u8> {
    type Error = ();

    open spec fn content(&self) -> Seq<u8> {
        self@
    }

    open spec fn infallible() -> bool {
        true
    }

    fn len(&mut self) -> (r: Result<u64, ()>) {
        Ok(Vec::len(self) as u64)
    }

    fn window_at(&mut self, offset: u64, count: usize) -> (r: Result<Vec<u8>, ()>) {
        let len = Vec::len(self);
        let mut out: Vec<u8> = Vec::new();
        if offset >= len as u64 {
            return Ok(out);
        }
        let start = offset as usize;
        let end = if count <= len - start {
            start + count
        } else {
            len
        };
        let mut i = start;
        while i < end
            invariant
                start <= i <= end <= len == self@.len(),
                out@ == self@.subrange(start as int, i as int),
            decreases end - i,
        {
            out.push(self[i]);
            i = i + 1;
        }
        Ok(out)
    }
}

} // verus!
