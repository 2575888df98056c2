//! The per-range decision of a batched positional read.
use vstd::prelude::*;
use crate::error::Error;

verus! {

/// The bytes a positional read of `len` bytes at `off` finds in `content`:
/// fewer than `len` where the range runs past the end.
pub open spec fn pread_model(content: Seq<u8>, off: int, len: int) -> Seq<u8> {
    if off >= content.len() {
        Seq::empty()
    } else if off + len <= content.len() {
        content.subrange(off, off + len)
    } else {
        content.subrange(off, content.len() as int)
    }
}

/// What a batched read yields for the range of `len` bytes at `off` of a
/// file holding `content`: those bytes when the range lies within the file,
/// else `UnexpectedEof`.
pub open spec fn range_outcome(content: Seq<u8>, off: int, len: int) -> Result<Seq<u8>, Error> {
    if off + len <= content.len() {
        Ok(content.subrange(off, off + len))
    } else {
        Err(Error::UnexpectedEof)
    }
}

/// The result for the range of `len` bytes at `offset` of a file of `size`
/// bytes, given the bytes the positional read returned: `UnexpectedEof` when
/// the range runs past the end or the read came up short, else the bytes.
pub fn range_result(data: Vec<u8>, offset: u64, len: usize, size: u64) -> (r: Result<
    Vec<u8>,
    Error,
>)
    ensures
        offset + len <= size && data@.len() == len ==> r == Ok::<Vec<u8>, Error>(data),
        !(offset + len <= size && data@.len() == len) ==> r == Err::<Vec<u8>, Error>(
            Error::UnexpectedEof,
        ),
{
    if offset <= size && len as u64 <= size - offset && data.len() == len {
        Ok(data)
    } else {
        Err(Error::UnexpectedEof)
    }
}

/// Fed what a positional read finds in `content`, `range_result` yields the
/// bytes of the range when it lies within the file and `UnexpectedEof`
/// otherwise, zero-length ranges included.
pub proof fn lemma_range_read(content: Seq<u8>, off: int, len: int, r: Result<Seq<u8>, Error>)
    requires
        0 <= off,
        0 <= len,
        off + len <= content.len() && pread_model(content, off, len).len() == len ==> r == Ok::<
            Seq<u8>,
            Error,
        >(pread_model(content, off, len)),
        !(off + len <= content.len() && pread_model(content, off, len).len() == len) ==> r
            == Err::<Seq<u8>, Error>(Error::UnexpectedEof),
    ensures
        r == range_outcome(content, off, len),
{
    if off + len <= content.len() {
        assert(pread_model(content, off, len) =~= content.subrange(off, off + len));
    }
}

} // verus!
