//! Recognising partition tables and file systems by what stands on the disk.
pub mod fs;
pub mod part;

use crate::error::Error;
use vstd::prelude::*;

verus! {

/// What a probe needs of its reader: it may be asked for any place and length, and a read that
/// succeeds gives exactly the bytes asked for.
pub open spec fn reads_exactly<F: FnMut(usize, usize) -> Result<Vec<u8>, Error>>(read: F) -> bool {
    &&& forall|at: usize, len: usize| #[trigger] call_requires(read, (at, len))
    &&& forall|at: usize, len: usize, out: Result<Vec<u8>, Error>| #[trigger]
        call_ensures(read, (at, len), out) ==> (out matches Ok(bytes) ==> bytes@.len() == len)
}

/// The bytes that a read gave, if it succeeded.
pub open spec fn bytes_of(out: Result<Vec<u8>, Error>) -> Option<Seq<u8>> {
    match out {
        Ok(bytes) => Some(bytes@),
        Err(_) => None,
    }
}

/// The bytes that each of a series of reads gave.
pub open spec fn all_bytes(outs: Seq<Result<Vec<u8>, Error>>) -> Seq<Option<Seq<u8>>> {
    outs.map_values(|out: Result<Vec<u8>, Error>| bytes_of(out))
}

/// The bytes that each read gave, one by one.
pub proof fn lemma_all_bytes(outs: Seq<Result<Vec<u8>, Error>>)
    ensures
        all_bytes(outs).len() == outs.len(),
        forall|i: int| 0 <= i < outs.len() ==> #[trigger] all_bytes(outs)[i] == bytes_of(outs[i]),
{
}

/// One read that a probe made: where, how much, and what it gave if it succeeded.
pub struct ReadMade {
    pub at: usize,
    pub len: usize,
    pub bytes: Option<Seq<u8>>,
}

/// Whether `made` is something that `read` can have answered.
pub open spec fn answered<F: FnMut(usize, usize) -> Result<Vec<u8>, Error>>(
    read: F,
    made: ReadMade,
) -> bool {
    exists|out: Result<Vec<u8>, Error>| #[trigger]
        call_ensures(read, (made.at, made.len), out) && made.bytes == bytes_of(out)
}

} // verus!
