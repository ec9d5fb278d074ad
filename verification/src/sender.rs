//! The sending side of a transfer: header first, then the payload chunk by
//! chunk under a running digest, then the digest.

use crate::digest::{absorbed, hasher_finalize, hasher_new, hasher_update, sha256, Hasher};
use crate::error::TransferError;
use crate::frame::{encode_header, header_of};
use vstd::prelude::*;

verus! {

/// The sender of one frame, between its header and its digest.
pub struct Sender {
    hasher: Hasher,
}

impl Sender {
    /// The payload bytes sent so far, in order.
    pub closed spec fn sent(&self) -> Seq<u8> {
        absorbed(self.hasher)
    }

    /// Starts a transfer of `file_size` payload bytes and gives the header
    /// to write first. An empty file is refused before anything is written;
    /// so are texts too long for their length fields.
    pub fn begin(user_id: &str, file_name: &str, file_size: u64) -> (out: Result<
        (Sender, Vec<u8>),
        TransferError,
    >)
        ensures
            match out {
                Ok((sender, header)) => {
                    &&& file_size > 0
                    &&& header_of(user_id@, file_name@, file_size).fits()
                    &&& header@ == header_of(user_id@, file_name@, file_size).bytes()
                    &&& sender.sent() == Seq::<u8>::empty()
                },
                Err(e) => e == if file_size == 0 {
                    TransferError::EmptyFile
                } else {
                    TransferError::FieldTooLong
                } && (file_size == 0 || !header_of(user_id@, file_name@, file_size).fits()),
            },
    {
        if file_size == 0 {
            return Err(TransferError::EmptyFile);
        }
        match encode_header(user_id, file_name, file_size) {
            Ok(header) => Ok((Sender { hasher: hasher_new() }, header)),
            Err(e) => Err(e),
        }
    }

    /// Takes the next chunk of the payload into the digest. The chunk itself
    /// goes on the wire as it is.
    pub fn push(&mut self, chunk: &[u8])
        ensures
            final(self).sent() == old(self).sent() + chunk@,
    {
        hasher_update(&mut self.hasher, chunk);
    }

    /// Ends the payload and gives the 32 bytes to write last: the digest of
    /// everything that was pushed.
    pub fn finish(self) -> (digest: [u8; 32])
        ensures
            digest == sha256(self.sent()),
    {
        hasher_finalize(self.hasher)
    }
}

} // verus!
