//! The transfer frame: metadata header, payload, trailing digest.
//!
//! ```text
//! u32 sender_id_len | sender_id | u32 filename_len | filename |
//! u64 payload_size  | payload   | 32-byte SHA-256 of the payload
//! ```
//!
//! All integers are big-endian. The functions here say what a byte stream
//! means as (a prefix of) one frame; the sender and the receiver are stated
//! against them.

use crate::digest::sha256;
use crate::error::TransferError;
use crate::text::string_from_utf8;
use crate::wire::{be32, be32_at, be64, be64_at, get_be32, get_be64, put_be32, put_be64};
use crate::wire::{lemma_be32_round_trip, lemma_be64_round_trip};
use vstd::prelude::*;
use vstd::slice::slice_to_vec;
use vstd::utf8::{encode_utf8, valid_utf8};

verus! {

/// The metadata of a frame as bytes and a number.
pub struct Header {
    pub sender_id: Seq<u8>,
    pub filename: Seq<u8>,
    pub payload_size: u64,
}

impl Header {
    /// Both lengths can be written as 32-bit numbers.
    pub open spec fn fits(self) -> bool {
        self.sender_id.len() <= u32::MAX && self.filename.len() <= u32::MAX
    }

    /// A receiver takes this header: both texts are UTF-8 and the file name
    /// stays inside the output directory.
    pub open spec fn acceptable(self) -> bool {
        &&& valid_utf8(self.sender_id)
        &&& valid_utf8(self.filename)
        &&& is_safe_filename(self.filename)
    }

    /// The header on the wire.
    pub open spec fn bytes(self) -> Seq<u8> {
        be32(self.sender_id.len() as u32) + self.sender_id + be32(self.filename.len() as u32)
            + self.filename + be64(self.payload_size)
    }

    /// Number of bytes of the header on the wire.
    pub open spec fn len(self) -> int {
        16 + self.sender_id.len() as int + self.filename.len() as int
    }
}

/// The whole frame on the wire for a header and its payload.
pub open spec fn frame_bytes(header: Header, payload: Seq<u8>) -> Seq<u8> {
    header.bytes() + payload + sha256(payload)@
}

/// A file name is safe when it holds no `/` and no `..`.
pub open spec fn is_safe_filename(name: Seq<u8>) -> bool {
    &&& forall|i: int| 0 <= i < name.len() ==> #[trigger] name[i] != 0x2f
    &&& forall|i: int| 0 <= i < name.len() - 1 ==> !(#[trigger] name[i] == 0x2e && name[i + 1] == 0x2e)
}

/// Who sent which file, and how many payload bytes it has.
#[derive(Clone, Debug)]
pub struct FileMetadata {
    pub sender_id: String,
    pub filename: String,
    pub payload_size: u64,
}

impl View for FileMetadata {
    type V = Header;

    open spec fn view(&self) -> Header {
        Header {
            sender_id: encode_utf8(self.sender_id@),
            filename: encode_utf8(self.filename@),
            payload_size: self.payload_size,
        }
    }
}

/// Index just behind the sender identifier; defined once four bytes are there.
pub open spec fn id_end(s: Seq<u8>) -> int {
    4 + be32_at(s, 0)
}

/// Index just behind the file name; defined once the file name's length is there.
pub open spec fn name_end(s: Seq<u8>) -> int {
    id_end(s) + 4 + be32_at(s, id_end(s))
}

/// Index just behind the header.
pub open spec fn header_end(s: Seq<u8>) -> int {
    name_end(s) + 8
}

/// The stream reaches to the end of the sender identifier.
pub open spec fn has_id(s: Seq<u8>) -> bool {
    s.len() >= 4 && s.len() >= id_end(s)
}

/// The stream reaches to the end of the file name.
pub open spec fn has_name(s: Seq<u8>) -> bool {
    has_id(s) && s.len() >= id_end(s) + 4 && s.len() >= name_end(s)
}

/// The stream holds a whole header.
pub open spec fn has_header(s: Seq<u8>) -> bool {
    has_name(s) && s.len() >= header_end(s)
}

/// The sender identifier as it stands in the stream.
pub open spec fn id_bytes(s: Seq<u8>) -> Seq<u8> {
    s.subrange(4, id_end(s))
}

/// The file name as it stands in the stream.
pub open spec fn name_bytes(s: Seq<u8>) -> Seq<u8> {
    s.subrange(id_end(s) + 4, name_end(s))
}

/// The header at the start of the stream, once all of it is there.
pub open spec fn parse_header(s: Seq<u8>) -> Option<Header> {
    if has_header(s) {
        Some(
            Header {
                sender_id: id_bytes(s),
                filename: name_bytes(s),
                payload_size: be64_at(s, name_end(s)) as u64,
            },
        )
    } else {
        None
    }
}

/// What is wrong with the header as far as the stream shows it. A text is
/// judged as soon as its last byte is there.
pub open spec fn header_fault(s: Seq<u8>) -> Option<TransferError> {
    if has_id(s) && !valid_utf8(id_bytes(s)) {
        Some(TransferError::SenderIdNotUtf8)
    } else if has_name(s) && !valid_utf8(name_bytes(s)) {
        Some(TransferError::FilenameNotUtf8)
    } else if has_name(s) && !is_safe_filename(name_bytes(s)) {
        Some(TransferError::UnsafeFilename)
    } else {
        None
    }
}

/// The end of the header field that the stream is inside of, or of the
/// header itself once every field is complete.
pub open spec fn next_boundary(s: Seq<u8>) -> int {
    if s.len() < 4 {
        4
    } else if s.len() < id_end(s) {
        id_end(s)
    } else if s.len() < id_end(s) + 4 {
        id_end(s) + 4
    } else if s.len() < name_end(s) {
        name_end(s)
    } else {
        header_end(s)
    }
}

/// What a stream shows of its header is what every longer stream shows.
pub proof fn lemma_header_prefix(s: Seq<u8>, t: Seq<u8>)
    requires
        s.len() <= t.len(),
        t.subrange(0, s.len() as int) == s,
    ensures
        s.len() >= 4 ==> id_end(t) == id_end(s),
        has_id(s) ==> has_id(t) && id_bytes(t) == id_bytes(s),
        has_id(s) && s.len() >= id_end(s) + 4 ==> name_end(t) == name_end(s),
        has_name(s) ==> has_name(t) && name_bytes(t) == name_bytes(s),
        has_name(s) ==> header_fault(t) == header_fault(s),
        has_header(s) ==> has_header(t) && parse_header(t) == parse_header(s),
        has_header(s) ==> be64_at(t, name_end(t)) == be64_at(s, name_end(s)),
        header_fault(s) is Some ==> header_fault(t) == header_fault(s),
{
    assert forall|i: int| 0 <= i < s.len() implies s[i] == t[i] by {
        assert(t.subrange(0, s.len() as int)[i] == t[i]);
    }
    if s.len() >= 4 {
        assert(be32_at(t, 0) == be32_at(s, 0));
        if has_id(s) {
            assert(id_bytes(t) =~= id_bytes(s));
            if s.len() >= id_end(s) + 4 {
                assert(be32_at(t, id_end(s)) == be32_at(s, id_end(s)));
                if has_name(s) {
                    assert(name_bytes(t) =~= name_bytes(s));
                    if has_header(s) {
                        assert(be64_at(t, name_end(s)) == be64_at(s, name_end(s)));
                    }
                }
            }
        }
    }
}

/// A header that was written out is read back as it was, whatever follows it.
pub proof fn lemma_header_round_trip(header: Header, rest: Seq<u8>)
    requires
        header.fits(),
    ensures
        parse_header(header.bytes() + rest) == Some(header),
        header_end(header.bytes() + rest) == header.len(),
        header.bytes().len() == header.len(),
        has_header(header.bytes() + rest),
        be64_at(header.bytes() + rest, name_end(header.bytes() + rest)) == header.payload_size,
        header.acceptable() <==> header_fault(header.bytes() + rest) is None,
{
    let s = header.bytes() + rest;
    let n1 = header.sender_id.len() as u32;
    let n2 = header.filename.len() as u32;
    assert(s.subrange(0, 4) =~= be32(n1));
    lemma_be32_round_trip(s, 0, n1);
    assert(id_end(s) == 4 + n1);
    assert(id_bytes(s) =~= header.sender_id);
    assert(s.subrange(4 + n1, 8 + n1) =~= be32(n2));
    lemma_be32_round_trip(s, 4 + n1, n2);
    assert(name_end(s) == 8 + n1 + n2);
    assert(name_bytes(s) =~= header.filename);
    assert(s.subrange(8 + n1 + n2, 16 + n1 + n2) =~= be64(header.payload_size));
    lemma_be64_round_trip(s, 8 + n1 + n2, header.payload_size);
}

/// Whether `name` holds neither `/` nor `..`.
pub fn check_safe_filename(name: &[u8]) -> (safe: bool)
    ensures
        safe == is_safe_filename(name@),
{
    let mut i: usize = 0;
    while i < name.len()
        invariant
            i <= name.len(),
            forall|k: int| 0 <= k < i ==> #[trigger] name@[k] != 0x2f,
            forall|k: int| 0 <= k < i - 1 ==> !(#[trigger] name@[k] == 0x2e && name@[k + 1] == 0x2e),
        decreases name.len() - i,
    {
        if name[i] == 0x2f {
            return false;
        }
        if i > 0 && name[i] == 0x2e && name[i - 1] == 0x2e {
            assert(name@[i - 1] == 0x2e && name@[i - 1 + 1] == 0x2e);
            return false;
        }
        i += 1;
    }
    true
}

/// The header for a sender, a file name and a payload size, as it goes on
/// the wire. Refused only when a text is too long for its length field.
pub fn encode_header(sender_id: &str, filename: &str, payload_size: u64) -> (out: Result<
    Vec<u8>,
    TransferError,
>)
    ensures
        match out {
            Ok(bytes) => {
                &&& header_of(sender_id@, filename@, payload_size).fits()
                &&& bytes@ == header_of(sender_id@, filename@, payload_size).bytes()
            },
            Err(e) => e == TransferError::FieldTooLong && !header_of(
                sender_id@,
                filename@,
                payload_size,
            ).fits(),
        },
{
    let id = sender_id.as_bytes();
    let name = filename.as_bytes();
    if id.len() > 0xffff_ffff || name.len() > 0xffff_ffff {
        return Err(TransferError::FieldTooLong);
    }
    let mut out: Vec<u8> = Vec::new();
    put_be32(&mut out, id.len() as u32);
    out.extend_from_slice(id);
    put_be32(&mut out, name.len() as u32);
    out.extend_from_slice(name);
    put_be64(&mut out, payload_size);
    assert(out@ =~= header_of(sender_id@, filename@, payload_size).bytes());
    Ok(out)
}

/// The header that names this sender and file.
pub open spec fn header_of(sender_id: Seq<char>, filename: Seq<char>, payload_size: u64) -> Header {
    Header { sender_id: encode_utf8(sender_id), filename: encode_utf8(filename), payload_size }
}

/// Number of bytes still missing up to the next field boundary of the
/// header, 0 once the header is complete.
pub fn header_need(head: &[u8]) -> (need: usize)
    ensures
        need == if has_header(head@) {
            0
        } else {
            next_boundary(head@) - head@.len()
        },
        !has_header(head@) ==> need > 0,
{
    let len: u64 = head.len() as u64;
    if len < 4 {
        return (4 - len) as usize;
    }
    let id_len: u64 = get_be32(head, 0) as u64;
    let id_stop: u64 = 4 + id_len;
    if len < id_stop {
        return (id_stop - len) as usize;
    }
    if len < id_stop + 4 {
        return (id_stop + 4 - len) as usize;
    }
    let name_len: u64 = get_be32(head, id_stop as usize) as u64;
    let name_stop: u64 = id_stop + 4 + name_len;
    if len < name_stop {
        return (name_stop - len) as usize;
    }
    if len < name_stop + 8 {
        return (name_stop + 8 - len) as usize;
    }
    0
}

/// Reads the header at the start of `bytes` as far as it is there: the
/// metadata once the header is complete, `None` while bytes are missing, and
/// the fault as soon as one shows.
pub fn decode_header(bytes: &[u8]) -> (out: Result<Option<FileMetadata>, TransferError>)
    ensures
        match out {
            Err(e) => header_fault(bytes@) == Some(e),
            Ok(Some(meta)) => header_fault(bytes@) is None && parse_header(bytes@) == Some(meta@),
            Ok(None) => header_fault(bytes@) is None && parse_header(bytes@) is None,
        },
{
    broadcast use vstd::utf8::decode_utf8_encode_utf8;

    let len: u64 = bytes.len() as u64;
    if len < 4 {
        return Ok(None);
    }
    let id_len: u64 = get_be32(bytes, 0) as u64;
    let id_stop: u64 = 4 + id_len;
    if len < id_stop {
        return Ok(None);
    }
    let id_slice = &bytes[4..id_stop as usize];
    assert(id_slice@ == id_bytes(bytes@));
    let sender_id = match string_from_utf8(slice_to_vec(id_slice)) {
        Some(text) => text,
        None => {
            return Err(TransferError::SenderIdNotUtf8);
        },
    };
    if len < id_stop + 4 {
        return Ok(None);
    }
    let name_len: u64 = get_be32(bytes, id_stop as usize) as u64;
    let name_stop: u64 = id_stop + 4 + name_len;
    if len < name_stop {
        return Ok(None);
    }
    let name_slice = &bytes[(id_stop + 4) as usize..name_stop as usize];
    assert(name_slice@ == name_bytes(bytes@));
    let filename = match string_from_utf8(slice_to_vec(name_slice)) {
        Some(text) => text,
        None => {
            return Err(TransferError::FilenameNotUtf8);
        },
    };
    if !check_safe_filename(name_slice) {
        return Err(TransferError::UnsafeFilename);
    }
    if len < name_stop + 8 {
        return Ok(None);
    }
    let payload_size: u64 = get_be64(bytes, name_stop as usize);
    let meta = FileMetadata { sender_id, filename, payload_size };
    assert(meta@.sender_id == id_bytes(bytes@));
    assert(meta@.filename == name_bytes(bytes@));
    Ok(Some(meta))
}

} // verus!
