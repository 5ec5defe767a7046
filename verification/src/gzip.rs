//! Compressed bytes: decoding the head of a gzip stream, its member headers
//! and its trailer.

use std::io::Read;

use vstd::prelude::*;

use crate::detect::DetectError;
use crate::text;

verus! {

/// Bytes of decompressed head inspected per file. Detection must stay cheap:
/// the user has not pressed "parse" yet.
pub const HEAD_LIMIT: usize = 256 * 1024;

/// Compressed bytes scanned for member headers. Detection stays cheap.
pub const MEMBER_SCAN_LIMIT: usize = 1024 * 1024;

/// The first `limit` bytes that the members of a gzip stream decode to, or the
/// fault that the stream has before that many are out.
pub uninterp spec fn gunzipped(bytes: Seq<u8>, limit: nat) -> Result<Seq<u8>, Seq<char>>;

/// Reads up to `limit` bytes out of `flate2::bufread::MultiGzDecoder` over
/// these bytes. The claims: never more than `limit` bytes come out; whether
/// the stream has a fault, and the message of that fault, are fixed by the
/// bytes and the limit; and so are the bytes that come out where it has none.
/// How many bytes come out ahead of a fault is not stated: that depends on the
/// sizes of the buffers the decoder is handed.
#[verifier::external_body]
pub(crate) fn inflate(bytes: &[u8], limit: usize) -> (r: (Vec<u8>, Option<String>))
    ensures
        r.0@.len() <= limit,
        match gunzipped(bytes@, limit as nat) {
            Ok(all) => r.1 is None && r.0@ == all,
            Err(why) => text::opt(r.1) == Some(why),
        },
{
    let mut head = Vec::new();
    let decoder = flate2::bufread::MultiGzDecoder::new(bytes);
    let fault = decoder.take(limit as u64).read_to_end(&mut head).err();
    (head, fault.map(|e| e.to_string()))
}

/// What is made of the bytes a decoder gave and the fault it met: without a
/// fault all of them, with one those that came out ahead of it, marked as cut
/// short, and where none did the fault itself.
pub open spec fn is_usable(
    r: Result<(Vec<u8>, bool), String>,
    head: Seq<u8>,
    fault: Option<Seq<char>>,
) -> bool {
    match fault {
        None => r matches Ok((all, early)) && all@ == head && !early,
        Some(why) => if head.len() > 0 {
            r matches Ok((some, early)) && some@ == head && early
        } else {
            r matches Err(reason) && reason@ == why
        },
    }
}

/// The usable bytes of a head and whether the stream ended early: a cut-off
/// member still leaves usable bytes. `Err` says why there are none.
pub fn usable_head(head: Vec<u8>, fault: Option<String>) -> (r: Result<(Vec<u8>, bool), String>)
    ensures
        is_usable(r, head@, text::opt(fault)),
{
    match fault {
        None => Ok((head, false)),
        Some(reason) => {
            if head.len() > 0 {
                Ok((head, true))
            } else {
                Err(reason)
            }
        },
    }
}

/// The decoded head of a gzip file that starts with these bytes, up to
/// `HEAD_LIMIT` bytes, and whether the stream ended early. `Err` names the file
/// and says why nothing decoded. How many bytes a faulty stream leaves is not
/// stated; [`usable_head`] says what becomes of them.
pub fn decoded_head(path: &str, bytes: &Vec<u8>) -> (r: Result<(Vec<u8>, bool), DetectError>)
    ensures
        match gunzipped(bytes@, HEAD_LIMIT as nat) {
            Ok(all) => r matches Ok((head, early)) && head@ == all && !early && all.len()
                <= HEAD_LIMIT,
            Err(why) => match r {
                Ok((head, early)) => early && 0 < head@.len() <= HEAD_LIMIT,
                Err(DetectError::Io { path: at, reason }) => at@ == path@ && reason@ == why,
            },
        },
{
    let (head, fault) = inflate(bytes.as_slice(), HEAD_LIMIT);
    match usable_head(head, fault) {
        Ok(decoded) => Ok(decoded),
        Err(reason) => Err(DetectError::Io { path: path.to_owned(), reason }),
    }
}

/// The text that stands for bytes that need not be UTF-8.
pub uninterp spec fn lossy_text(bytes: Seq<u8>) -> Seq<char>;

/// Calls `String::from_utf8_lossy`. The claims: the text is fixed by the
/// bytes, and bytes that are UTF-8 are the text they encode.
#[verifier::external_body]
pub(crate) fn lossy(bytes: &Vec<u8>) -> (out: String)
    ensures
        out@ == lossy_text(bytes@),
        vstd::utf8::valid_utf8(bytes@) ==> out@ == vstd::utf8::decode_utf8(bytes@),
{
    String::from_utf8_lossy(bytes).into_owned()
}

/// A gzip member header stands at position `i`.
pub open spec fn is_member_at(bytes: Seq<u8>, i: int) -> bool {
    0 <= i && i + 2 < bytes.len() && bytes[i] == 0x1f && bytes[i + 1] == 0x8b && bytes[i + 2]
        == 0x08
}

/// Member headers from position `i` on; the fixed ten bytes of a header hold
/// no other.
pub open spec fn members_from(bytes: Seq<u8>, i: int) -> nat
    decreases bytes.len() + 10 - i,
{
    if i < 0 || i + 2 >= bytes.len() {
        0
    } else if is_member_at(bytes, i) {
        1 + members_from(bytes, i + 10)
    } else {
        members_from(bytes, i + 1)
    }
}

/// The part of a compressed file that is scanned for member headers.
pub open spec fn scanned(bytes: Seq<u8>) -> Seq<u8> {
    if bytes.len() <= MEMBER_SCAN_LIMIT {
        bytes
    } else {
        bytes.take(MEMBER_SCAN_LIMIT as int)
    }
}

/// Counts gzip member headers within the first `MEMBER_SCAN_LIMIT` compressed
/// bytes. The signature can also occur by chance inside deflate data, so the
/// count is a hint, not a total.
pub fn count_members_in_head(bytes: &Vec<u8>) -> (n: usize)
    ensures
        n == members_from(scanned(bytes@), 0),
{
    let len: usize = if bytes.len() <= MEMBER_SCAN_LIMIT {
        bytes.len()
    } else {
        MEMBER_SCAN_LIMIT
    };
    let ghost head = scanned(bytes@);
    let mut members: usize = 0;
    let mut offset: usize = 0;
    while offset < len && offset + 2 < len
        invariant
            head == scanned(bytes@),
            len == head.len(),
            len <= bytes@.len(),
            len <= MEMBER_SCAN_LIMIT,
            forall|k: int| 0 <= k < len ==> head[k] == #[trigger] bytes@[k],
            members <= offset <= len + 10,
            members + members_from(head, offset as int) == members_from(head, 0),
        decreases len + 10 - offset,
    {
        if bytes[offset] == 0x1f && bytes[offset + 1] == 0x8b && bytes[offset + 2] == 0x08 {
            members = members + 1;
            offset = offset + 10;
        } else {
            offset = offset + 1;
        }
    }
    members
}

/// Four bytes, lowest first, as a number.
pub open spec fn little_endian(b: Seq<u8>) -> nat {
    (b[0] + 256 * b[1] + 65536 * b[2] + 16777216 * b[3]) as nat
}

/// The decompressed size according to the trailer. The trailer covers only
/// the last member and counts modulo 2^32, so there is none where the file
/// is too short, has several members, or would be packed a thousandfold.
pub open spec fn size_of(trailer: Seq<u8>, compressed_len: nat, members: nat) -> Option<nat> {
    if compressed_len < 18 || members > 1 || trailer.len() != 4 {
        None
    } else {
        let size = little_endian(trailer);
        if size > 0 && size / compressed_len < 1000 {
            Some(size)
        } else {
            None
        }
    }
}

/// The decompressed size of a file whose last four bytes are `trailer`.
pub fn uncompressed_len(trailer: &Vec<u8>, compressed_len: u64, members: usize) -> (r: Option<u64>)
    ensures
        match r {
            Some(n) => size_of(trailer@, compressed_len as nat, members as nat) == Some(n as nat),
            None => size_of(trailer@, compressed_len as nat, members as nat) is None,
        },
{
    if compressed_len < 18 || members > 1 || trailer.len() != 4 {
        return None;
    }
    let size: u64 = trailer[0] as u64 + 256 * (trailer[1] as u64) + 65536 * (trailer[2] as u64)
        + 16777216 * (trailer[3] as u64);
    if size > 0 && size / compressed_len < 1000 {
        Some(size)
    } else {
        None
    }
}

} // verus!
