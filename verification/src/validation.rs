//! Validation of uploads and mint submissions.

use crate::strutil::char_is_alphanumeric;
use crate::strutil::eq_str;
use crate::strutil::is_alnum_char;
use crate::strutil::str_is_blank;
use vstd::prelude::*;
use vstd::string::*;

verus! {

/// The greatest accepted payload size in bytes (1 MiB).
pub const MAX_PAYLOAD_BYTES: usize = 1048576;

/// The greatest accepted number of payloads per mint request.
pub const MAX_PAYLOAD_COUNT: usize = 100;

/// The greatest accepted reference length in characters.
pub const MAX_CID_CHARS: usize = 100;

/// The least accepted reference length in characters.
pub const MIN_CID_CHARS: usize = 46;

/// The least accepted payload size in bytes.
pub const MIN_PAYLOAD_BYTES: usize = 10;

/// The reasons a mint submission is refused.  A refused submission is still
/// stored; its status starts out `Failed` with the reason's message.
#[derive(Debug, Clone, Copy, PartialEq, Eq, Structural)]
pub enum Rejection {
    CidEmpty,
    CidTooLong,
    CidMalformed,
    NoPayloads,
    TooManyPayloads,
    PayloadTooSmall,
    PayloadTooLarge,
    AnonymousRequester,
    PayloadAlreadyMinted,
}

/// The message recorded for a rejection.
pub open spec fn rejection_text(r: Rejection) -> Seq<char> {
    match r {
        Rejection::CidEmpty => "reference is empty"@,
        Rejection::CidTooLong => "reference is longer than 100 characters"@,
        Rejection::CidMalformed => "reference is not a valid content identifier"@,
        Rejection::NoPayloads => "no payloads were given"@,
        Rejection::TooManyPayloads => "more than 100 payloads were given"@,
        Rejection::PayloadTooSmall => "a payload is smaller than 10 bytes"@,
        Rejection::PayloadTooLarge => "a payload is larger than 1 MiB"@,
        Rejection::AnonymousRequester => "the anonymous identity may not mint"@,
        Rejection::PayloadAlreadyMinted => "a payload has already been minted"@,
    }
}

/// The message recorded for a rejection, as a string.
pub fn rejection_message(r: Rejection) -> (out: String)
    ensures
        out@ == rejection_text(r),
{
    match r {
        Rejection::CidEmpty => String::from_str("reference is empty"),
        Rejection::CidTooLong => String::from_str("reference is longer than 100 characters"),
        Rejection::CidMalformed => String::from_str("reference is not a valid content identifier"),
        Rejection::NoPayloads => String::from_str("no payloads were given"),
        Rejection::TooManyPayloads => String::from_str("more than 100 payloads were given"),
        Rejection::PayloadTooSmall => String::from_str("a payload is smaller than 10 bytes"),
        Rejection::PayloadTooLarge => String::from_str("a payload is larger than 1 MiB"),
        Rejection::AnonymousRequester => String::from_str("the anonymous identity may not mint"),
        Rejection::PayloadAlreadyMinted => String::from_str("a payload has already been minted"),
    }
}

// =====================
// Reference validation
// =====================

/// A well-formed content reference: 46 to 100 characters, the fixed tag
/// `Qm`, then alphanumerics only.
pub open spec fn valid_cid(s: Seq<char>) -> bool {
    &&& MIN_CID_CHARS <= s.len() <= MAX_CID_CHARS
    &&& s[0] == 'Q'
    &&& s[1] == 'm'
    &&& forall|k: int| 0 <= k < s.len() ==> is_alnum_char(#[trigger] s[k])
}

/// Whether `cid` is a well-formed content reference.
pub fn is_valid_cid(cid: &str) -> (r: bool)
    ensures
        r == valid_cid(cid@),
{
    let n = cid.unicode_len();
    if n < MIN_CID_CHARS || n > MAX_CID_CHARS {
        return false;
    }
    if cid.get_char(0) != 'Q' || cid.get_char(1) != 'm' {
        return false;
    }
    let mut i: usize = 0;
    while i < n
        invariant
            n == cid@.len(),
            0 <= i <= n,
            forall|k: int| 0 <= k < i ==> is_alnum_char(#[trigger] cid@[k]),
        decreases n - i,
    {
        if !char_is_alphanumeric(cid.get_char(i)) {
            return false;
        }
        i = i + 1;
    }
    true
}

/// The first reason the reference is refused, if any.
pub open spec fn cid_rejection(cid: Seq<char>) -> Option<Rejection> {
    if cid.len() == 0 {
        Some(Rejection::CidEmpty)
    } else if cid.len() > MAX_CID_CHARS {
        Some(Rejection::CidTooLong)
    } else if !valid_cid(cid) {
        Some(Rejection::CidMalformed)
    } else {
        None
    }
}

/// Checks the reference, reporting the first violated rule.
pub fn check_cid(cid: &str) -> (r: Option<Rejection>)
    ensures
        r == cid_rejection(cid@),
{
    let n = cid.unicode_len();
    if n == 0 {
        Some(Rejection::CidEmpty)
    } else if n > MAX_CID_CHARS {
        Some(Rejection::CidTooLong)
    } else if !is_valid_cid(cid) {
        Some(Rejection::CidMalformed)
    } else {
        None
    }
}

// =====================
// Payload validation
// =====================

/// The first size rule a single payload violates, if any.
pub open spec fn payload_size_rejection(p: Seq<u8>) -> Option<Rejection> {
    if p.len() < MIN_PAYLOAD_BYTES {
        Some(Rejection::PayloadTooSmall)
    } else if p.len() > MAX_PAYLOAD_BYTES {
        Some(Rejection::PayloadTooLarge)
    } else {
        None
    }
}

/// The first size rule violated among `payloads[i..]`, if any.
pub open spec fn first_payload_size_rejection_from(payloads: Seq<Seq<u8>>, i: int) -> Option<
    Rejection,
>
    decreases payloads.len() - i when 0 <= i <= payloads.len()
{
    if i >= payloads.len() {
        None
    } else if payload_size_rejection(payloads[i]) is Some {
        payload_size_rejection(payloads[i])
    } else {
        first_payload_size_rejection_from(payloads, i + 1)
    }
}

/// The first reason the payload list is refused for its shape, if any.
pub open spec fn payload_rejection(payloads: Seq<Seq<u8>>) -> Option<Rejection> {
    if payloads.len() == 0 {
        Some(Rejection::NoPayloads)
    } else if payloads.len() > MAX_PAYLOAD_COUNT {
        Some(Rejection::TooManyPayloads)
    } else {
        first_payload_size_rejection_from(payloads, 0)
    }
}

/// Checks the payload list's shape, reporting the first violated rule.
pub fn check_payloads(payloads: &Vec<Vec<u8>>) -> (r: Option<Rejection>)
    ensures
        r == payload_rejection(payloads.deep_view()),
{
    let ghost dv = payloads.deep_view();
    assert(dv.len() == payloads@.len());
    let n = payloads.len();
    if n == 0 {
        return Some(Rejection::NoPayloads);
    }
    if n > MAX_PAYLOAD_COUNT {
        return Some(Rejection::TooManyPayloads);
    }
    let mut i: usize = 0;
    while i < n
        invariant
            dv == payloads.deep_view(),
            dv.len() == n,
            n == payloads@.len(),
            0 < n <= MAX_PAYLOAD_COUNT,
            0 <= i <= n,
            first_payload_size_rejection_from(dv, 0) == first_payload_size_rejection_from(
                dv,
                i as int,
            ),
        decreases n - i,
    {
        assert(dv[i as int] == payloads@[i as int]@);
        let len = payloads[i].len();
        if len < MIN_PAYLOAD_BYTES {
            assert(first_payload_size_rejection_from(dv, i as int) == Some(
                Rejection::PayloadTooSmall,
            ));
            return Some(Rejection::PayloadTooSmall);
        }
        if len > MAX_PAYLOAD_BYTES {
            assert(first_payload_size_rejection_from(dv, i as int) == Some(
                Rejection::PayloadTooLarge,
            ));
            return Some(Rejection::PayloadTooLarge);
        }
        i = i + 1;
    }
    None
}

/// Checks one payload against the size rules, with the rejection's message
/// as the error.
pub fn validate_metadata_content(data: &Vec<u8>) -> (r: Result<(), String>)
    ensures
        payload_size_rejection(data@) is None <==> r is Ok,
        r is Err ==> r->Err_0@ == rejection_text(payload_size_rejection(data@)->0),
{
    if data.len() < MIN_PAYLOAD_BYTES {
        Err(rejection_message(Rejection::PayloadTooSmall))
    } else if data.len() > MAX_PAYLOAD_BYTES {
        Err(rejection_message(Rejection::PayloadTooLarge))
    } else {
        Ok(())
    }
}

// =====================
// Upload validation
// =====================

/// The greatest accepted number of records per upload batch.
pub const MAX_UPLOAD_RECORDS: usize = 10000;

/// Checks a batch of decoded records: it must be non-empty and hold at
/// most 10,000 records of at most 1 MiB each.
pub fn validate_data(records: &Vec<Vec<u8>>) -> (r: Result<(), String>)
    ensures
        r is Ok <==> {
            &&& 0 < records.deep_view().len() <= MAX_UPLOAD_RECORDS
            &&& forall|k: int|
                0 <= k < records.deep_view().len() ==> (#[trigger] records.deep_view()[k]).len()
                    <= MAX_PAYLOAD_BYTES
        },
{
    let ghost dv = records.deep_view();
    let n = records.len();
    if n == 0 {
        return Err(String::from_str("the upload holds no records"));
    }
    if n > MAX_UPLOAD_RECORDS {
        return Err(String::from_str("the upload holds more than 10,000 records"));
    }
    let mut i: usize = 0;
    while i < n
        invariant
            dv == records.deep_view(),
            dv.len() == n,
            n == records@.len(),
            0 <= i <= n,
            forall|k: int| 0 <= k < i ==> (#[trigger] dv[k]).len() <= MAX_PAYLOAD_BYTES,
        decreases n - i,
    {
        assert(dv[i as int] == records@[i as int]@);
        if records[i].len() > MAX_PAYLOAD_BYTES {
            return Err(String::from_str("a record is larger than 1 MiB"));
        }
        i = i + 1;
    }
    Ok(())
}

/// Checks uploaded content against a size limit: empty content and content
/// over `max_size` bytes are refused.
pub fn validate_data_size(content: &Vec<u8>, max_size: usize) -> (r: Result<(), String>)
    ensures
        r is Ok <==> 0 < content@.len() <= max_size,
{
    if content.len() == 0 {
        Err(String::from_str("uploaded content is empty"))
    } else if content.len() > max_size {
        Err(String::from_str("uploaded content exceeds the size limit"))
    } else {
        Ok(())
    }
}

impl crate::types::UploadRequest {
    /// Checks the envelope of an upload before decoding: the content
    /// against the size limit, and the declared media type.
    pub fn validate(&self, max_size: usize) -> (r: Result<(), String>)
        ensures
            r is Ok <==> {
                &&& 0 < self.content@.len() <= max_size
                &&& (self.mime_type@ == "application/json"@ || self.mime_type@ == "text/csv"@)
            },
    {
        if let Err(e) = validate_data_size(&self.content, max_size) {
            return Err(e);
        }
        validate_mime_type(self.mime_type.as_str())
    }
}

/// Checks the declared media type: only JSON and CSV are accepted.
pub fn validate_mime_type(mime_type: &str) -> (r: Result<(), String>)
    ensures
        r is Ok <==> (mime_type@ == "application/json"@ || mime_type@ == "text/csv"@),
{
    if eq_str(mime_type, "application/json") || eq_str(mime_type, "text/csv") {
        Ok(())
    } else if str_is_blank(mime_type) {
        Err(String::from_str("media type is empty"))
    } else {
        Err(String::from_str("unsupported media type"))
    }
}

} // verus!
