//! The data model: records, mint requests, statuses and statistics.

use crate::identity::Principal;
use vstd::prelude::*;

verus! {

// =====================
// Errors
// =====================

/// The errors of the store and the pipeline.
#[derive(Debug, Clone, PartialEq, Eq)]
pub enum Error {
    /// The input is malformed (for ingestion: empty content).
    Validation,
    /// The content's digest has been consumed by a completed mint; the
    /// payload carries the record id that still holds the content, if any.
    AlreadyMinted(Option<u64>),
    /// The record's content has been minted and the record may not be
    /// deleted.
    Protected,
    /// No record or request with the given id exists.
    NotFound,
    /// The requested status change leaves the state machine.
    InvalidTransition,
}

// =====================
// Upload / record types
// =====================

/// An upload envelope: raw content and its declared media type.
pub struct UploadRequest {
    pub content: Vec<u8>,
    pub mime_type: String,
}

/// The response to an upload: one id per stored payload, little-endian.
pub struct UploadResponse {
    pub data: Vec<Vec<u8>>,
}

/// A stored payload with its metadata.
pub struct DataBlob {
    pub data: Vec<u8>,
    pub mime_type: String,
    pub timestamp: u64,
}

/// The mathematical content of a stored record.
pub ghost struct RecordView {
    pub data: Seq<u8>,
    pub mime_type: Seq<char>,
    pub timestamp: u64,
}

impl View for DataBlob {
    type V = RecordView;

    open spec fn view(&self) -> RecordView {
        RecordView { data: self.data@, mime_type: self.mime_type@, timestamp: self.timestamp }
    }
}

/// A record summary, as returned by listings.
pub struct DataInfo {
    pub id: u64,
    pub mime_type: String,
    pub timestamp: u64,
    pub size: u64,
}

// =====================
// Mint types
// =====================

/// A mint request: requester (or none for "the caller at submission"),
/// external reference string and the payloads to consume.
pub struct MintRequest {
    pub owner: Option<Principal>,
    pub cid: String,
    pub metadata: Vec<Vec<u8>>,
}

/// The mathematical content of a mint request.
pub ghost struct RequestView {
    pub owner: Option<Seq<u8>>,
    pub cid: Seq<char>,
    pub metadata: Seq<Seq<u8>>,
}

impl View for MintRequest {
    type V = RequestView;

    open spec fn view(&self) -> RequestView {
        RequestView {
            owner: match self.owner {
                Some(p) => Some(p@),
                None => None,
            },
            cid: self.cid@,
            metadata: self.metadata.deep_view(),
        }
    }
}

/// A stored mint request with its submission time.
pub struct MintRequestData {
    pub request: MintRequest,
    pub timestamp: u64,
}

/// The mathematical content of a stored mint request.
pub ghost struct RequestDataView {
    pub request: RequestView,
    pub timestamp: u64,
}

impl View for MintRequestData {
    type V = RequestDataView;

    open spec fn view(&self) -> RequestDataView {
        RequestDataView { request: self.request@, timestamp: self.timestamp }
    }
}

/// The state of a mint request.
#[derive(Debug, Clone, PartialEq, Eq)]
pub enum MintStatus {
    Pending,
    InProgress,
    Completed(u64),
    Failed(String),
}

/// The mathematical content of a mint status.
pub ghost enum StatusView {
    Pending,
    InProgress,
    Completed(u64),
    Failed(Seq<char>),
}

impl View for MintStatus {
    type V = StatusView;

    open spec fn view(&self) -> StatusView {
        match self {
            MintStatus::Pending => StatusView::Pending,
            MintStatus::InProgress => StatusView::InProgress,
            MintStatus::Completed(t) => StatusView::Completed(*t),
            MintStatus::Failed(m) => StatusView::Failed(m@),
        }
    }
}

/// The response to a mint submission.
pub struct RequestResponse {
    pub request_id: u64,
}

/// The reply of the mint authority on success.
pub struct MintResponse {
    pub token_id: u64,
}

/// A mint request summary, as returned by listings.
pub struct MintRequestInfo {
    pub request_id: u64,
    pub owner: Option<Principal>,
    pub cid: String,
    pub status: MintStatus,
    pub timestamp: u64,
}

// =====================
// Statistics
// =====================

/// Counters over all stores, recomputed on every query.
#[derive(Debug, Clone, PartialEq, Eq)]
pub struct StorageStats {
    pub total_uploads: u64,
    pub total_mint_requests: u64,
    pub pending_mints: u64,
    pub completed_mints: u64,
    pub failed_mints: u64,
    pub storage_size: u64,
}

// =====================
// Copy helpers
// =====================

/// A copy of a byte vector.
pub fn copy_bytes(v: &Vec<u8>) -> (r: Vec<u8>)
    ensures
        r@ == v@,
{
    let mut out: Vec<u8> = Vec::new();
    let n = v.len();
    let mut i: usize = 0;
    while i < n
        invariant
            n == v.len(),
            0 <= i <= n,
            out@ =~= v@.subrange(0, i as int),
        decreases n - i,
    {
        out.push(v[i]);
        i = i + 1;
    }
    assert(out@ =~= v@);
    out
}

/// A copy of a list of byte vectors.
pub fn copy_bytes_list(v: &Vec<Vec<u8>>) -> (r: Vec<Vec<u8>>)
    ensures
        r.deep_view() == v.deep_view(),
{
    let mut out: Vec<Vec<u8>> = Vec::new();
    let n = v.len();
    let mut i: usize = 0;
    while i < n
        invariant
            n == v.len(),
            0 <= i <= n,
            out@.len() == i,
            forall|k: int| 0 <= k < i ==> out@[k]@ == v@[k]@,
        decreases n - i,
    {
        out.push(copy_bytes(&v[i]));
        i = i + 1;
    }
    assert(out.deep_view() =~= v.deep_view());
    out
}

impl MintRequest {
    /// A copy of this request.
    pub fn duplicate(&self) -> (r: MintRequest)
        ensures
            r@ == self@,
    {
        let owner = match &self.owner {
            Some(p) => Some(p.duplicate()),
            None => None,
        };
        MintRequest {
            owner,
            cid: self.cid.clone(),
            metadata: copy_bytes_list(&self.metadata),
        }
    }
}

impl MintStatus {
    /// A copy of this status.
    pub fn duplicate(&self) -> (r: MintStatus)
        ensures
            r@ == self@,
    {
        match self {
            MintStatus::Pending => MintStatus::Pending,
            MintStatus::InProgress => MintStatus::InProgress,
            MintStatus::Completed(t) => MintStatus::Completed(*t),
            MintStatus::Failed(m) => MintStatus::Failed(m.clone()),
        }
    }
}

} // verus!
