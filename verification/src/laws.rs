//! The laws of the store and the pipeline, proved over the model.
//!
//! Each proof function here states one guarantee of the library as a whole,
//! over the transition functions of [`crate::model`] that the executable
//! operations are specified by.

use crate::hashing::digest_of;
use crate::model::{
    lemma_first_pending_some, lemma_lookup_record_push, lemma_record_minted, spec_delete,
    spec_dispatch, spec_ingest, spec_update_status, first_pending_from, StorageView,
};
use crate::types::{Error, StatusView};
use vstd::prelude::*;

verus! {

/// Law: ingestion is idempotent.  When ingesting some content succeeds,
/// ingesting the same content again — whatever the declared media type or
/// the clock says — returns the same record id and changes nothing.
pub proof fn lemma_ingest_idempotent(
    s: StorageView,
    data: Seq<u8>,
    mime1: Seq<char>,
    t1: u64,
    mime2: Seq<char>,
    t2: u64,
)
    requires
        s.wf(),
        spec_ingest(s, data, mime1, t1).1 is Ok,
    ensures
        ({
            let (s1, r1) = spec_ingest(s, data, mime1, t1);
            spec_ingest(s1, data, mime2, t2) == (s1, r1)
        }),
{
    let (s1, r1) = spec_ingest(s, data, mime1, t1);
    let d = digest_of(data);
    if s.lookup_record(d) is Some {
    } else {
        lemma_lookup_record_push(s.records, s1.records.last()->0, d, 0);
    }
}

/// Law: the record store never holds the same content twice.  Two live
/// records with equal bytes are the same record, so a listing holds
/// exactly one entry per stored content.
pub proof fn lemma_unique_content(s: StorageView, i: int, j: int)
    requires
        s.wf(),
        0 <= i < s.records.len(),
        0 <= j < s.records.len(),
        s.records[i] is Some,
        s.records[j] is Some,
        s.records[i]->0.data == s.records[j]->0.data,
    ensures
        i == j,
{
    if i < j {
        assert(digest_of(s.records[i]->0.data) != digest_of(s.records[j]->0.data));
    }
    if j < i {
        assert(digest_of(s.records[j]->0.data) != digest_of(s.records[i]->0.data));
    }
}

/// Law: a completed mint blocks re-ingestion.  Once a claimed request
/// holding payload `p` completes, ingesting `p` is refused with
/// `AlreadyMinted` and changes nothing — whether or not `p` was ever
/// stored as a record.
pub proof fn lemma_completion_blocks_reingestion(
    s: StorageView,
    id: u64,
    token: u64,
    k: int,
    mime: Seq<char>,
    now: u64,
)
    requires
        s.wf(),
        1 <= id <= s.statuses.len(),
        s.statuses[id - 1] is InProgress,
        0 <= k < s.requests[id - 1].request.metadata.len(),
        s.requests[id - 1].request.metadata[k].len() > 0,
    ensures
        spec_update_status(s, id, StatusView::Completed(token)).1 is Ok,
        ({
            let t = spec_update_status(s, id, StatusView::Completed(token)).0;
            let p = s.requests[id - 1].request.metadata[k];
            spec_ingest(t, p, mime, now) == (
                t,
                Err::<u64, Error>(Error::AlreadyMinted(t.lookup_record(digest_of(p)))),
            )
        }),
{
    let t = spec_update_status(s, id, StatusView::Completed(token)).0;
    let p = s.requests[id - 1].request.metadata[k];
    lemma_record_minted(s.minted, s.requests[id - 1].request.metadata, id, digest_of(p));
}

/// Law: a completed mint protects its records.  Once a claimed request
/// holding the content of live record `rid` completes, deleting that
/// record is refused with `Protected` and changes nothing.
pub proof fn lemma_completion_protects_record(
    s: StorageView,
    id: u64,
    token: u64,
    k: int,
    rid: u64,
)
    requires
        s.wf(),
        1 <= id <= s.statuses.len(),
        s.statuses[id - 1] is InProgress,
        0 <= k < s.requests[id - 1].request.metadata.len(),
        s.live_record(rid),
        s.record_at(rid).data == s.requests[id - 1].request.metadata[k],
    ensures
        ({
            let t = spec_update_status(s, id, StatusView::Completed(token)).0;
            spec_delete(t, rid) == (t, Err::<(), Error>(Error::Protected))
        }),
{
    let t = spec_update_status(s, id, StatusView::Completed(token)).0;
    let p = s.requests[id - 1].request.metadata[k];
    lemma_record_minted(s.minted, s.requests[id - 1].request.metadata, id, digest_of(p));
    assert(t.records == s.records);
    assert(t.is_minted(digest_of(t.record_at(rid).data)));
}

/// Law: no double dispatch.  A tick with no pending request changes
/// nothing, and two consecutive ticks never claim the same request: the
/// first tick flips its pick to `InProgress` before anything else happens,
/// so the second tick's pick is a different request.
pub proof fn lemma_no_double_dispatch(s: StorageView)
    requires
        s.wf(),
        s.statuses.len() <= u64::MAX,
    ensures
        spec_dispatch(s).1 is None ==> spec_dispatch(s).0 == s,
        ({
            let (s1, r1) = spec_dispatch(s);
            match (r1, spec_dispatch(s1).1) {
                (Some(a), Some(b)) => a.0 != b.0,
                _ => true,
            }
        }),
{
    let (s1, r1) = spec_dispatch(s);
    match first_pending_from(s.statuses, 0) {
        Some(i) => {
            lemma_first_pending_some(s.statuses, 0, i);
            match first_pending_from(s1.statuses, 0) {
                Some(p) => {
                    lemma_first_pending_some(s1.statuses, 0, p);
                    assert(s1.statuses[i] is InProgress);
                    assert(p != i);
                },
                None => {},
            }
        },
        None => {},
    }
}

/// Law: the terminal states are final.  A request whose status is
/// `Completed` or `Failed` admits no status change — every attempt is
/// refused with `InvalidTransition` and changes nothing — and no
/// dispatcher tick ever touches it.
pub proof fn lemma_terminal_is_final(s: StorageView, id: u64, st: StatusView)
    requires
        s.wf(),
        1 <= id <= s.statuses.len(),
        s.statuses[id - 1] is Completed || s.statuses[id - 1] is Failed,
    ensures
        spec_update_status(s, id, st) == (s, Err::<(), Error>(Error::InvalidTransition)),
        spec_dispatch(s).0.statuses[id - 1] == s.statuses[id - 1],
{
    match first_pending_from(s.statuses, 0) {
        Some(i) => {
            lemma_first_pending_some(s.statuses, 0, i);
            assert(i != id - 1);
        },
        None => {},
    }
}

} // verus!
