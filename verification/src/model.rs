//! The mathematical model of the store and the mint pipeline.
//!
//! Every public operation of [`crate::storage::Storage`] is specified as a
//! function over [`StorageView`], the abstraction of the whole state; the
//! laws in [`crate::laws`] are proved over these functions.

use crate::hashing::digest_of;
use crate::identity::anonymous_bytes;
use crate::types::{Error, RecordView, RequestDataView, RequestView, StatusView};
use crate::validation::{cid_rejection, payload_rejection, rejection_text, Rejection};
use vstd::prelude::*;

verus! {

/// The abstract state: the records by id (position `i` holds id `i + 1`,
/// `None` once deleted), the set of minted digests with the request that
/// consumed each, and the mint requests with their statuses, likewise by id.
pub ghost struct StorageView {
    pub records: Seq<Option<RecordView>>,
    pub minted: Seq<(Seq<u8>, u64)>,
    pub requests: Seq<RequestDataView>,
    pub statuses: Seq<StatusView>,
}

impl StorageView {
    /// Well-formedness: every request has a status, no two live records hold
    /// content with the same digest, and no digest is recorded as minted
    /// twice.
    pub open spec fn wf(self) -> bool {
        &&& self.statuses.len() == self.requests.len()
        &&& forall|i: int, j: int|
            0 <= i < j < self.records.len() && self.records[i] is Some && self.records[j] is Some
                ==> digest_of((#[trigger] self.records[i])->0.data) != digest_of(
                (#[trigger] self.records[j])->0.data,
            )
        &&& forall|i: int, j: int|
            0 <= i < j < self.minted.len() ==> (#[trigger] self.minted[i]).0 != (
            #[trigger] self.minted[j]).0
    }

    /// Whether `id` names a live record.
    pub open spec fn live_record(self, id: u64) -> bool {
        &&& 1 <= id <= self.records.len()
        &&& self.records[id - 1] is Some
    }

    /// The content of live record `id`.
    pub open spec fn record_at(self, id: u64) -> RecordView
        recommends
            self.live_record(id),
    {
        self.records[id - 1]->0
    }

    /// The id of the first live record whose content has digest `d`.
    pub open spec fn lookup_record(self, d: Seq<u8>) -> Option<u64> {
        lookup_record_from(self.records, d, 0)
    }

    /// The request that consumed digest `d`, if any.
    pub open spec fn minted_by(self, d: Seq<u8>) -> Option<u64> {
        minted_lookup_from(self.minted, d, 0)
    }

    /// Whether digest `d` has been consumed by a completed mint.
    pub open spec fn is_minted(self, d: Seq<u8>) -> bool {
        self.minted_by(d) is Some
    }

    /// The id of the first request whose status is `Pending`.
    pub open spec fn first_pending(self) -> Option<u64> {
        match first_pending_from(self.statuses, 0) {
            Some(i) => Some((i + 1) as u64),
            None => None,
        }
    }

    /// The status of request `id`.
    pub open spec fn status_of(self, id: u64) -> Option<StatusView> {
        if 1 <= id <= self.statuses.len() {
            Some(self.statuses[id - 1])
        } else {
            None
        }
    }
}

// =====================
// Recursive lookups
// =====================

/// The id of the first live record at position `i` or later whose content
/// has digest `d`.
pub open spec fn lookup_record_from(
    records: Seq<Option<RecordView>>,
    d: Seq<u8>,
    i: int,
) -> Option<u64>
    decreases records.len() - i when 0 <= i <= records.len()
{
    if i >= records.len() {
        None
    } else if records[i] is Some && digest_of(records[i]->0.data) == d {
        Some((i + 1) as u64)
    } else {
        lookup_record_from(records, d, i + 1)
    }
}

/// The value of the first entry at position `i` or later whose key is `d`.
pub open spec fn minted_lookup_from(entries: Seq<(Seq<u8>, u64)>, d: Seq<u8>, i: int) -> Option<u64>
    decreases entries.len() - i when 0 <= i <= entries.len()
{
    if i >= entries.len() {
        None
    } else if entries[i].0 == d {
        Some(entries[i].1)
    } else {
        minted_lookup_from(entries, d, i + 1)
    }
}

/// The index of the first `Pending` status at position `i` or later.
pub open spec fn first_pending_from(statuses: Seq<StatusView>, i: int) -> Option<int>
    decreases statuses.len() - i when 0 <= i <= statuses.len()
{
    if i >= statuses.len() {
        None
    } else if statuses[i] is Pending {
        Some(i)
    } else {
        first_pending_from(statuses, i + 1)
    }
}

// =====================
// Transitions
// =====================

/// Ingestion of one payload: empty content is refused; minted content is
/// refused for good; known content answers with the id that already holds
/// it; fresh content is stored under the next id.
pub open spec fn spec_ingest(s: StorageView, data: Seq<u8>, mime: Seq<char>, now: u64) -> (
    StorageView,
    Result<u64, Error>,
) {
    if data.len() == 0 {
        (s, Err(Error::Validation))
    } else {
        let d = digest_of(data);
        if s.is_minted(d) {
            (s, Err(Error::AlreadyMinted(s.lookup_record(d))))
        } else if s.lookup_record(d) is Some {
            (s, Ok(s.lookup_record(d)->0))
        } else {
            let id = (s.records.len() + 1) as u64;
            let r = RecordView { data: data, mime_type: mime, timestamp: now };
            (StorageView { records: s.records.push(Some(r)), ..s }, Ok(id))
        }
    }
}

/// Deletion of a record: unknown ids are refused; a record whose content
/// has been minted is protected; otherwise the slot is cleared and the id
/// is never reused.
pub open spec fn spec_delete(s: StorageView, id: u64) -> (StorageView, Result<(), Error>) {
    if !s.live_record(id) {
        (s, Err(Error::NotFound))
    } else if s.is_minted(digest_of(s.record_at(id).data)) {
        (s, Err(Error::Protected))
    } else {
        (StorageView { records: s.records.update(id - 1, None), ..s }, Ok(()))
    }
}

/// The transitions the status state machine admits: a pending request is
/// claimed or refused, a claimed request completes or fails, and the
/// terminal states admit nothing.
pub open spec fn allowed_transition(from: StatusView, to: StatusView) -> bool {
    match (from, to) {
        (StatusView::Pending, StatusView::InProgress) => true,
        (StatusView::Pending, StatusView::Failed(_)) => true,
        (StatusView::InProgress, StatusView::Completed(_)) => true,
        (StatusView::InProgress, StatusView::Failed(_)) => true,
        _ => false,
    }
}

/// `minted` with one digest added under request `rid`, unless present.
pub open spec fn insert_minted(minted: Seq<(Seq<u8>, u64)>, d: Seq<u8>, rid: u64) -> Seq<
    (Seq<u8>, u64),
> {
    if minted_lookup_from(minted, d, 0) is Some {
        minted
    } else {
        minted.push((d, rid))
    }
}

/// `minted` with the digests of all of `payloads` added under request
/// `rid`, each exactly once.
pub open spec fn record_minted(
    minted: Seq<(Seq<u8>, u64)>,
    payloads: Seq<Seq<u8>>,
    rid: u64,
) -> Seq<(Seq<u8>, u64)>
    decreases payloads.len()
{
    if payloads.len() == 0 {
        minted
    } else {
        insert_minted(record_minted(minted, payloads.drop_last(), rid), digest_of(payloads.last()), rid)
    }
}

/// A status update: unknown ids are refused, transitions outside the state
/// machine are refused, and completion marks every payload digest of the
/// request as minted.
pub open spec fn spec_update_status(s: StorageView, id: u64, st: StatusView) -> (
    StorageView,
    Result<(), Error>,
) {
    if !(1 <= id <= s.statuses.len()) {
        (s, Err(Error::NotFound))
    } else if !allowed_transition(s.statuses[id - 1], st) {
        (s, Err(Error::InvalidTransition))
    } else {
        let minted = if st is Completed {
            record_minted(s.minted, s.requests[id - 1].request.metadata, id)
        } else {
            s.minted
        };
        (StorageView { statuses: s.statuses.update(id - 1, st), minted: minted, ..s }, Ok(()))
    }
}

/// One dispatcher tick: the first pending request, if any, is claimed —
/// flipped to `InProgress` — and handed out; with no pending request
/// nothing changes.
pub open spec fn spec_dispatch(s: StorageView) -> (StorageView, Option<(u64, RequestView)>) {
    match first_pending_from(s.statuses, 0) {
        Some(i) => (
            StorageView { statuses: s.statuses.update(i, StatusView::InProgress), ..s },
            Some(((i + 1) as u64, s.requests[i].request)),
        ),
        None => (s, None),
    }
}

/// The effective requester: the one named in the request, or the caller.
pub open spec fn effective_owner(owner: Option<Seq<u8>>, caller: Seq<u8>) -> Seq<u8> {
    match owner {
        Some(o) => o,
        None => caller,
    }
}

/// The first reason a submission is refused, if any: the reference, the
/// payload shapes, the requester's identity, then digests already minted.
pub open spec fn submit_rejection(
    s: StorageView,
    req: RequestView,
    caller: Seq<u8>,
) -> Option<Rejection> {
    if cid_rejection(req.cid) is Some {
        cid_rejection(req.cid)
    } else if payload_rejection(req.metadata) is Some {
        payload_rejection(req.metadata)
    } else if effective_owner(req.owner, caller) == anonymous_bytes() {
        Some(Rejection::AnonymousRequester)
    } else {
        minted_payload_rejection(s, req.metadata, 0)
    }
}

/// `PayloadAlreadyMinted` if any of `payloads[i..]` has a minted digest.
pub open spec fn minted_payload_rejection(
    s: StorageView,
    payloads: Seq<Seq<u8>>,
    i: int,
) -> Option<Rejection>
    decreases payloads.len() - i when 0 <= i <= payloads.len()
{
    if i >= payloads.len() {
        None
    } else if s.is_minted(digest_of(payloads[i])) {
        Some(Rejection::PayloadAlreadyMinted)
    } else {
        minted_payload_rejection(s, payloads, i + 1)
    }
}

/// The first reason a mint request's content is refused, if any: the
/// reference, the payload shapes, then digests already minted.  Unlike
/// [`submit_rejection`] this does not judge the requester's identity.
pub open spec fn mint_rejection(s: StorageView, cid: Seq<char>, payloads: Seq<Seq<u8>>) -> Option<
    Rejection,
> {
    if cid_rejection(cid) is Some {
        cid_rejection(cid)
    } else if payload_rejection(payloads) is Some {
        payload_rejection(payloads)
    } else {
        minted_payload_rejection(s, payloads, 0)
    }
}

/// A submission: the request is stored under the next id whatever the
/// outcome of validation; an accepted request starts `Pending`, a refused
/// one starts `Failed` with the first rejection's message.
pub open spec fn spec_submit(s: StorageView, req: RequestView, caller: Seq<u8>, now: u64) -> (
    StorageView,
    u64,
) {
    let id = (s.requests.len() + 1) as u64;
    let st = match submit_rejection(s, req, caller) {
        None => StatusView::Pending,
        Some(rej) => StatusView::Failed(rejection_text(rej)),
    };
    (
        StorageView {
            requests: s.requests.push(RequestDataView { request: req, timestamp: now }),
            statuses: s.statuses.push(st),
            ..s
        },
        id,
    )
}

/// Storing a request without validation: it is recorded under the next id
/// with status `Pending`.
pub open spec fn spec_store_request(s: StorageView, req: RequestView, now: u64) -> (
    StorageView,
    u64,
) {
    let id = (s.requests.len() + 1) as u64;
    (
        StorageView {
            requests: s.requests.push(RequestDataView { request: req, timestamp: now }),
            statuses: s.statuses.push(StatusView::Pending),
            ..s
        },
        id,
    )
}

/// Ingestion of `items[i..]` in order, stopping at the first refusal;
/// payloads stored before a refusal stay stored.
pub open spec fn spec_ingest_all(
    s: StorageView,
    items: Seq<Seq<u8>>,
    mime: Seq<char>,
    now: u64,
    i: int,
) -> (StorageView, Result<Seq<u64>, Error>)
    decreases items.len() - i when 0 <= i <= items.len()
{
    if i >= items.len() {
        (s, Ok(Seq::empty()))
    } else {
        let (s1, r1) = spec_ingest(s, items[i], mime, now);
        match r1 {
            Err(e) => (s1, Err(e)),
            Ok(id) => {
                let (s2, r2) = spec_ingest_all(s1, items, mime, now, i + 1);
                match r2 {
                    Ok(ids) => (s2, Ok(seq![id] + ids)),
                    Err(e) => (s2, Err(e)),
                }
            },
        }
    }
}

/// The live records at position `i` or later, each with its id.
pub open spec fn live_entries_from(records: Seq<Option<RecordView>>, i: int) -> Seq<
    (u64, RecordView),
>
    decreases records.len() - i when 0 <= i <= records.len()
{
    if i >= records.len() {
        Seq::empty()
    } else if records[i] is Some {
        seq![(((i + 1) as u64), records[i]->0)] + live_entries_from(records, i + 1)
    } else {
        live_entries_from(records, i + 1)
    }
}

// =====================
// Counting
// =====================

/// How many of `statuses` are `Pending` or `InProgress`.
pub open spec fn count_open(statuses: Seq<StatusView>) -> int
    decreases statuses.len()
{
    if statuses.len() == 0 {
        0
    } else {
        count_open(statuses.drop_last()) + if statuses.last() is Pending || statuses.last()
            is InProgress {
            1int
        } else {
            0int
        }
    }
}

/// How many of `statuses` are `Completed`.
pub open spec fn count_completed(statuses: Seq<StatusView>) -> int
    decreases statuses.len()
{
    if statuses.len() == 0 {
        0
    } else {
        count_completed(statuses.drop_last()) + if statuses.last() is Completed {
            1int
        } else {
            0int
        }
    }
}

/// How many of `statuses` are `Failed`.
pub open spec fn count_failed(statuses: Seq<StatusView>) -> int
    decreases statuses.len()
{
    if statuses.len() == 0 {
        0
    } else {
        count_failed(statuses.drop_last()) + if statuses.last() is Failed {
            1int
        } else {
            0int
        }
    }
}

/// The total size in bytes of the live records.
pub open spec fn size_sum(records: Seq<Option<RecordView>>) -> int
    decreases records.len()
{
    if records.len() == 0 {
        0
    } else {
        size_sum(records.drop_last()) + if records.last() is Some {
            records.last()->0.data.len() as int
        } else {
            0int
        }
    }
}

// =====================
// Lemmas about the lookups
// =====================

/// When the record lookup finds nothing, no live record holds the digest.
pub proof fn lemma_lookup_record_none(records: Seq<Option<RecordView>>, d: Seq<u8>, i: int)
    requires
        0 <= i <= records.len(),
        lookup_record_from(records, d, i) is None,
    ensures
        forall|j: int|
            i <= j < records.len() && records[j] is Some ==> digest_of(
                (#[trigger] records[j])->0.data,
            ) != d,
    decreases records.len() - i,
{
    if i < records.len() {
        lemma_lookup_record_none(records, d, i + 1);
    }
}

/// Appending a record does not change the lookup of other digests, and
/// makes the new record's digest found once it was not.
pub proof fn lemma_lookup_record_push(
    records: Seq<Option<RecordView>>,
    rv: RecordView,
    key: Seq<u8>,
    i: int,
)
    requires
        0 <= i <= records.len(),
    ensures
        lookup_record_from(records.push(Some(rv)), key, i) == if lookup_record_from(
            records,
            key,
            i,
        ) is Some {
            lookup_record_from(records, key, i)
        } else if digest_of(rv.data) == key {
            Some(((records.len() + 1) as u64))
        } else {
            None::<u64>
        },
    decreases records.len() - i,
{
    let pushed = records.push(Some(rv));
    assert(pushed.len() == records.len() + 1);
    if i < records.len() {
        assert(pushed[i] == records[i]);
        lemma_lookup_record_push(records, rv, key, i + 1);
    } else {
        assert(pushed[i] == Some(rv));
        assert(lookup_record_from(records, key, i) is None);
        if digest_of(rv.data) == key {
            assert(lookup_record_from(pushed, key, i) == Some(((i + 1) as u64)));
        } else {
            assert(lookup_record_from(pushed, key, i) == lookup_record_from(pushed, key, i + 1));
            assert(lookup_record_from(pushed, key, i + 1) is None);
        }
    }
}

/// When the minted lookup finds nothing, no entry holds the key.
pub proof fn lemma_minted_lookup_none(entries: Seq<(Seq<u8>, u64)>, d: Seq<u8>, i: int)
    requires
        0 <= i <= entries.len(),
        minted_lookup_from(entries, d, i) is None,
    ensures
        forall|j: int| i <= j < entries.len() ==> (#[trigger] entries[j]).0 != d,
    decreases entries.len() - i,
{
    if i < entries.len() {
        lemma_minted_lookup_none(entries, d, i + 1);
    }
}

/// Appending an entry with a fresh key does not change the lookup of other
/// keys, and makes the fresh key found.
pub proof fn lemma_minted_lookup_push(
    entries: Seq<(Seq<u8>, u64)>,
    d: Seq<u8>,
    rid: u64,
    key: Seq<u8>,
    i: int,
)
    requires
        0 <= i <= entries.len(),
    ensures
        minted_lookup_from(entries.push((d, rid)), key, i) == if minted_lookup_from(
            entries,
            key,
            i,
        ) is Some {
            minted_lookup_from(entries, key, i)
        } else if key == d {
            Some(rid)
        } else {
            None::<u64>
        },
    decreases entries.len() - i,
{
    let pushed = entries.push((d, rid));
    assert(pushed.len() == entries.len() + 1);
    if i < entries.len() {
        assert(pushed[i] == entries[i]);
        lemma_minted_lookup_push(entries, d, rid, key, i + 1);
    } else {
        assert(pushed[i] == (d, rid));
        assert(minted_lookup_from(entries, key, i) is None);
        if key == d {
            assert(minted_lookup_from(pushed, key, i) == Some(rid));
        } else {
            assert(minted_lookup_from(pushed, key, i) == minted_lookup_from(pushed, key, i + 1));
            assert(minted_lookup_from(pushed, key, i + 1) is None);
        }
    }
}

/// What the pending scan finds: the first pending index.
pub proof fn lemma_first_pending_some(statuses: Seq<StatusView>, i: int, p: int)
    requires
        0 <= i <= statuses.len(),
        first_pending_from(statuses, i) == Some(p),
    ensures
        i <= p < statuses.len(),
        statuses[p] is Pending,
        forall|j: int| i <= j < p ==> !((#[trigger] statuses[j]) is Pending),
    decreases statuses.len() - i,
{
    if i < statuses.len() && !(statuses[i] is Pending) {
        lemma_first_pending_some(statuses, i + 1, p);
    }
}

/// Recording digests as minted keeps every key that was already found, adds
/// the digest of every payload, and adds nothing else.
pub proof fn lemma_record_minted(
    minted: Seq<(Seq<u8>, u64)>,
    payloads: Seq<Seq<u8>>,
    rid: u64,
    key: Seq<u8>,
)
    ensures
        minted_lookup_from(minted, key, 0) is Some ==> minted_lookup_from(
            record_minted(minted, payloads, rid),
            key,
            0,
        ) == minted_lookup_from(minted, key, 0),
        (exists|j: int| 0 <= j < payloads.len() && digest_of(#[trigger] payloads[j]) == key)
            ==> minted_lookup_from(record_minted(minted, payloads, rid), key, 0) is Some,
        minted_lookup_from(minted, key, 0) is None && !(exists|j: int|
            0 <= j < payloads.len() && digest_of(#[trigger] payloads[j]) == key)
            ==> minted_lookup_from(record_minted(minted, payloads, rid), key, 0) is None,
    decreases payloads.len(),
{
    if payloads.len() > 0 {
        let rest = payloads.drop_last();
        let last = payloads.last();
        let dl = digest_of(last);
        lemma_record_minted(minted, rest, rid, key);
        lemma_record_minted(minted, rest, rid, dl);
        let before = record_minted(minted, rest, rid);
        if minted_lookup_from(before, dl, 0) is Some {
        } else {
            lemma_minted_lookup_push(before, dl, rid, key, 0);
        }
        assert forall|j: int|
            0 <= j < payloads.len() && digest_of(#[trigger] payloads[j]) == key implies (
        minted_lookup_from(record_minted(minted, payloads, rid), key, 0) is Some) by {
            if j < rest.len() {
                assert(rest[j] == payloads[j]);
                lemma_record_minted(minted, rest, rid, key);
                if minted_lookup_from(before, key, 0) is Some {
                    if minted_lookup_from(before, dl, 0) is Some {
                    } else {
                        lemma_minted_lookup_push(before, dl, rid, key, 0);
                    }
                }
            } else {
                assert(payloads[j] == last);
            }
        }
    }
}

/// Recording digests as minted keeps the keys pairwise distinct.
pub proof fn lemma_record_minted_unique(
    minted: Seq<(Seq<u8>, u64)>,
    payloads: Seq<Seq<u8>>,
    rid: u64,
)
    requires
        forall|i: int, j: int|
            0 <= i < j < minted.len() ==> (#[trigger] minted[i]).0 != (#[trigger] minted[j]).0,
    ensures
        forall|i: int, j: int|
            0 <= i < j < record_minted(minted, payloads, rid).len() ==> (#[trigger] record_minted(
                minted,
                payloads,
                rid,
            )[i]).0 != (#[trigger] record_minted(minted, payloads, rid)[j]).0,
    decreases payloads.len(),
{
    if payloads.len() > 0 {
        let rest = payloads.drop_last();
        let dl = digest_of(payloads.last());
        lemma_record_minted_unique(minted, rest, rid);
        let before = record_minted(minted, rest, rid);
        if minted_lookup_from(before, dl, 0) is Some {
        } else {
            lemma_minted_lookup_none(before, dl, 0);
            let after = before.push((dl, rid));
            assert forall|i: int, j: int| 0 <= i < j < after.len() implies (
            #[trigger] after[i]).0 != (#[trigger] after[j]).0 by {
                if j < before.len() {
                    assert(after[i] == before[i] && after[j] == before[j]);
                } else {
                    assert(after[j] == (dl, rid));
                    assert(after[i] == before[i]);
                }
            }
        }
    }
}

} // verus!
