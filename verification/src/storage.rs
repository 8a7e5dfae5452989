//! The store: records, minted digests, mint requests and statuses.

use crate::hashing::{calculate_data_hash, digest_of, DataHash};
use crate::identity::Principal;
use crate::model::{
    count_completed, count_failed, count_open, first_pending_from, lookup_record_from,
    effective_owner, live_entries_from, minted_lookup_from, size_sum, spec_delete, spec_dispatch,
    mint_rejection, spec_ingest, spec_ingest_all, spec_store_request, spec_submit,
    spec_update_status, submit_rejection, allowed_transition, record_minted, insert_minted,
    minted_payload_rejection, lemma_lookup_record_none, lemma_record_minted_unique, StorageView,
};
use crate::types::{
    copy_bytes, copy_bytes_list, DataBlob, DataInfo, Error, MintRequest, MintRequestData,
    MintRequestInfo, MintStatus, RecordView, RequestDataView, RequestResponse, StatusView,
    StorageStats,
};
use vstd::prelude::*;
use vstd::string::StringExecFns;

verus! {

/// A stored record: the payload with its metadata, and its content digest,
/// computed once at ingestion.
struct StoredRecord {
    blob: DataBlob,
    digest: DataHash,
}

/// The whole state: the record store (position `i` holds record id `i + 1`;
/// a deleted record leaves `None` behind, so ids are never reused), the
/// minted digests, and the mint requests with their statuses (position `i`
/// holds request id `i + 1`; requests are never deleted).
pub struct Storage {
    records: Vec<Option<StoredRecord>>,
    minted: Vec<(DataHash, u64)>,
    requests: Vec<MintRequestData>,
    statuses: Vec<MintStatus>,
}

impl View for Storage {
    type V = StorageView;

    closed spec fn view(&self) -> StorageView {
        StorageView {
            records: self.records@.map_values(
                |o: Option<StoredRecord>|
                    match o {
                        Some(r) => Some(r.blob@),
                        None => None,
                    },
            ),
            minted: self.minted@.map_values(|p: (DataHash, u64)| (p.0@, p.1)),
            requests: self.requests@.map_values(|r: MintRequestData| r@),
            statuses: self.statuses@.map_values(|s: MintStatus| s@),
        }
    }
}

impl Storage {
    /// Internal soundness: the view is well-formed and every stored digest
    /// is the digest of its record's content.
    pub closed spec fn inv(&self) -> bool {
        &&& self@.wf()
        &&& forall|i: int|
            0 <= i < self.records@.len() && self.records@[i] is Some ==> (
            #[trigger] self.records@[i])->0.digest@ == digest_of(self.records@[i]->0.blob.data@)
    }

    /// A fresh, empty store.
    pub fn new() -> (r: Storage)
        ensures
            r.inv(),
            r@.records.len() == 0,
            r@.minted.len() == 0,
            r@.requests.len() == 0,
            r@.statuses.len() == 0,
    {
        let r = Storage { records: Vec::new(), minted: Vec::new(), requests: Vec::new(), statuses: Vec::new() };
        assert(r@.records =~= Seq::<Option<RecordView>>::empty());
        assert(r@.minted =~= Seq::<(Seq<u8>, u64)>::empty());
        assert(r@.requests =~= Seq::<RequestDataView>::empty());
        assert(r@.statuses =~= Seq::<StatusView>::empty());
        r
    }

    /// The id of the first live record whose content has digest `h`, by a
    /// scan of the record store.
    fn find_record(&self, h: &DataHash) -> (r: Option<u64>)
        requires
            self.inv(),
        ensures
            r == self@.lookup_record(h@),
    {
        let n = self.records.len();
        let mut i: usize = 0;
        while i < n
            invariant
                self.inv(),
                n == self.records@.len(),
                n == self@.records.len(),
                0 <= i <= n,
                lookup_record_from(self@.records, h@, 0) == lookup_record_from(
                    self@.records,
                    h@,
                    i as int,
                ),
            decreases n - i,
        {
            assert(self@.records[i as int] == match self.records@[i as int] {
                Some(r) => Some(r.blob@),
                None => None::<RecordView>,
            });
            match &self.records[i] {
                Some(rec) => {
                    if rec.digest.same_as(h) {
                        assert(rec.digest@ == digest_of(rec.blob.data@));
                        assert(digest_of(self@.records[i as int]->0.data) == h@);
                        return Some((i as u64) + 1);
                    } else {
                        assert(digest_of(self@.records[i as int]->0.data) != h@);
                    }
                },
                None => {},
            }
            i = i + 1;
        }
        None
    }

    /// The request that consumed digest `h`, if any, by a scan of the
    /// minted set.
    fn find_minted(&self, h: &DataHash) -> (r: Option<u64>)
        ensures
            r == self@.minted_by(h@),
    {
        let n = self.minted.len();
        let mut i: usize = 0;
        while i < n
            invariant
                n == self.minted@.len(),
                n == self@.minted.len(),
                0 <= i <= n,
                minted_lookup_from(self@.minted, h@, 0) == minted_lookup_from(
                    self@.minted,
                    h@,
                    i as int,
                ),
            decreases n - i,
        {
            assert(self@.minted[i as int] == (self.minted@[i as int].0@, self.minted@[
                i as int].1));
            if self.minted[i].0.same_as(h) {
                return Some(self.minted[i].1);
            }
            i = i + 1;
        }
        None
    }

    /// The id of the record already holding content `data`, if any.
    pub fn check_data_exists(&self, data: &[u8]) -> (r: Option<u64>)
        requires
            self.inv(),
        ensures
            r == self@.lookup_record(digest_of(data@)),
    {
        let h = calculate_data_hash(data);
        self.find_record(&h)
    }

    /// Whether content `data` has been consumed by a completed mint.
    pub fn check_data_minted(&self, data: &[u8]) -> (r: bool)
        requires
            self.inv(),
        ensures
            r == self@.is_minted(digest_of(data@)),
    {
        let h = calculate_data_hash(data);
        self.find_minted(&h).is_some()
    }

    /// For each payload: the record already holding it, and whether it has
    /// been minted.
    pub fn check_multiple_data_status(&self, data_list: &Vec<Vec<u8>>) -> (r: Vec<
        (Option<u64>, bool),
    >)
        requires
            self.inv(),
        ensures
            r@.len() == data_list@.len(),
            forall|k: int|
                0 <= k < data_list@.len() ==> #[trigger] r@[k] == (
                    self@.lookup_record(digest_of(data_list@[k]@)),
                    self@.is_minted(digest_of(data_list@[k]@)),
                ),
    {
        let n = data_list.len();
        let mut out: Vec<(Option<u64>, bool)> = Vec::new();
        let mut i: usize = 0;
        while i < n
            invariant
                self.inv(),
                n == data_list@.len(),
                0 <= i <= n,
                out@.len() == i,
                forall|k: int|
                    0 <= k < i ==> #[trigger] out@[k] == (
                        self@.lookup_record(digest_of(data_list@[k]@)),
                        self@.is_minted(digest_of(data_list@[k]@)),
                    ),
            decreases n - i,
        {
            let exists_id = self.check_data_exists(data_list[i].as_slice());
            let minted = self.check_data_minted(data_list[i].as_slice());
            out.push((exists_id, minted));
            i = i + 1;
        }
        out
    }

    /// The content of record `data_id`, if it is live.
    pub fn get_uploaded_data(&self, data_id: u64) -> (r: Option<Vec<u8>>)
        ensures
            match r {
                Some(v) => self@.live_record(data_id) && v@ == self@.record_at(data_id).data,
                None => !self@.live_record(data_id),
            },
    {
        if data_id == 0 {
            return None;
        }
        let n = self.records.len();
        if data_id > n as u64 {
            return None;
        }
        let idx = (data_id - 1) as usize;
        assert(self@.records[data_id - 1] == match self.records@[data_id - 1] {
            Some(r) => Some(r.blob@),
            None => None::<RecordView>,
        });
        match &self.records[idx] {
            Some(rec) => Some(copy_bytes(&rec.blob.data)),
            None => None,
        }
    }

    /// Whether record `data_id` is live.
    pub fn data_id_exists(&self, data_id: u64) -> (r: bool)
        ensures
            r == self@.live_record(data_id),
    {
        if data_id == 0 {
            return false;
        }
        let n = self.records.len();
        if data_id > n as u64 {
            return false;
        }
        let idx = (data_id - 1) as usize;
        assert(self@.records[data_id - 1] == match self.records@[data_id - 1] {
            Some(r) => Some(r.blob@),
            None => None::<RecordView>,
        });
        match &self.records[idx] {
            Some(_) => true,
            None => false,
        }
    }

    /// Checks that every one of `data_ids` names a live record; fails with
    /// `NotFound` on the first that does not.
    pub fn validate_data_ids_exist(&self, data_ids: &Vec<u64>) -> (r: Result<(), Error>)
        ensures
            r is Ok <==> forall|k: int|
                0 <= k < data_ids@.len() ==> self@.live_record(#[trigger] data_ids@[k]),
            r is Err ==> r == Err::<(), Error>(Error::NotFound),
    {
        let n = data_ids.len();
        let mut i: usize = 0;
        while i < n
            invariant
                n == data_ids@.len(),
                0 <= i <= n,
                forall|k: int| 0 <= k < i ==> self@.live_record(#[trigger] data_ids@[k]),
            decreases n - i,
        {
            if !self.data_id_exists(data_ids[i]) {
                return Err(Error::NotFound);
            }
            i = i + 1;
        }
        Ok(())
    }

    /// Checks that every one of `data_ids` names a live record whose
    /// content has not been minted: `NotFound` on the first unknown id,
    /// `AlreadyMinted` on the first minted one.
    pub fn validate_data_not_minted(&self, data_ids: &Vec<u64>) -> (r: Result<(), Error>)
        requires
            self.inv(),
        ensures
            r is Ok <==> forall|k: int|
                0 <= k < data_ids@.len() ==> {
                    &&& self@.live_record(#[trigger] data_ids@[k])
                    &&& !self@.is_minted(digest_of(self@.record_at(data_ids@[k]).data))
                },
            r is Err ==> (r == Err::<(), Error>(Error::NotFound) || (exists|k: int|
                0 <= k < data_ids@.len() && self@.live_record(#[trigger] data_ids@[k])
                    && self@.is_minted(digest_of(self@.record_at(data_ids@[k]).data)) && r == Err::<
                (),
                Error,
            >(Error::AlreadyMinted(Some(data_ids@[k]))))),
    {
        let n = data_ids.len();
        let mut i: usize = 0;
        while i < n
            invariant
                self.inv(),
                n == data_ids@.len(),
                0 <= i <= n,
                forall|k: int|
                    0 <= k < i ==> {
                        &&& self@.live_record(#[trigger] data_ids@[k])
                        &&& !self@.is_minted(digest_of(self@.record_at(data_ids@[k]).data))
                    },
            decreases n - i,
        {
            let id = data_ids[i];
            match self.get_uploaded_data(id) {
                None => {
                    return Err(Error::NotFound);
                },
                Some(data) => {
                    if self.check_data_minted(&data) {
                        return Err(Error::AlreadyMinted(Some(id)));
                    }
                },
            }
            i = i + 1;
        }
        Ok(())
    }

    /// The summary of record `data_id`, if it is live.
    pub fn get_uploaded_data_info(&self, data_id: u64) -> (r: Option<DataInfo>)
        ensures
            match r {
                Some(info) => {
                    &&& self@.live_record(data_id)
                    &&& info.id == data_id
                    &&& info.mime_type@ == self@.record_at(data_id).mime_type
                    &&& info.timestamp == self@.record_at(data_id).timestamp
                    &&& info.size == self@.record_at(data_id).data.len()
                },
                None => !self@.live_record(data_id),
            },
    {
        if data_id == 0 {
            return None;
        }
        let n = self.records.len();
        if data_id > n as u64 {
            return None;
        }
        let idx = (data_id - 1) as usize;
        assert(self@.records[data_id - 1] == match self.records@[data_id - 1] {
            Some(r) => Some(r.blob@),
            None => None::<RecordView>,
        });
        match &self.records[idx] {
            Some(rec) => Some(
                DataInfo {
                    id: data_id,
                    mime_type: rec.blob.mime_type.clone(),
                    timestamp: rec.blob.timestamp,
                    size: rec.blob.data.len() as u64,
                },
            ),
            None => None,
        }
    }

    /// The summaries of those of `data_ids` that are live, in order.
    pub fn get_multiple_data_info(&self, data_ids: &Vec<u64>) -> (r: Vec<DataInfo>)
        ensures
            r@.len() <= data_ids@.len(),
            forall|k: int|
                0 <= k < r@.len() ==> self@.live_record((#[trigger] r@[k]).id),
    {
        let n = data_ids.len();
        let mut out: Vec<DataInfo> = Vec::new();
        let mut i: usize = 0;
        while i < n
            invariant
                n == data_ids@.len(),
                0 <= i <= n,
                out@.len() <= i,
                forall|k: int|
                    0 <= k < out@.len() ==> self@.live_record((#[trigger] out@[k]).id),
            decreases n - i,
        {
            match self.get_uploaded_data_info(data_ids[i]) {
                Some(info) => out.push(info),
                None => (),
            }
            i = i + 1;
        }
        out
    }

    /// The status of request `request_id`, if it exists.
    pub fn get_mint_status(&self, request_id: u64) -> (r: Option<MintStatus>)
        ensures
            match r {
                Some(st) => self@.status_of(request_id) == Some(st@),
                None => self@.status_of(request_id) is None,
            },
    {
        if request_id == 0 {
            return None;
        }
        let n = self.statuses.len();
        if request_id > n as u64 {
            return None;
        }
        let idx = (request_id - 1) as usize;
        assert(self@.statuses[request_id - 1] == self.statuses@[request_id - 1]@);
        Some(self.statuses[idx].duplicate())
    }

    /// The request stored under `request_id`, if it exists.
    pub fn get_mint_request(&self, request_id: u64) -> (r: Option<MintRequest>)
        ensures
            match r {
                Some(req) => {
                    &&& 1 <= request_id <= self@.requests.len()
                    &&& req@ == self@.requests[request_id - 1].request
                },
                None => !(1 <= request_id <= self@.requests.len()),
            },
    {
        if request_id == 0 {
            return None;
        }
        let n = self.requests.len();
        if request_id > n as u64 {
            return None;
        }
        let idx = (request_id - 1) as usize;
        assert(self@.requests[request_id - 1] == self.requests@[request_id - 1]@);
        Some(self.requests[idx].request.duplicate())
    }

    /// The first request whose status is `Pending`, with its id; the scan
    /// runs in ascending id order, which is submission order.
    pub fn get_next_pending_mint(&self) -> (r: Option<(u64, MintRequest)>)
        requires
            self.inv(),
        ensures
            match r {
                Some(p) => {
                    &&& self@.first_pending() == Some(p.0)
                    &&& 1 <= p.0 <= self@.requests.len()
                    &&& p.1@ == self@.requests[p.0 - 1].request
                },
                None => self@.first_pending() is None,
            },
    {
        let n = self.statuses.len();
        let mut i: usize = 0;
        while i < n
            invariant
                self.inv(),
                n == self.statuses@.len(),
                n == self@.statuses.len(),
                0 <= i <= n,
                first_pending_from(self@.statuses, 0) == first_pending_from(
                    self@.statuses,
                    i as int,
                ),
            decreases n - i,
        {
            assert(self@.statuses[i as int] == self.statuses@[i as int]@);
            let is_pending = match &self.statuses[i] {
                MintStatus::Pending => true,
                _ => false,
            };
            if is_pending {
                assert(self@.requests.len() == self@.statuses.len());
                assert(self@.requests[i as int] == self.requests@[i as int]@);
                let req = self.requests[i].request.duplicate();
                assert(first_pending_from(self@.statuses, i as int) == Some(i as int));
                return Some(((i as u64) + 1, req));
            }
            i = i + 1;
        }
        None
    }

    /// Stores one payload, deduplicated by content digest.  Empty content
    /// is refused; minted content is refused for good; content already
    /// stored answers with the id that holds it; fresh content is stored
    /// under the next id.
    pub fn ingest(&mut self, data: Vec<u8>, mime_type: &str, now: u64) -> (r: Result<u64, Error>)
        requires
            old(self).inv(),
            old(self)@.records.len() < u64::MAX,
        ensures
            final(self).inv(),
            final(self)@ == spec_ingest(old(self)@, data@, mime_type@, now).0,
            r == spec_ingest(old(self)@, data@, mime_type@, now).1,
            final(self)@.minted == old(self)@.minted,
            final(self)@.requests == old(self)@.requests,
            final(self)@.statuses == old(self)@.statuses,
    {
        if data.len() == 0 {
            return Err(Error::Validation);
        }
        let h = calculate_data_hash(data.as_slice());
        if self.find_minted(&h).is_some() {
            return Err(Error::AlreadyMinted(self.find_record(&h)));
        }
        match self.find_record(&h) {
            Some(id) => Ok(id),
            None => {
                let ghost pre = self@;
                let id = (self.records.len() as u64) + 1;
                let blob = DataBlob {
                    data,
                    mime_type: String::from_str(mime_type),
                    timestamp: now,
                };
                let ghost rv = RecordView { data: blob.data@, mime_type: blob.mime_type@, timestamp: now };
                let rec = StoredRecord { blob, digest: h };
                self.records.push(Some(rec));
                assert(self@.records =~= pre.records.push(Some(rv)));
                assert(self@.minted =~= pre.minted);
                assert(self@.requests =~= pre.requests);
                assert(self@.statuses =~= pre.statuses);
                proof {
                    lemma_lookup_record_none(pre.records, digest_of(rv.data), 0);
                    assert forall|i: int, j: int|
                        0 <= i < j < self@.records.len() && self@.records[i] is Some
                            && self@.records[j] is Some implies digest_of(
                        (#[trigger] self@.records[i])->0.data,
                    ) != digest_of((#[trigger] self@.records[j])->0.data) by {
                        if j < pre.records.len() {
                            assert(self@.records[i] == pre.records[i]);
                            assert(self@.records[j] == pre.records[j]);
                        } else {
                            assert(self@.records[j] == Some(rv));
                            assert(self@.records[i] == pre.records[i]);
                        }
                    }
                }
                Ok(id)
            },
        }
    }

    /// Stores a batch of payloads in order, stopping at the first refusal;
    /// payloads stored before a refusal stay stored.  On success the ids
    /// come back in payload order.
    pub fn store_upload_data(&mut self, parsed_data: Vec<Vec<u8>>, mime_type: &str, now: u64) -> (r:
        Result<Vec<u64>, Error>)
        requires
            old(self).inv(),
            old(self)@.records.len() + parsed_data@.len() <= u64::MAX,
        ensures
            final(self).inv(),
            final(self)@ == spec_ingest_all(
                old(self)@,
                parsed_data.deep_view(),
                mime_type@,
                now,
                0,
            ).0,
            ({
                let res = spec_ingest_all(old(self)@, parsed_data.deep_view(), mime_type@, now, 0).1;
                match (r, res) {
                    (Ok(v), Ok(ids)) => v@ == ids,
                    (Err(e1), Err(e2)) => e1 == e2,
                    _ => false,
                }
            }),
    {
        let ghost items = parsed_data.deep_view();
        let ghost s0 = self@;
        let n = parsed_data.len();
        let mut out: Vec<u64> = Vec::new();
        let mut i: usize = 0;
        while i < n
            invariant
                self.inv(),
                s0 == old(self)@,
                n == parsed_data@.len(),
                items == parsed_data.deep_view(),
                items.len() == n,
                0 <= i <= n,
                self@.records.len() <= s0.records.len() + i,
                s0.records.len() + n <= u64::MAX,
                spec_ingest_all(s0, items, mime_type@, now, 0).0 == spec_ingest_all(
                    self@,
                    items,
                    mime_type@,
                    now,
                    i as int,
                ).0,
                ({
                    let whole = spec_ingest_all(s0, items, mime_type@, now, 0).1;
                    let rest = spec_ingest_all(self@, items, mime_type@, now, i as int).1;
                    match rest {
                        Ok(ids) => whole == Ok::<Seq<u64>, Error>(out@ + ids),
                        Err(e) => whole == Err::<Seq<u64>, Error>(e),
                    }
                }),
            decreases n - i,
        {
            let ghost s_here = self@;
            assert(items[i as int] == parsed_data@[i as int]@);
            let item = copy_bytes(&parsed_data[i]);
            match self.ingest(item, mime_type, now) {
                Ok(id) => {
                    let ghost out_pre = out@;
                    out.push(id);
                    proof {
                        let (t1, r1) = spec_ingest(s_here, items[i as int], mime_type@, now);
                        assert(self@ == t1);
                        assert(r1 == Ok::<u64, Error>(id));
                        assert(out@ == out_pre.push(id));
                        let (t2, r2) = spec_ingest_all(self@, items, mime_type@, now, i + 1);
                        assert(spec_ingest_all(s_here, items, mime_type@, now, i as int).0 == t2);
                        match r2 {
                            Ok(ids) => {
                                assert(spec_ingest_all(s_here, items, mime_type@, now, i as int).1
                                    == Ok::<Seq<u64>, Error>(seq![id] + ids));
                                assert(out_pre + (seq![id] + ids) =~= out@ + ids);
                            },
                            Err(e2) => {
                                assert(spec_ingest_all(s_here, items, mime_type@, now, i as int).1
                                    == Err::<Seq<u64>, Error>(e2));
                            },
                        }
                    }
                },
                Err(e) => {
                    proof {
                        let (t1, r1) = spec_ingest(s_here, items[i as int], mime_type@, now);
                        assert(self@ == t1);
                        assert(r1 == Err::<u64, Error>(e));
                        assert(spec_ingest_all(s_here, items, mime_type@, now, i as int) == (
                            t1,
                            Err::<Seq<u64>, Error>(e),
                        ));
                        assert(spec_ingest_all(s0, items, mime_type@, now, 0).0 == self@);
                        assert(spec_ingest_all(s0, items, mime_type@, now, 0).1 == Err::<
                            Seq<u64>,
                            Error,
                        >(e));
                        assert(s0 == old(self)@);
                        assert(items == parsed_data.deep_view());
                    }
                    return Err(e);
                },
            }
            i = i + 1;
        }
        assert(out@ + Seq::<u64>::empty() =~= out@);
        Ok(out)
    }

    /// Deletes record `data_id`: refused when the id is unknown, protected
    /// for good when the record's content has been minted; the id is never
    /// reused.
    pub fn delete_uploaded_data(&mut self, data_id: u64) -> (r: Result<(), Error>)
        requires
            old(self).inv(),
        ensures
            final(self).inv(),
            final(self)@ == spec_delete(old(self)@, data_id).0,
            r == spec_delete(old(self)@, data_id).1,
    {
        if data_id == 0 {
            return Err(Error::NotFound);
        }
        let n = self.records.len();
        if data_id > n as u64 {
            return Err(Error::NotFound);
        }
        let idx = (data_id - 1) as usize;
        assert(self@.records[data_id - 1] == match self.records@[data_id - 1] {
            Some(r) => Some(r.blob@),
            None => None::<RecordView>,
        });
        let is_minted = match &self.records[idx] {
            Some(rec) => {
                assert(rec.digest@ == digest_of(self@.record_at(data_id).data));
                self.find_minted(&rec.digest).is_some()
            },
            None => {
                return Err(Error::NotFound);
            },
        };
        if is_minted {
            return Err(Error::Protected);
        }
        let ghost pre = self@;
        self.records.set(idx, None);
        assert(self@.records =~= pre.records.update(data_id - 1, None));
        assert(self@.minted =~= pre.minted);
        assert(self@.requests =~= pre.requests);
        assert(self@.statuses =~= pre.statuses);
        proof {
            assert forall|i: int, j: int|
                0 <= i < j < self@.records.len() && self@.records[i] is Some && self@.records[j]
                    is Some implies digest_of((#[trigger] self@.records[i])->0.data) != digest_of(
                (#[trigger] self@.records[j])->0.data,
            ) by {
                assert(self@.records[i] == pre.records[i]);
                assert(self@.records[j] == pre.records[j]);
            }
        }
        Ok(())
    }

    /// Stores a mint request under the next id with status `Pending`,
    /// without validation.
    pub fn store_mint_request(&mut self, request: MintRequest, now: u64) -> (r: u64)
        requires
            old(self).inv(),
            old(self)@.requests.len() < u64::MAX,
        ensures
            final(self).inv(),
            final(self)@ == spec_store_request(old(self)@, request@, now).0,
            r == spec_store_request(old(self)@, request@, now).1,
    {
        let ghost pre = self@;
        let ghost rv = request@;
        let id = (self.requests.len() as u64) + 1;
        self.requests.push(MintRequestData { request, timestamp: now });
        self.statuses.push(MintStatus::Pending);
        assert(self@.requests =~= pre.requests.push(
            RequestDataView { request: rv, timestamp: now },
        ));
        assert(self@.statuses =~= pre.statuses.push(StatusView::Pending));
        assert(self@.records =~= pre.records);
        assert(self@.minted =~= pre.minted);
        id
    }

    /// The first reason this submission would be refused, if any: the
    /// reference, the payload shapes, the requester's identity, then
    /// digests already minted.
    fn submit_rejection_check(&self, request: &MintRequest, caller: &Principal) -> (r: Option<
        crate::validation::Rejection,
    >)
        ensures
            r == submit_rejection(self@, request@, caller@),
    {
        if let Some(rej) = crate::validation::check_cid(self.request_cid(request)) {
            return Some(rej);
        }
        if let Some(rej) = crate::validation::check_payloads(&request.metadata) {
            return Some(rej);
        }
        let anon = match &request.owner {
            Some(p) => p.is_anonymous(),
            None => caller.is_anonymous(),
        };
        if anon {
            return Some(crate::validation::Rejection::AnonymousRequester);
        }
        let ghost dv = request.metadata.deep_view();
        assert(dv == request@.metadata);
        let n = request.metadata.len();
        let mut i: usize = 0;
        while i < n
            invariant
                dv == request.metadata.deep_view(),
                dv == request@.metadata,
                dv.len() == n,
                n == request.metadata@.len(),
                0 <= i <= n,
                crate::validation::cid_rejection(request@.cid) is None,
                crate::validation::payload_rejection(request@.metadata) is None,
                effective_owner(request@.owner, caller@) != crate::identity::anonymous_bytes(),
                minted_payload_rejection(self@, dv, 0) == minted_payload_rejection(
                    self@,
                    dv,
                    i as int,
                ),
            decreases n - i,
        {
            assert(dv[i as int] == request.metadata@[i as int]@);
            let h = calculate_data_hash(request.metadata[i].as_slice());
            if self.find_minted(&h).is_some() {
                assert(minted_payload_rejection(self@, dv, i as int) == Some(
                    crate::validation::Rejection::PayloadAlreadyMinted,
                ));
                return Some(crate::validation::Rejection::PayloadAlreadyMinted);
            }
            i = i + 1;
        }
        None
    }

    /// The reference string of a request, as a slice.
    fn request_cid<'a>(&self, request: &'a MintRequest) -> (r: &'a str)
        ensures
            r@ == request@.cid,
    {
        request.cid.as_str()
    }

    /// Checks a mint request's content: the reference, the payload shapes,
    /// then digests already minted.  The requester's identity is judged
    /// separately.  On refusal the error holds the first rejection's
    /// message.
    pub fn validate_mint_request(&self, cid: &str, metadata: &Vec<Vec<u8>>) -> (r: Result<
        (),
        String,
    >)
        ensures
            ({
                let rej = mint_rejection(self@, cid@, metadata.deep_view());
                match (r, rej) {
                    (Ok(_), None) => true,
                    (Err(m), Some(rj)) => m@ == crate::validation::rejection_text(rj),
                    _ => false,
                }
            }),
    {
        if let Some(rej) = crate::validation::check_cid(cid) {
            return Err(crate::validation::rejection_message(rej));
        }
        if let Some(rej) = crate::validation::check_payloads(metadata) {
            return Err(crate::validation::rejection_message(rej));
        }
        let ghost dv = metadata.deep_view();
        let n = metadata.len();
        let mut i: usize = 0;
        while i < n
            invariant
                dv == metadata.deep_view(),
                dv.len() == n,
                n == metadata@.len(),
                0 <= i <= n,
                crate::validation::cid_rejection(cid@) is None,
                crate::validation::payload_rejection(dv) is None,
                minted_payload_rejection(self@, dv, 0) == minted_payload_rejection(
                    self@,
                    dv,
                    i as int,
                ),
            decreases n - i,
        {
            assert(dv[i as int] == metadata@[i as int]@);
            let h = calculate_data_hash(metadata[i].as_slice());
            if self.find_minted(&h).is_some() {
                assert(minted_payload_rejection(self@, dv, i as int) == Some(
                    crate::validation::Rejection::PayloadAlreadyMinted,
                ));
                return Err(
                    crate::validation::rejection_message(
                        crate::validation::Rejection::PayloadAlreadyMinted,
                    ),
                );
            }
            i = i + 1;
        }
        Ok(())
    }

    /// Submits a mint request: the request is stored under the next id
    /// whatever the outcome of validation, so the caller can always poll
    /// the status.  An accepted request starts `Pending`; a refused one
    /// starts `Failed` with the first rejection's message.
    pub fn request_mint(&mut self, request: MintRequest, caller: &Principal, now: u64) -> (r:
        RequestResponse)
        requires
            old(self).inv(),
            old(self)@.requests.len() < u64::MAX,
        ensures
            final(self).inv(),
            final(self)@ == spec_submit(old(self)@, request@, caller@, now).0,
            r.request_id == spec_submit(old(self)@, request@, caller@, now).1,
    {
        let ghost pre = self@;
        let ghost rv = request@;
        let rejection = self.submit_rejection_check(&request, caller);
        let id = (self.requests.len() as u64) + 1;
        self.requests.push(MintRequestData { request, timestamp: now });
        let st = match rejection {
            None => MintStatus::Pending,
            Some(rej) => MintStatus::Failed(crate::validation::rejection_message(rej)),
        };
        let ghost stv = st@;
        self.statuses.push(st);
        assert(self@.requests =~= pre.requests.push(
            RequestDataView { request: rv, timestamp: now },
        ));
        assert(self@.statuses =~= pre.statuses.push(stv));
        assert(self@.records =~= pre.records);
        assert(self@.minted =~= pre.minted);
        RequestResponse { request_id: id }
    }

    /// Changes the status of request `request_id`.  Only the transitions of
    /// the state machine are admitted: `Pending` may be claimed or fail,
    /// `InProgress` may complete or fail, and the terminal states admit
    /// nothing.  Completion marks every payload digest of the request as
    /// minted, each exactly once.
    pub fn update_mint_status(&mut self, request_id: u64, new_status: MintStatus) -> (r: Result<
        (),
        Error,
    >)
        requires
            old(self).inv(),
        ensures
            final(self).inv(),
            final(self)@ == spec_update_status(old(self)@, request_id, new_status@).0,
            r == spec_update_status(old(self)@, request_id, new_status@).1,
    {
        let ghost pre = self@;
        let ghost stv = new_status@;
        if request_id == 0 {
            return Err(Error::NotFound);
        }
        let n = self.statuses.len();
        if request_id > n as u64 {
            return Err(Error::NotFound);
        }
        let idx = (request_id - 1) as usize;
        assert(self@.statuses[request_id - 1] == self.statuses@[request_id - 1]@);
        let allowed = match (&self.statuses[idx], &new_status) {
            (MintStatus::Pending, MintStatus::InProgress) => true,
            (MintStatus::Pending, MintStatus::Failed(_)) => true,
            (MintStatus::InProgress, MintStatus::Completed(_)) => true,
            (MintStatus::InProgress, MintStatus::Failed(_)) => true,
            _ => false,
        };
        assert(allowed == allowed_transition(pre.statuses[request_id - 1], stv));
        if !allowed {
            return Err(Error::InvalidTransition);
        }
        let completed = match &new_status {
            MintStatus::Completed(_) => true,
            _ => false,
        };
        if completed {
            assert(self@.requests[request_id - 1] == self.requests@[request_id - 1]@);
            let payloads = copy_bytes_list(&self.requests[idx].request.metadata);
            let ghost pv = pre.requests[request_id - 1].request.metadata;
            assert(payloads.deep_view() == pv);
            let m = payloads.len();
            let mut j: usize = 0;
            while j < m
                invariant
                    pre.requests[request_id - 1].request.metadata == pv,
                    payloads.deep_view() == pv,
                    pv.len() == m,
                    m == payloads@.len(),
                    0 <= j <= m,
                    self@.minted == record_minted(pre.minted, pv.take(j as int), request_id),
                    self.records@ == old(self).records@,
                    self.requests@ == old(self).requests@,
                    self.statuses@ == old(self).statuses@,
                    pre == old(self)@,
                decreases m - j,
            {
                assert(pv[j as int] == payloads@[j as int]@);
                let ghost before = self@.minted;
                let h = calculate_data_hash(payloads[j].as_slice());
                if self.find_minted(&h).is_none() {
                    self.minted.push((h, request_id));
                    assert(self@.minted =~= before.push((digest_of(pv[j as int]), request_id)));
                }
                proof {
                    assert(pv.take(j + 1).drop_last() =~= pv.take(j as int));
                    assert(pv.take(j + 1).last() == pv[j as int]);
                    assert(self@.minted == insert_minted(
                        before,
                        digest_of(pv[j as int]),
                        request_id,
                    ));
                }
                j = j + 1;
            }
            assert(pv.take(m as int) =~= pv);
        }
        let ghost mid = self@;
        self.statuses.set(idx, new_status);
        assert(self@.statuses =~= mid.statuses.update(request_id - 1, stv));
        assert(self@.records =~= mid.records);
        assert(self@.requests =~= mid.requests);
        assert(self@.minted =~= mid.minted);
        proof {
            if stv is Completed {
                lemma_record_minted_unique(
                    pre.minted,
                    pre.requests[request_id - 1].request.metadata,
                    request_id,
                );
            }
        }
        Ok(())
    }

    /// One dispatcher tick: claims the first pending request — flips it to
    /// `InProgress` before any external call is made, so no request can be
    /// claimed twice — and hands it out for the external call.  With no
    /// pending request nothing changes.
    pub fn dispatch_tick(&mut self) -> (r: Option<(u64, MintRequest)>)
        requires
            old(self).inv(),
        ensures
            final(self).inv(),
            final(self)@ == spec_dispatch(old(self)@).0,
            match (r, spec_dispatch(old(self)@).1) {
                (Some(p), Some(q)) => p.0 == q.0 && p.1@ == q.1,
                (None, None) => true,
                _ => false,
            },
    {
        let ghost pre = self@;
        let n = self.statuses.len();
        let mut i: usize = 0;
        while i < n
            invariant
                self.inv(),
                pre == self@,
                pre == old(self)@,
                n == self.statuses@.len(),
                n == self@.statuses.len(),
                0 <= i <= n,
                first_pending_from(self@.statuses, 0) == first_pending_from(
                    self@.statuses,
                    i as int,
                ),
            decreases n - i,
        {
            assert(self@.statuses[i as int] == self.statuses@[i as int]@);
            let is_pending = match &self.statuses[i] {
                MintStatus::Pending => true,
                _ => false,
            };
            if is_pending {
                assert(first_pending_from(self@.statuses, i as int) == Some(i as int));
                assert(self@.requests[i as int] == self.requests@[i as int]@);
                let req = self.requests[i].request.duplicate();
                self.statuses.set(i, MintStatus::InProgress);
                assert(self@.statuses =~= pre.statuses.update(
                    i as int,
                    StatusView::InProgress,
                ));
                assert(self@.records =~= pre.records);
                assert(self@.requests =~= pre.requests);
                assert(self@.minted =~= pre.minted);
                return Some(((i as u64) + 1, req));
            }
            i = i + 1;
        }
        None
    }

    /// The summaries of all live records, in ascending id order.
    pub fn list_uploaded_data(&self) -> (r: Vec<DataInfo>)
        ensures
            ({
                let entries = live_entries_from(self@.records, 0);
                &&& r@.len() == entries.len()
                &&& forall|k: int|
                    0 <= k < entries.len() ==> {
                        &&& (#[trigger] r@[k]).id == entries[k].0
                        &&& r@[k].mime_type@ == entries[k].1.mime_type
                        &&& r@[k].timestamp == entries[k].1.timestamp
                        &&& r@[k].size == entries[k].1.data.len()
                    }
            }),
    {
        let ghost entries = live_entries_from(self@.records, 0);
        let n = self.records.len();
        let mut out: Vec<DataInfo> = Vec::new();
        let mut i: usize = 0;
        while i < n
            invariant
                entries == live_entries_from(self@.records, 0),
                n == self.records@.len(),
                n == self@.records.len(),
                0 <= i <= n,
                entries =~= live_entries_from(self@.records, 0).take(out@.len() as int)
                    + live_entries_from(self@.records, i as int),
                out@.len() <= entries.len(),
                forall|k: int|
                    0 <= k < out@.len() ==> {
                        &&& (#[trigger] out@[k]).id == entries[k].0
                        &&& out@[k].mime_type@ == entries[k].1.mime_type
                        &&& out@[k].timestamp == entries[k].1.timestamp
                        &&& out@[k].size == entries[k].1.data.len()
                    },
            decreases n - i,
        {
            assert(self@.records[i as int] == match self.records@[i as int] {
                Some(r) => Some(r.blob@),
                None => None::<RecordView>,
            });
            match &self.records[i] {
                Some(rec) => {
                    let ghost rv = self@.records[i as int]->0;
                    assert(live_entries_from(self@.records, i as int) == seq![
                        (((i + 1) as u64), rv),
                    ] + live_entries_from(self@.records, i + 1));
                    assert(entries[out@.len() as int] == (((i + 1) as u64), rv));
                    out.push(
                        DataInfo {
                            id: (i as u64) + 1,
                            mime_type: rec.blob.mime_type.clone(),
                            timestamp: rec.blob.timestamp,
                            size: rec.blob.data.len() as u64,
                        },
                    );
                    assert(entries =~= live_entries_from(self@.records, 0).take(out@.len() as int)
                        + live_entries_from(self@.records, i + 1));
                },
                None => {
                    assert(live_entries_from(self@.records, i as int) == live_entries_from(
                        self@.records,
                        i + 1,
                    ));
                },
            }
            i = i + 1;
        }
        assert(live_entries_from(self@.records, n as int) =~= Seq::<(u64, RecordView)>::empty());
        assert(entries =~= entries.take(out@.len() as int));
        assert(out@.len() == entries.len());
        out
    }

    /// The summaries of all mint requests with their statuses, in
    /// ascending id order, which is submission order.
    pub fn list_mint_requests(&self) -> (r: Vec<MintRequestInfo>)
        requires
            self.inv(),
        ensures
            r@.len() == self@.requests.len(),
            forall|k: int|
                0 <= k < self@.requests.len() ==> {
                    &&& (#[trigger] r@[k]).request_id == k + 1
                    &&& (r@[k].owner is Some <==> self@.requests[k].request.owner is Some)
                    &&& (r@[k].owner is Some ==> r@[k].owner->0@ == self@.requests[
                        k
                    ].request.owner->0)
                    &&& r@[k].cid@ == self@.requests[k].request.cid
                    &&& r@[k].status@ == self@.statuses[k]
                    &&& r@[k].timestamp == self@.requests[k].timestamp
                },
    {
        let n = self.requests.len();
        let mut out: Vec<MintRequestInfo> = Vec::new();
        let mut i: usize = 0;
        while i < n
            invariant
                self.inv(),
                n == self.requests@.len(),
                n == self@.requests.len(),
                0 <= i <= n,
                out@.len() == i,
                forall|k: int|
                    0 <= k < i ==> {
                        &&& (#[trigger] out@[k]).request_id == k + 1
                        &&& (out@[k].owner is Some <==> self@.requests[k].request.owner is Some)
                        &&& (out@[k].owner is Some ==> out@[k].owner->0@ == self@.requests[
                            k
                        ].request.owner->0)
                        &&& out@[k].cid@ == self@.requests[k].request.cid
                        &&& out@[k].status@ == self@.statuses[k]
                        &&& out@[k].timestamp == self@.requests[k].timestamp
                    },
            decreases n - i,
        {
            assert(self@.requests[i as int] == self.requests@[i as int]@);
            assert(self@.statuses[i as int] == self.statuses@[i as int]@);
            let data = &self.requests[i];
            let owner = match &data.request.owner {
                Some(p) => Some(p.duplicate()),
                None => None,
            };
            out.push(
                MintRequestInfo {
                    request_id: (i as u64) + 1,
                    owner,
                    cid: data.request.cid.clone(),
                    status: self.statuses[i].duplicate(),
                    timestamp: data.timestamp,
                },
            );
            i = i + 1;
        }
        out
    }

    /// The statistics over all stores, recomputed from them on every call:
    /// records ever stored, requests ever submitted, open (pending or
    /// claimed), completed and failed requests, and the total stored bytes
    /// (saturating at the counter's capacity).
    pub fn get_storage_stats(&self) -> (r: StorageStats)
        ensures
            r.total_uploads == self@.records.len(),
            r.total_mint_requests == self@.requests.len(),
            r.pending_mints == count_open(self@.statuses),
            r.completed_mints == count_completed(self@.statuses),
            r.failed_mints == count_failed(self@.statuses),
            r.storage_size == if size_sum(self@.records) <= u64::MAX {
                size_sum(self@.records)
            } else {
                u64::MAX as int
            },
    {
        let n = self.statuses.len();
        let mut open_count: u64 = 0;
        let mut completed: u64 = 0;
        let mut failed: u64 = 0;
        let mut i: usize = 0;
        while i < n
            invariant
                n == self.statuses@.len(),
                n == self@.statuses.len(),
                0 <= i <= n,
                open_count <= i && completed <= i && failed <= i,
                open_count == count_open(self@.statuses.take(i as int)),
                completed == count_completed(self@.statuses.take(i as int)),
                failed == count_failed(self@.statuses.take(i as int)),
            decreases n - i,
        {
            assert(self@.statuses[i as int] == self.statuses@[i as int]@);
            proof {
                assert(self@.statuses.take(i + 1).drop_last() =~= self@.statuses.take(i as int));
                assert(self@.statuses.take(i + 1).last() == self@.statuses[i as int]);
            }
            match &self.statuses[i] {
                MintStatus::Pending => open_count = open_count + 1,
                MintStatus::InProgress => open_count = open_count + 1,
                MintStatus::Completed(_) => completed = completed + 1,
                MintStatus::Failed(_) => failed = failed + 1,
            }
            i = i + 1;
        }
        assert(self@.statuses.take(n as int) =~= self@.statuses);
        let m = self.records.len();
        let mut size: u64 = 0;
        let mut j: usize = 0;
        while j < m
            invariant
                m == self.records@.len(),
                m == self@.records.len(),
                0 <= j <= m,
                size == if size_sum(self@.records.take(j as int)) <= u64::MAX {
                    size_sum(self@.records.take(j as int))
                } else {
                    u64::MAX as int
                },
            decreases m - j,
        {
            assert(self@.records[j as int] == match self.records@[j as int] {
                Some(r) => Some(r.blob@),
                None => None::<RecordView>,
            });
            proof {
                assert(self@.records.take(j + 1).drop_last() =~= self@.records.take(j as int));
                assert(self@.records.take(j + 1).last() == self@.records[j as int]);
            }
            match &self.records[j] {
                Some(rec) => {
                    size = size.saturating_add(rec.blob.data.len() as u64);
                },
                None => {},
            }
            j = j + 1;
        }
        assert(self@.records.take(m as int) =~= self@.records);
        StorageStats {
            total_uploads: self.records.len() as u64,
            total_mint_requests: self.requests.len() as u64,
            pending_mints: open_count,
            completed_mints: completed,
            failed_mints: failed,
            storage_size: size,
        }
    }
}

} // verus!
