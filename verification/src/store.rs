//! The credential directory and the record store, held in memory.
//!
//! The store is a log of records, each owned by one credential of the
//! directory. Every record has an identifier of version 7 and a payload of
//! ten symbols: anything else is refused before it is stored. The log is
//! kept in descending order of identifier, so that the newest records of a
//! credential are the first that it owns. A record is never changed, and
//! leaves the store only with its credential.

use crate::admission::admits;
use crate::codec::{
    hyphenated, is_payload, is_valid_payload, payload_text, require_v7, version_of,
    OBSERVATION_LENGTH,
};
use crate::credential::ApiKey;
use crate::error::{AppError, ErrorView};
use crate::observation::{
    lemma_payload_is_shown, observation_from_row, observations_from_rows, row_views, shown,
    shown_all, views_of, Observation, ObservationView,
};
use vstd::prelude::*;
use vstd::utf8::valid_utf8;

verus! {

/// One row of the store.
pub struct StoredRecord {
    pub id: u128,
    pub key: ApiKey,
    pub payload: [u8; OBSERVATION_LENGTH],
    pub created_at: u64,
}

/// A row with its credential and payload as sequences of bytes.
pub struct RecordView {
    pub id: u128,
    pub key: Seq<u8>,
    pub payload: Seq<u8>,
    pub created_at: u64,
}

impl View for StoredRecord {
    type V = RecordView;

    open spec fn view(&self) -> RecordView {
        RecordView {
            id: self.id,
            key: self.key@,
            payload: self.payload@,
            created_at: self.created_at,
        }
    }
}

/// The records that a credential owns, in the order of the log.
pub open spec fn owned_by(records: Seq<RecordView>, key: Seq<u8>) -> Seq<RecordView> {
    records.filter(|record: RecordView| record.key == key)
}

/// The records that other credentials own, in the order of the log.
pub open spec fn held_by_others(records: Seq<RecordView>, key: Seq<u8>) -> Seq<RecordView> {
    records.filter(|record: RecordView| record.key != key)
}

/// The records of a credential that were created at `since` or later.
pub open spec fn within(records: Seq<RecordView>, key: Seq<u8>, since: int) -> Seq<RecordView> {
    records.filter(|record: RecordView| record.key == key && record.created_at >= since)
}

/// The records with an identifier above `id`.
pub open spec fn newer_than(records: Seq<RecordView>, id: u128) -> Seq<RecordView> {
    records.filter(|record: RecordView| record.id > id)
}

/// A log is in order when every record has a higher identifier than all
/// that follow it. No identifier then occurs twice.
pub open spec fn descending(records: Seq<RecordView>) -> bool {
    forall|i: int, j: int| 0 <= i < j < records.len() ==> records[i].id > records[j].id
}

/// Whether a record of the log has the identifier.
pub open spec fn has_id(records: Seq<RecordView>, id: u128) -> bool {
    exists|i: int| 0 <= i < records.len() && (#[trigger] records[i]).id == id
}

/// The log with one more record, placed behind the records that are newer.
pub open spec fn with_record(records: Seq<RecordView>, record: RecordView) -> Seq<RecordView> {
    records.insert(newer_than(records, record.id).len() as int, record)
}

/// The newest records of a credential, at most `limit` of them, the newest
/// first. A limit of zero or less gives none.
pub open spec fn newest(records: Seq<RecordView>, key: Seq<u8>, limit: int) -> Seq<RecordView> {
    let owned = owned_by(records, key);
    if limit <= 0 {
        Seq::empty()
    } else if limit >= owned.len() {
        owned
    } else {
        owned.take(limit)
    }
}

/// How many records of a credential lie in the window that ends at `now`
/// and is `window` seconds long, its lower bound included. The count stops at
/// the largest signed 64-bit number.
pub open spec fn recent_count(records: Seq<RecordView>, key: Seq<u8>, now: u64, window: u64) -> i64 {
    let count = within(records, key, now - window).len();
    if count <= i64::MAX {
        count as i64
    } else {
        i64::MAX
    }
}

/// What may be stored as a record: an identifier of version 7 with a
/// payload of ten symbols.
pub open spec fn is_record(record: RecordView) -> bool {
    version_of(record.id) == 7 && is_payload(record.payload)
}

/// The records as a client sees them, each in its place: the identifier in
/// canonical text and the payload as text.
pub open spec fn displayed(records: Seq<RecordView>) -> Seq<ObservationView> {
    records.map_values(
        |record: RecordView|
            ObservationView {
                uuidv7: hyphenated(record.id),
                observation: payload_text(record.payload),
            },
    )
}

/// Identifier and payload of each record, as a query hands them out.
pub open spec fn rows_of(records: Seq<RecordView>) -> Seq<(u128, Seq<u8>)> {
    records.map_values(|record: RecordView| (record.id, record.payload))
}

/// The detail of the storage error for a record whose credential is not in
/// the directory.
pub open spec fn unknown_owner_detail() -> Seq<char> {
    "record refers to no credential"@
}

/// The detail of the storage error for an identifier that is already stored.
pub open spec fn duplicate_id_detail() -> Seq<char> {
    "identifier is already stored"@
}

/// The credential directory together with the record store.
pub struct Store {
    keys: Vec<ApiKey>,
    records: Vec<StoredRecord>,
}

proof fn lemma_filter_next<A>(items: Seq<A>, keep: spec_fn(A) -> bool, at: int)
    requires
        0 <= at < items.len(),
    ensures
        items.take(at + 1).filter(keep) == if keep(items[at]) {
            items.take(at).filter(keep).push(items[at])
        } else {
            items.take(at).filter(keep)
        },
{
    reveal(Seq::filter);
    assert(items.take(at + 1).drop_last() =~= items.take(at));
}

proof fn lemma_filter_none<A>(keep: spec_fn(A) -> bool)
    ensures
        Seq::<A>::empty().filter(keep) == Seq::<A>::empty(),
{
    reveal(Seq::filter);
}

fn payload_bytes(payload: &[u8; OBSERVATION_LENGTH]) -> (bytes: Vec<u8>)
    ensures
        bytes@ == payload@,
{
    let mut bytes: Vec<u8> = Vec::with_capacity(OBSERVATION_LENGTH);
    let mut at: usize = 0;
    while at < OBSERVATION_LENGTH
        invariant
            at <= OBSERVATION_LENGTH,
            bytes@ == payload@.take(at as int),
        decreases OBSERVATION_LENGTH - at,
    {
        bytes.push(payload[at]);
        assert(bytes@ =~= payload@.take(at + 1));
        at += 1;
    }
    assert(payload@.take(OBSERVATION_LENGTH as int) =~= payload@);
    bytes
}

spec fn key_views(keys: Seq<ApiKey>) -> Set<Seq<u8>> {
    Set::new(|key: Seq<u8>| exists|i: int| 0 <= i < keys.len() && (#[trigger] keys[i])@ == key)
}

spec fn record_views(records: Seq<StoredRecord>) -> Seq<RecordView> {
    records.map_values(|record: StoredRecord| record@)
}

fn keys_hold(keys: &Vec<ApiKey>, key: &ApiKey) -> (found: bool)
    ensures
        found == key_views(keys@).contains(key@),
{
    let mut at: usize = 0;
    while at < keys.len()
        invariant
            at <= keys.len(),
            forall|j: int| 0 <= j < at ==> (#[trigger] keys@[j])@ != key@,
        decreases keys.len() - at,
    {
        if keys[at].same(key) {
            return true;
        }
        at += 1;
    }
    false
}

fn keys_without(keys: &Vec<ApiKey>, key: &ApiKey) -> (kept: Vec<ApiKey>)
    ensures
        key_views(kept@) == key_views(keys@).remove(key@),
{
    let mut kept: Vec<ApiKey> = Vec::new();
    let mut at: usize = 0;
    while at < keys.len()
        invariant
            at <= keys.len(),
            key_views(kept@) == key_views(keys@.take(at as int)).remove(key@),
        decreases keys.len() - at,
    {
        let ghost before = kept@;
        if !keys[at].same(key) {
            kept.push(ApiKey { bytes: keys[at].bytes });
        }
        proof {
            let next = keys@.take(at + 1);
            let seen = keys@.take(at as int);
            assert forall|k: Seq<u8>| key_views(kept@).contains(k) == key_views(next).remove(
                key@,
            ).contains(k) by {
                if key_views(kept@).contains(k) {
                    let i = choose|i: int| 0 <= i < kept@.len() && (#[trigger] kept@[i])@ == k;
                    if i < before.len() {
                        assert(before[i]@ == k);
                        assert(key_views(before).contains(k));
                        let j = choose|j: int| 0 <= j < seen.len() && (#[trigger] seen[j])@ == k;
                        assert(next[j]@ == k);
                    } else {
                        assert(next[at as int]@ == k);
                    }
                }
                if key_views(next).remove(key@).contains(k) {
                    let j = choose|j: int| 0 <= j < next.len() && (#[trigger] next[j])@ == k;
                    if j < at {
                        assert(seen[j]@ == k);
                        assert(key_views(seen).remove(key@).contains(k));
                        let i = choose|i: int| 0 <= i < before.len() && (#[trigger] before[i])@ == k;
                        assert(kept@[i]@ == k);
                    } else {
                        assert(kept@[kept@.len() - 1]@ == k);
                    }
                }
            }
            assert(key_views(kept@) =~= key_views(next).remove(key@));
        }
        at += 1;
    }
    assert(keys@.take(keys@.len() as int) =~= keys@);
    kept
}

fn records_without(records: &Vec<StoredRecord>, key: &ApiKey) -> (kept: Vec<StoredRecord>)
    ensures
        record_views(kept@) == held_by_others(record_views(records@), key@),
{
    let mut kept: Vec<StoredRecord> = Vec::new();
    let mut at: usize = 0;
    proof {
        lemma_filter_none(|record: RecordView| record.key != key@);
        assert(record_views(records@).take(0) =~= Seq::empty());
        assert(record_views(kept@) =~= Seq::empty());
    }
    while at < records.len()
        invariant
            at <= records.len(),
            record_views(kept@) == held_by_others(record_views(records@).take(at as int), key@),
        decreases records.len() - at,
    {
        proof {
            lemma_filter_next(
                record_views(records@),
                |record: RecordView| record.key != key@,
                at as int,
            );
        }
        let ghost before = kept@;
        if !records[at].key.same(key) {
            kept.push(
                StoredRecord {
                    id: records[at].id,
                    key: ApiKey { bytes: records[at].key.bytes },
                    payload: records[at].payload,
                    created_at: records[at].created_at,
                },
            );
            assert(record_views(kept@) =~= record_views(before).push(
                record_views(records@)[at as int],
            ));
        }
        at += 1;
    }
    assert(record_views(records@).take(records@.len() as int) =~= record_views(records@));
    kept
}

impl Store {
    /// The credentials of the directory.
    pub closed spec fn credentials(&self) -> Set<Seq<u8>> {
        key_views(self.keys@)
    }

    /// The log of records, the highest identifier first.
    pub closed spec fn records(&self) -> Seq<RecordView> {
        record_views(self.records@)
    }

    /// The log is in order, and every record of it has an identifier of
    /// version 7 and a payload of ten symbols, and is owned by a credential
    /// of the directory.
    pub open spec fn wf(&self) -> bool {
        &&& descending(self.records())
        &&& forall|i: int|
            0 <= i < self.records().len() ==> {
                &&& is_record(#[trigger] self.records()[i])
                &&& self.credentials().contains(self.records()[i].key)
            }
    }

    /// A store with no credential and no record.
    pub fn new() -> (store: Store)
        ensures
            store.wf(),
            store.credentials() == Set::<Seq<u8>>::empty(),
            store.records() == Seq::<RecordView>::empty(),
    {
        let store = Store { keys: Vec::new(), records: Vec::new() };
        assert(store.credentials() =~= Set::<Seq<u8>>::empty());
        assert(store.records() =~= Seq::<RecordView>::empty());
        store
    }
}

/// Enters a credential in the directory. One that is there already is left
/// as it is, and that is no error.
pub fn store_api_key(store: &mut Store, key: &ApiKey) -> (result: Result<(), AppError>)
    requires
        old(store).wf(),
    ensures
        result == Ok::<(), AppError>(()),
        final(store).wf(),
        final(store).credentials() == old(store).credentials().insert(key@),
        final(store).records() == old(store).records(),
{
    let ghost before = store.keys@;
    if !keys_hold(&store.keys, key) {
        store.keys.push(ApiKey { bytes: key.bytes });
        proof {
            let after = store.keys@;
            assert forall|k: Seq<u8>| key_views(after).contains(k) == key_views(before).insert(
                key@,
            ).contains(k) by {
                if key_views(after).contains(k) {
                    let i = choose|i: int| 0 <= i < after.len() && (#[trigger] after[i])@ == k;
                    if i < before.len() {
                        assert(before[i]@ == k);
                    }
                }
                if key_views(before).contains(k) {
                    let i = choose|i: int| 0 <= i < before.len() && (#[trigger] before[i])@ == k;
                    assert(after[i]@ == k);
                }
                if k == key@ {
                    assert(after[after.len() - 1]@ == k);
                }
            }
            assert(key_views(after) =~= key_views(before).insert(key@));
        }
    } else {
        assert(key_views(before).insert(key@) =~= key_views(before));
    }
    Ok(())
}

/// Removes a credential from the directory, and with it every record that
/// it owns. A credential that is not there is no error.
pub fn delete_api_key(store: &mut Store, key: &ApiKey) -> (result: Result<(), AppError>)
    requires
        old(store).wf(),
    ensures
        result == Ok::<(), AppError>(()),
        final(store).wf(),
        final(store).credentials() == old(store).credentials().remove(key@),
        final(store).records() == held_by_others(old(store).records(), key@),
{
    let keys = keys_without(&store.keys, key);
    let records = records_without(&store.records, key);
    proof {
        lemma_others_of_ordered(old(store).records(), key@);
    }
    store.keys = keys;
    store.records = records;
    Ok(())
}

/// Turns the answer of a lookup in the directory into the outcome of the
/// request: a credential that was not found is unauthorized.
pub fn require_found(found: bool) -> (result: Result<(), AppError>)
    ensures
        found ==> result == Ok::<(), AppError>(()),
        !found ==> result == Err::<(), AppError>(AppError::Unauthorized),
{
    if found {
        Ok(())
    } else {
        Err(AppError::Unauthorized)
    }
}

/// Succeeds exactly for a credential of the directory.
pub fn ensure_api_key_exists(store: &Store, key: &ApiKey) -> (result: Result<(), AppError>)
    ensures
        store.credentials().contains(key@) ==> result == Ok::<(), AppError>(()),
        !store.credentials().contains(key@) ==> result == Err::<(), AppError>(
            AppError::Unauthorized,
        ),
{
    require_found(keys_hold(&store.keys, key))
}

/// Persists a record under a credential, with `now` as its time of creation.
///
/// Nothing is stored that is no record: a payload that is not ten symbols
/// is refused first, an identifier of another version than 7 after it. The
/// storage error follows where the credential is not in the directory or
/// the identifier is stored already. Whatever is refused leaves the store
/// as it was. Otherwise the record is stored, and returned as a client sees
/// it.
pub fn insert_observation(
    store: &mut Store,
    key: &ApiKey,
    uuid: u128,
    observation: [u8; OBSERVATION_LENGTH],
    now: u64,
) -> (result: Result<Observation, AppError>)
    requires
        old(store).wf(),
    ensures
        final(store).wf(),
        final(store).credentials() == old(store).credentials(),
        ({
            let record = RecordView {
                id: uuid,
                key: key@,
                payload: observation@,
                created_at: now,
            };
            let unchanged = final(store).records() == old(store).records();
            if !is_payload(observation@) {
                unchanged && result == Err::<Observation, AppError>(AppError::InvalidObservation)
            } else if version_of(uuid) != 7 {
                unchanged && result == Err::<Observation, AppError>(AppError::InvalidUuid)
            } else if !old(store).credentials().contains(key@) {
                unchanged && result is Err && result->Err_0@ == ErrorView::Database(
                    unknown_owner_detail(),
                )
            } else if has_id(old(store).records(), uuid) {
                unchanged && result is Err && result->Err_0@ == ErrorView::Database(
                    duplicate_id_detail(),
                )
            } else {
                &&& final(store).records() == with_record(old(store).records(), record)
                &&& result is Ok
                &&& result->Ok_0@ == ObservationView {
                    uuidv7: hyphenated(uuid),
                    observation: payload_text(observation@),
                }
            }
        }),
{
    if !is_valid_payload(&observation) {
        return Err(AppError::InvalidObservation);
    }
    match require_v7(Some(uuid)) {
        Ok(_) => {},
        Err(error) => { return Err(error); },
    }
    if !keys_hold(&store.keys, key) {
        return Err(AppError::Database("record refers to no credential".to_owned()));
    }
    let at = place_for(&store.records, uuid);
    let ghost before = store.records();
    let ghost record = RecordView { id: uuid, key: key@, payload: observation@, created_at: now };
    proof {
        lemma_newer_are_first(before, uuid);
    }
    if at < store.records.len() && store.records[at].id == uuid {
        assert(before[at as int].id == uuid);
        return Err(AppError::Database("identifier is already stored".to_owned()));
    }
    assert(newer_than(before, uuid).len() == at) by {
        let n = newer_than(before, uuid).len() as int;
        if n < at {
            assert(before[n].id <= uuid);
        }
        if at < n {
            assert(before[at as int].id > uuid);
        }
    }
    assert(!has_id(before, uuid)) by {
        if has_id(before, uuid) {
            let i = choose|i: int| 0 <= i < before.len() && (#[trigger] before[i]).id == uuid;
            assert(before[i].id == uuid);
        }
    }
    store.records.insert(
        at,
        StoredRecord { id: uuid, key: ApiKey { bytes: key.bytes }, payload: observation, created_at: now },
    );
    proof {
        assert(store.records() =~= before.insert(at as int, record));
        lemma_with_record_ordered(before, record);
        let after = with_record(before, record);
        assert forall|i: int| 0 <= i < after.len() implies {
            &&& is_record(#[trigger] after[i])
            &&& store.credentials().contains(after[i].key)
        } by {
            if i < at {
                assert(after[i] == before[i]);
            } else if i > at {
                assert(after[i] == before[i - 1]);
            }
        }
        lemma_payload_is_shown(uuid, observation@);
    }
    observation_from_row(uuid, payload_bytes(&observation))
}

fn place_for(records: &Vec<StoredRecord>, id: u128) -> (at: usize)
    ensures
        at <= records.len(),
        forall|j: int| 0 <= j < at ==> (#[trigger] records@[j]).id > id,
        at < records.len() ==> records@[at as int].id <= id,
{
    let mut at: usize = 0;
    while at < records.len() && records[at].id > id
        invariant
            at <= records.len(),
            forall|j: int| 0 <= j < at ==> (#[trigger] records@[j]).id > id,
        decreases records.len() - at,
    {
        at += 1;
    }
    at
}

/// Counts the records of a credential that were created in the window of
/// `window_secs` seconds that ends at `now`.
pub fn count_recent_observations(store: &Store, key: &ApiKey, window_secs: u64, now: u64) -> (result:
    Result<i64, AppError>)
    ensures
        result == Ok::<i64, AppError>(recent_count(store.records(), key@, now, window_secs)),
{
    let records = &store.records;
    let ghost since = now - window_secs;
    let ghost keep = |record: RecordView| record.key == key@ && record.created_at >= since;
    let mut count: usize = 0;
    let mut at: usize = 0;
    proof {
        lemma_filter_none(keep);
        assert(record_views(records@).take(0) =~= Seq::empty());
    }
    while at < records.len()
        invariant
            at <= records.len(),
            count <= at,
            since == now - window_secs,
            keep == |record: RecordView| record.key == key@ && record.created_at >= since,
            count == record_views(records@).take(at as int).filter(keep).len(),
        decreases records.len() - at,
    {
        proof {
            lemma_filter_next(record_views(records@), keep, at as int);
        }
        if records[at].key.same(key) && records[at].created_at as i128 >= now as i128
            - window_secs as i128 {
            count += 1;
        }
        at += 1;
    }
    assert(record_views(records@).take(records@.len() as int) =~= record_views(records@));
    if count as u64 > 0x7fff_ffff_ffff_ffff {
        Ok(i64::MAX)
    } else {
        Ok(count as i64)
    }
}

/// Reads the newest observations of a credential, at most `limit` of them,
/// the newest first. A credential with no record gives an empty list.
pub fn fetch_observations(store: &Store, key: &ApiKey, limit: i64) -> (result: Result<
    Vec<Observation>,
    AppError,
>)
    requires
        store.wf(),
    ensures
        result is Ok,
        views_of(result->Ok_0@) == displayed(newest(store.records(), key@, limit as int)),
{
    let rows = newest_rows(&store.records, key, limit);
    proof {
        let top = newest(store.records(), key@, limit as int);
        lemma_newest_are_highest(store.records(), key@, limit as int);
        assert forall|i: int| 0 <= i < top.len() implies valid_utf8(#[trigger] rows_of(top)[i].1)
            && shown(top[i].id, top[i].payload) == Ok::<ObservationView, AppError>(
            displayed(top)[i],
        ) by {
            let j = choose|j: int| 0 <= j < store.records().len() && store.records()[j] == top[i];
            assert(is_record(store.records()[j]));
            lemma_payload_is_shown(top[i].id, top[i].payload);
        }
        assert(shown_all(rows_of(top))->Ok_0 =~= displayed(top));
    }
    observations_from_rows(&rows)
}

fn newest_rows(records: &Vec<StoredRecord>, key: &ApiKey, limit: i64) -> (rows: Vec<
    (u128, Vec<u8>),
>)
    ensures
        row_views(rows@) == rows_of(newest(record_views(records@), key@, limit as int)),
{
    let mut rows: Vec<(u128, Vec<u8>)> = Vec::new();
    let ghost all = record_views(records@);
    let ghost keep = |record: RecordView| record.key == key@;
    proof {
        lemma_filter_none(keep);
        assert(all.take(0) =~= Seq::empty());
        assert(row_views(rows@) =~= rows_of(Seq::empty()));
    }
    if limit <= 0 {
        return rows;
    }
    let mut at: usize = 0;
    while at < records.len() && (rows.len() as u64) < (limit as u64)
        invariant
            at <= records.len(),
            limit > 0,
            all == record_views(records@),
            keep == |record: RecordView| record.key == key@,
            rows@.len() <= limit,
            row_views(rows@) == rows_of(all.take(at as int).filter(keep)),
        decreases records.len() - at,
    {
        proof {
            lemma_filter_next(all, keep, at as int);
        }
        let ghost before = rows@;
        if records[at].key.same(key) {
            rows.push((records[at].id, payload_bytes(&records[at].payload)));
            assert(row_views(rows@) =~= row_views(before).push(
                (all[at as int].id, all[at as int].payload),
            ));
            assert(rows_of(all.take(at as int).filter(keep).push(all[at as int])) =~= rows_of(
                all.take(at as int).filter(keep),
            ).push((all[at as int].id, all[at as int].payload)));
        }
        at += 1;
    }
    proof {
        let seen = all.take(at as int);
        let rest = all.skip(at as int);
        assert(all =~= seen + rest);
        Seq::filter_distributes_over_add(seen, rest, keep);
        let owned = owned_by(all, key@);
        assert(owned == seen.filter(keep) + rest.filter(keep));
        assert(seen.filter(keep).len() == rows@.len());
        if at == records.len() {
            lemma_filter_none(keep);
            assert(rest =~= Seq::empty());
            assert(owned =~= seen.filter(keep));
            assert(owned.take(owned.len() as int) =~= owned);
        } else {
            assert(owned.take(limit as int) =~= seen.filter(keep));
        }
    }
    rows
}

/// In a log in order, the records with an identifier above `id` are the
/// first of the log, and no record behind them has one.
pub proof fn lemma_newer_are_first(records: Seq<RecordView>, id: u128)
    requires
        descending(records),
    ensures
        newer_than(records, id) == records.take(newer_than(records, id).len() as int),
        newer_than(records, id).len() <= records.len(),
        forall|j: int| 0 <= j < newer_than(records, id).len() ==> (#[trigger] records[j]).id > id,
        forall|j: int|
            newer_than(records, id).len() <= j < records.len() ==> (#[trigger] records[j]).id
                <= id,
    decreases records.len(),
{
    reveal(Seq::filter);
    if records.len() > 0 {
        let rest = records.drop_last();
        lemma_newer_are_first(rest, id);
        let n = newer_than(rest, id).len() as int;
        if records.last().id > id {
            if n < rest.len() {
                assert(rest[n].id <= id);
                assert(records[n].id > records[records.len() - 1].id);
            }
            assert(newer_than(records, id) =~= records);
            assert(records.take(records.len() as int) =~= records);
        } else {
            assert(rest.take(n) =~= records.take(n));
        }
    } else {
        assert(records.take(0) =~= records);
    }
}

/// A record with a new identifier, placed in a log in order, leaves the log
/// in order.
pub proof fn lemma_with_record_ordered(records: Seq<RecordView>, record: RecordView)
    requires
        descending(records),
        !has_id(records, record.id),
    ensures
        descending(with_record(records, record)),
        with_record(records, record).len() == records.len() + 1,
{
    lemma_newer_are_first(records, record.id);
    let n = newer_than(records, record.id).len() as int;
    let after = with_record(records, record);
    assert forall|i: int, j: int| 0 <= i < j < after.len() implies after[i].id > after[j].id by {
        if j < n {
            assert(after[i] == records[i] && after[j] == records[j]);
        } else if j == n {
            assert(after[i] == records[i]);
        } else if i < n {
            assert(after[i] == records[i] && after[j] == records[j - 1]);
            assert(records[j - 1].id <= record.id);
        } else if i == n {
            assert(after[j] == records[j - 1]);
            assert(records[j - 1].id != record.id);
        } else {
            assert(after[i] == records[i - 1] && after[j] == records[j - 1]);
        }
    }
}

/// The records that a selection keeps of a log in order are in order, each
/// is a record of the log that the selection keeps, and every such record is
/// among them.
pub proof fn lemma_selection_of_ordered(records: Seq<RecordView>, keep: spec_fn(RecordView) -> bool)
    requires
        descending(records),
    ensures
        descending(records.filter(keep)),
        forall|i: int|
            0 <= i < records.filter(keep).len() ==> {
                &&& keep(#[trigger] records.filter(keep)[i])
                &&& records.contains(records.filter(keep)[i])
            },
        forall|i: int|
            0 <= i < records.len() && keep(records[i]) ==> records.filter(keep).contains(
                #[trigger] records[i],
            ),
    decreases records.len(),
{
    reveal(Seq::filter);
    let kept = records.filter(keep);
    if records.len() > 0 {
        let rest = records.drop_last();
        lemma_selection_of_ordered(rest, keep);
        let earlier = rest.filter(keep);
        assert forall|i: int| 0 <= i < earlier.len() implies (#[trigger] earlier[i]).id
            > records.last().id by {
            let j = choose|j: int| 0 <= j < rest.len() && rest[j] == earlier[i];
            assert(records[j].id > records[records.len() - 1].id);
        }
        assert forall|i: int| 0 <= i < kept.len() implies records.contains(#[trigger] kept[i]) by {
            if i < earlier.len() {
                let j = choose|j: int| 0 <= j < rest.len() && rest[j] == earlier[i];
                assert(records[j] == earlier[i]);
            } else {
                assert(records[records.len() - 1] == kept[i]);
            }
        }
        assert forall|i: int| 0 <= i < records.len() && keep(records[i]) implies kept.contains(
            #[trigger] records[i],
        ) by {
            if i < rest.len() {
                assert(rest[i] == records[i]);
                let j = choose|j: int| 0 <= j < earlier.len() && earlier[j] == rest[i];
                assert(kept[j] == records[i]);
            } else {
                assert(kept[kept.len() - 1] == records[i]);
            }
        }
    }
}

/// What is left of a log in order, once the records of one credential are
/// taken out, is in order, and holds no record of that credential.
pub proof fn lemma_others_of_ordered(records: Seq<RecordView>, key: Seq<u8>)
    requires
        descending(records),
    ensures
        descending(held_by_others(records, key)),
        forall|i: int|
            0 <= i < held_by_others(records, key).len() ==> {
                &&& (#[trigger] held_by_others(records, key)[i]).key != key
                &&& records.contains(held_by_others(records, key)[i])
            },
{
    lemma_selection_of_ordered(records, |record: RecordView| record.key != key);
}

/// The newest records of a credential are its records with the highest
/// identifiers, the highest first: each is a record of the log that the
/// credential owns, and a record of the credential that is not among them
/// was left out because the limit was reached, and has a lower identifier
/// than every one of them.
pub proof fn lemma_newest_are_highest(records: Seq<RecordView>, key: Seq<u8>, limit: int)
    requires
        descending(records),
    ensures
        descending(newest(records, key, limit)),
        newest(records, key, limit).len() <= owned_by(records, key).len(),
        limit >= 0 ==> newest(records, key, limit).len() <= limit,
        forall|i: int|
            0 <= i < newest(records, key, limit).len() ==> {
                &&& (#[trigger] newest(records, key, limit)[i]).key == key
                &&& records.contains(newest(records, key, limit)[i])
            },
        forall|i: int|
            0 <= i < records.len() && records[i].key == key && !newest(
                records,
                key,
                limit,
            ).contains(#[trigger] records[i]) ==> {
                &&& limit <= 0 || newest(records, key, limit).len() == limit
                &&& forall|j: int|
                    0 <= j < newest(records, key, limit).len() ==> (#[trigger] newest(
                        records,
                        key,
                        limit,
                    )[j]).id > records[i].id
            },
{
    let keep = |record: RecordView| record.key == key;
    lemma_selection_of_ordered(records, keep);
    let owned = owned_by(records, key);
    let top = newest(records, key, limit);
    assert forall|i: int|
        0 <= i < records.len() && records[i].key == key && !top.contains(
            #[trigger] records[i],
        ) implies {
        &&& limit <= 0 || top.len() == limit
        &&& forall|j: int| 0 <= j < top.len() ==> (#[trigger] top[j]).id > records[i].id
    } by {
        assert(keep(records[i]));
        let m = choose|m: int| 0 <= m < owned.len() && owned[m] == records[i];
        if 0 < limit < owned.len() {
            if m < limit {
                assert(top[m] == records[i]);
            }
            assert forall|j: int| 0 <= j < top.len() implies (#[trigger] top[j]).id
                > records[i].id by {
                assert(owned[j].id > owned[m].id);
            }
        } else if limit > 0 {
            assert(top[m] == records[i]);
        }
    }
}

proof fn lemma_filter_insert<A>(items: Seq<A>, keep: spec_fn(A) -> bool, at: int, item: A)
    requires
        0 <= at <= items.len(),
    ensures
        items.insert(at, item).filter(keep) == if keep(item) {
            items.take(at).filter(keep).push(item) + items.skip(at).filter(keep)
        } else {
            items.filter(keep)
        },
        items.filter(keep) == items.take(at).filter(keep) + items.skip(at).filter(keep),
{
    reveal(Seq::filter);
    let head = items.take(at);
    let tail = items.skip(at);
    assert(items =~= head + tail);
    assert(items.insert(at, item) =~= head.push(item) + tail);
    Seq::filter_distributes_over_add(head, tail, keep);
    Seq::filter_distributes_over_add(head.push(item), tail, keep);
    assert(head.push(item).drop_last() =~= head);
}

/// Storing a record under one credential changes nothing in what another
/// credential owns, and so nothing in what a query for the other returns.
pub proof fn lemma_insert_leaves_others(
    records: Seq<RecordView>,
    record: RecordView,
    key: Seq<u8>,
    limit: int,
)
    requires
        record.key != key,
    ensures
        owned_by(with_record(records, record), key) == owned_by(records, key),
        newest(with_record(records, record), key, limit) == newest(records, key, limit),
{
    broadcast use Seq::lemma_filter_len;

    let at = newer_than(records, record.id).len() as int;
    lemma_filter_insert(records, |other: RecordView| other.key == key, at, record);
}

/// Every record that a query for a credential returns is owned by that
/// credential.
pub proof fn lemma_newest_are_owned(records: Seq<RecordView>, key: Seq<u8>, limit: int)
    ensures
        forall|i: int|
            0 <= i < newest(records, key, limit).len() ==> (#[trigger] newest(
                records,
                key,
                limit,
            )[i]).key == key,
{
    broadcast use Seq::lemma_filter_pred;

    let owned = owned_by(records, key);
    assert forall|i: int| 0 <= i < newest(records, key, limit).len() implies (#[trigger] newest(
        records,
        key,
        limit,
    )[i]).key == key by {
        assert(newest(records, key, limit)[i] == owned[i]);
    }
}

/// Once a credential is removed, nothing is left of what it owned, and every
/// other credential owns what it owned before.
pub proof fn lemma_removal_takes_own_records_only(
    records: Seq<RecordView>,
    key: Seq<u8>,
    other: Seq<u8>,
)
    ensures
        owned_by(held_by_others(records, key), key) == Seq::<RecordView>::empty(),
        other != key ==> owned_by(held_by_others(records, key), other) == owned_by(records, other),
        forall|i: int|
            0 <= i < held_by_others(records, key).len() ==> (#[trigger] held_by_others(
                records,
                key,
            )[i]).key != key,
    decreases records.len(),
{
    reveal(Seq::filter);
    broadcast use Seq::lemma_filter_pred;

    if records.len() > 0 {
        lemma_removal_takes_own_records_only(records.drop_last(), key, other);
        let last = records.last();
        let rest = held_by_others(records.drop_last(), key);
        if last.key != key {
            assert(held_by_others(records, key).drop_last() =~= rest);
        }
    }
}

/// A stored record adds one to the count of its credential's window if it
/// was created in the window, and nothing to any other count.
pub proof fn lemma_insert_counts_once(
    records: Seq<RecordView>,
    record: RecordView,
    key: Seq<u8>,
    since: int,
)
    ensures
        within(with_record(records, record), key, since).len() == within(records, key, since).len()
            + if record.key == key && record.created_at >= since {
            1nat
        } else {
            0nat
        },
{
    broadcast use Seq::lemma_filter_len;

    let at = newer_than(records, record.id).len() as int;
    lemma_filter_insert(
        records,
        |other: RecordView| other.key == key && other.created_at >= since,
        at,
        record,
    );
}

/// A record created at `now` lies in every window that ends at `now`, so a
/// stored submission adds one to the count that the next one is judged by.
pub proof fn lemma_stored_submission_counts(
    records: Seq<RecordView>,
    record: RecordView,
    now: u64,
    window: u64,
)
    requires
        record.created_at == now,
    ensures
        within(with_record(records, record), record.key, now - window).len() == within(
            records,
            record.key,
            now - window,
        ).len() + 1,
{
    lemma_insert_counts_once(records, record, record.key, now - window);
}

/// Where a credential owns exactly three records, a query for two returns
/// the two with the highest identifiers, the highest first, in whatever
/// order the three were stored.
pub proof fn lemma_two_newest_of_three(
    records: Seq<RecordView>,
    key: Seq<u8>,
    low: RecordView,
    mid: RecordView,
    high: RecordView,
)
    requires
        descending(records),
        low.key == key && mid.key == key && high.key == key,
        low.id < mid.id < high.id,
        records.contains(low) && records.contains(mid) && records.contains(high),
        forall|i: int|
            0 <= i < records.len() && (#[trigger] records[i]).key == key ==> records[i] == low
                || records[i] == mid || records[i] == high,
    ensures
        newest(records, key, 2) == seq![high, mid],
        displayed(newest(records, key, 2)).len() == 2,
        displayed(newest(records, key, 2))[0].uuidv7 == hyphenated(high.id),
        displayed(newest(records, key, 2))[1].uuidv7 == hyphenated(mid.id),
{
    let keep = |record: RecordView| record.key == key;
    lemma_selection_of_ordered(records, keep);
    let owned = owned_by(records, key);
    assert forall|i: int| 0 <= i < owned.len() implies (#[trigger] owned[i]) == low || owned[i]
        == mid || owned[i] == high by {
        let j = choose|j: int| 0 <= j < records.len() && records[j] == owned[i];
        assert(keep(owned[i]));
        assert(records[j].key == key);
    }
    let at_low = choose|i: int| 0 <= i < records.len() && records[i] == low;
    let at_mid = choose|i: int| 0 <= i < records.len() && records[i] == mid;
    let at_high = choose|i: int| 0 <= i < records.len() && records[i] == high;
    assert(keep(records[at_low]) && keep(records[at_mid]) && keep(records[at_high]));
    let l = choose|i: int| 0 <= i < owned.len() && owned[i] == low;
    let m = choose|i: int| 0 <= i < owned.len() && owned[i] == mid;
    let h = choose|i: int| 0 <= i < owned.len() && owned[i] == high;
    if h > 0 {
        assert(owned[0].id > owned[h].id);
    }
    if m < h {
        assert(owned[m].id > owned[h].id);
    }
    if m > 1 {
        assert(owned[0].id > owned[1].id && owned[1].id > owned[m].id);
    }
    if l < m {
        assert(owned[l].id > owned[m].id);
    }
    if l > 2 {
        assert(owned[1].id > owned[2].id && owned[2].id > owned[l].id);
    }
    if owned.len() > 3 {
        assert(owned[2].id > owned[3].id);
    }
    assert(owned.take(2) =~= seq![high, mid]);
}

/// Storing a record adds that record to the log and nothing else, and takes
/// nothing out of it.
pub proof fn lemma_with_record_holds(records: Seq<RecordView>, record: RecordView)
    ensures
        forall|other: RecordView|
            #![trigger with_record(records, record).contains(other)]
            #![trigger records.contains(other)]
            with_record(records, record).contains(other) <==> other == record || records.contains(
                other,
            ),
{
    broadcast use Seq::lemma_filter_len;

    let at = newer_than(records, record.id).len() as int;
    let after = with_record(records, record);
    assert forall|other: RecordView| after.contains(other) <==> other == record
        || records.contains(other) by {
        if after.contains(other) {
            let i = choose|i: int| 0 <= i < after.len() && after[i] == other;
            if i < at {
                assert(records[i] == other);
            } else if i > at {
                assert(records[i - 1] == other);
            }
        }
        if records.contains(other) {
            let i = choose|i: int| 0 <= i < records.len() && records[i] == other;
            if i < at {
                assert(after[i] == other);
            } else {
                assert(after[i + 1] == other);
            }
        }
        if other == record {
            assert(after[at] == other);
        }
    }
}

/// The record with the highest identifier of three.
pub open spec fn highest_of(a: RecordView, b: RecordView, c: RecordView) -> RecordView {
    if a.id >= b.id && a.id >= c.id {
        a
    } else if b.id >= c.id {
        b
    } else {
        c
    }
}

/// The record with the lowest identifier of three.
pub open spec fn lowest_of(a: RecordView, b: RecordView, c: RecordView) -> RecordView {
    if a.id <= b.id && a.id <= c.id {
        a
    } else if b.id <= c.id {
        b
    } else {
        c
    }
}

/// The record of three whose identifier lies between the other two.
pub open spec fn middle_of(a: RecordView, b: RecordView, c: RecordView) -> RecordView {
    if (b.id <= a.id && a.id <= c.id) || (c.id <= a.id && a.id <= b.id) {
        a
    } else if (a.id <= b.id && b.id <= c.id) || (c.id <= b.id && b.id <= a.id) {
        b
    } else {
        c
    }
}

/// Three records stored for a credential that owned none, in whatever
/// order, are answered to a query for two with the highest identifier first
/// and the middle one second; the lowest is left out.
pub proof fn lemma_three_stored_two_returned(
    records: Seq<RecordView>,
    key: Seq<u8>,
    first: RecordView,
    second: RecordView,
    third: RecordView,
)
    requires
        descending(records),
        owned_by(records, key) == Seq::<RecordView>::empty(),
        first.key == key && second.key == key && third.key == key,
        first.id != second.id && first.id != third.id && second.id != third.id,
        !has_id(records, first.id) && !has_id(records, second.id) && !has_id(records, third.id),
    ensures
        ({
            let log = with_record(with_record(with_record(records, first), second), third);
            &&& descending(log)
            &&& newest(log, key, 2) == seq![
                highest_of(first, second, third),
                middle_of(first, second, third),
            ]
            &&& !newest(log, key, 2).contains(lowest_of(first, second, third))
            &&& displayed(newest(log, key, 2)).len() == 2
            &&& displayed(newest(log, key, 2))[0].uuidv7 == hyphenated(
                highest_of(first, second, third).id,
            )
            &&& displayed(newest(log, key, 2))[1].uuidv7 == hyphenated(
                middle_of(first, second, third).id,
            )
        }),
{
    let one = with_record(records, first);
    let two = with_record(one, second);
    let log = with_record(two, third);
    lemma_with_record_holds(records, first);
    lemma_with_record_holds(one, second);
    lemma_with_record_holds(two, third);
    lemma_with_record_ordered(records, first);
    assert(!has_id(one, second.id)) by {
        if has_id(one, second.id) {
            let i = choose|i: int| 0 <= i < one.len() && (#[trigger] one[i]).id == second.id;
            assert(one.contains(one[i]));
            if one[i] != first {
                let j = choose|j: int| 0 <= j < records.len() && records[j] == one[i];
                assert(records[j].id == second.id);
            }
        }
    }
    lemma_with_record_ordered(one, second);
    assert(!has_id(two, third.id)) by {
        if has_id(two, third.id) {
            let i = choose|i: int| 0 <= i < two.len() && (#[trigger] two[i]).id == third.id;
            assert(two.contains(two[i]));
            if two[i] != second && two[i] != first {
                let j = choose|j: int| 0 <= j < records.len() && records[j] == two[i];
                assert(records[j].id == third.id);
            }
        }
    }
    lemma_with_record_ordered(two, third);
    assert forall|i: int| 0 <= i < log.len() && (#[trigger] log[i]).key == key implies log[i]
        == first || log[i] == second || log[i] == third by {
        assert(log.contains(log[i]));
        if log[i] != first && log[i] != second && log[i] != third {
            let j = choose|j: int| 0 <= j < records.len() && records[j] == log[i];
            lemma_selection_of_ordered(records, |record: RecordView| record.key == key);
            assert(owned_by(records, key).contains(records[j]));
        }
    }
    assert(one.contains(first));
    assert(two.contains(first) && two.contains(second));
    assert(log.contains(first) && log.contains(second) && log.contains(third));
    let low = lowest_of(first, second, third);
    let mid = middle_of(first, second, third);
    let high = highest_of(first, second, third);
    lemma_two_newest_of_three(log, key, low, mid, high);
    assert(seq![high, mid][0] == high && seq![high, mid][1] == mid);
}

/// Once every record of a credential was created before the window began,
/// a submission of that credential is admitted under any cap of one or more.
pub proof fn lemma_admitted_after_window(
    records: Seq<RecordView>,
    key: Seq<u8>,
    now: u64,
    window: u64,
    cap: i64,
)
    requires
        cap >= 1,
        forall|i: int|
            0 <= i < records.len() && (#[trigger] records[i]).key == key ==> records[i].created_at
                < now - window,
    ensures
        admits(recent_count(records, key, now, window), cap),
{
    lemma_window_elapsed(records, key, now - window);
}

/// Records that were all created before a window began count for nothing
/// in it.
pub proof fn lemma_window_elapsed(records: Seq<RecordView>, key: Seq<u8>, since: int)
    requires
        forall|i: int|
            0 <= i < records.len() && (#[trigger] records[i]).key == key ==> records[i].created_at
                < since,
    ensures
        within(records, key, since).len() == 0,
    decreases records.len(),
{
    reveal(Seq::filter);
    if records.len() > 0 {
        let rest = records.drop_last();
        assert forall|i: int| 0 <= i < rest.len() && (#[trigger] rest[i]).key == key implies rest[i].created_at
            < since by {
            assert(rest[i] == records[i]);
        }
        lemma_window_elapsed(rest, key, since);
        assert(records.last() == records[records.len() - 1]);
    }
}

} // verus!
