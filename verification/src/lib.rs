//! A minimal content-addressed blob store. Callers submit raw byte payloads
//! under a human-readable name; the store files each payload under the
//! hexadecimal digest of its bytes, rejects payloads over a configured size
//! ceiling, rejects re-submission of already-known content, and hands stored
//! content back by its digest. After every successful operation it appends
//! one notification event to an internal log.

use vstd::prelude::*;

pub mod events;
pub mod hashing;

use events::{EventKind, FileRetrieved, FileStored, StorageEvent};
use hashing::digest_hex_of;

verus! {

/// The ways an operation can fail. Every failure leaves the store unchanged.
#[derive(Debug, Clone, Copy, PartialEq, Eq, Structural)]
pub enum StorageError {
    /// The payload is longer than the store's size ceiling, which is reported.
    PayloadTooLarge { limit: u32 },
    /// A payload with the same digest is already stored.
    DuplicateContent,
    /// No payload is stored under the requested digest.
    NotFound,
}

/// One stored entry: the digest it is filed under, the caller's name for it,
/// and the payload bytes. Never mutated once stored.
struct StoredRecord {
    hash: String,
    name: String,
    payload: Vec<u8>,
}

/// The store: a write-once mapping from content digest to (name, payload),
/// a size ceiling fixed at construction, and the append-only event log.
pub struct FileStorage {
    records: Vec<StoredRecord>,
    file_size_limit: u32,
    events: Vec<StorageEvent>,
}

/// The default payload ceiling, in bytes.
pub const DEFAULT_FILE_SIZE_LIMIT: u32 = 512000;

/// The mapping that a sequence of records holds: each record's digest maps to
/// its (name, payload).
spec fn map_of(records: Seq<StoredRecord>) -> Map<Seq<char>, (Seq<char>, Seq<u8>)>
    decreases records.len(),
{
    if records.len() == 0 {
        Map::empty()
    } else {
        map_of(records.drop_last()).insert(
            records.last().hash@,
            (records.last().name@, records.last().payload@),
        )
    }
}

/// Well-formed records: digests are pairwise distinct, and each record is
/// filed under the digest of its own payload.
spec fn wf_records(records: Seq<StoredRecord>) -> bool {
    &&& forall|i: int, j: int|
        0 <= i < j < records.len() ==> records[i].hash@ != records[j].hash@
    &&& forall|i: int|
        0 <= i < records.len() ==> records[i].hash@ == digest_hex_of(records[i].payload@)
}

/// A key is in the mapping exactly when some record carries it.
proof fn lemma_map_of_dom(records: Seq<StoredRecord>)
    ensures
        forall|k: Seq<char>|
            map_of(records).dom().contains(k) <==> exists|i: int|
                0 <= i < records.len() && #[trigger] records[i].hash@ == k,
    decreases records.len(),
{
    if records.len() > 0 {
        lemma_map_of_dom(records.drop_last());
        assert forall|k: Seq<char>| map_of(records).dom().contains(k) implies exists|i: int|
            0 <= i < records.len() && #[trigger] records[i].hash@ == k by {
            if k == records.last().hash@ {
                assert(records[records.len() - 1].hash@ == k);
            } else {
                assert(map_of(records.drop_last()).dom().contains(k));
                let i = choose|i: int|
                    0 <= i < records.drop_last().len() && #[trigger] records.drop_last()[i].hash@
                        == k;
                assert(records.drop_last()[i] == records[i]);
                assert(records[i].hash@ == k);
            }
        }
        assert forall|k: Seq<char>|
            (exists|i: int|
                0 <= i < records.len() && #[trigger] records[i].hash@ == k) implies map_of(
            records,
        ).dom().contains(k) by {
            let i = choose|i: int| 0 <= i < records.len() && #[trigger] records[i].hash@ == k;
            if i < records.len() - 1 {
                assert(records.drop_last()[i].hash@ == k);
                assert(map_of(records.drop_last()).dom().contains(k));
            } else {
                assert(k == records.last().hash@);
            }
        }
    }
}

/// Under distinct digests, the mapping sends each record's digest to that
/// record's (name, payload).
proof fn lemma_map_of_get(records: Seq<StoredRecord>, i: int)
    requires
        0 <= i < records.len(),
        forall|p: int, q: int|
            0 <= p < q < records.len() ==> records[p].hash@ != records[q].hash@,
    ensures
        map_of(records).dom().contains(records[i].hash@),
        map_of(records)[records[i].hash@] == (records[i].name@, records[i].payload@),
    decreases records.len(),
{
    if i == records.len() - 1 {
    } else {
        lemma_map_of_get(records.drop_last(), i);
        assert(records.drop_last()[i] == records[i]);
        assert(records[i].hash@ != records.last().hash@);
    }
}

impl FileStorage {
    /// The mapping this store holds, from digest to (name, payload).
    pub closed spec fn records_map(self) -> Map<Seq<char>, (Seq<char>, Seq<u8>)> {
        map_of(self.records@)
    }

    /// The store's size ceiling, in bytes.
    pub closed spec fn size_limit(self) -> u32 {
        self.file_size_limit
    }

    /// The notification log, oldest event first.
    pub closed spec fn event_log(self) -> Seq<(EventKind, Seq<char>, Seq<char>)> {
        self.events@.map(|i: int, e: StorageEvent| e@)
    }

    /// The store's invariant: every record is filed under the digest of its
    /// own payload, and no digest is filed twice.
    pub closed spec fn wf(self) -> bool {
        wf_records(self.records@)
    }

    /// Create a new, empty store with the default payload ceiling.
    pub fn instantiate() -> (s: FileStorage)
        ensures
            s.wf(),
            s.records_map() == Map::<Seq<char>, (Seq<char>, Seq<u8>)>::empty(),
            s.size_limit() == DEFAULT_FILE_SIZE_LIMIT,
            s.event_log() == Seq::<(EventKind, Seq<char>, Seq<char>)>::empty(),
    {
        Self::instantiate_with_limit(DEFAULT_FILE_SIZE_LIMIT)
    }

    /// Create a new, empty store whose payload ceiling is `file_size_limit`.
    pub fn instantiate_with_limit(file_size_limit: u32) -> (s: FileStorage)
        ensures
            s.wf(),
            s.records_map() == Map::<Seq<char>, (Seq<char>, Seq<u8>)>::empty(),
            s.size_limit() == file_size_limit,
            s.event_log() == Seq::<(EventKind, Seq<char>, Seq<char>)>::empty(),
    {
        let s = FileStorage { records: Vec::new(), file_size_limit, events: Vec::new() };
        proof {
            assert(s.event_log() =~= Seq::<(EventKind, Seq<char>, Seq<char>)>::empty());
        }
        s
    }

    /// The index of the record filed under `file_hash`, if any.
    fn find_record(&self, file_hash: &String) -> (r: Option<usize>)
        ensures
            match r {
                Some(i) => i < self.records@.len() && self.records@[i as int].hash@ == file_hash@,
                None => forall|i: int|
                    0 <= i < self.records@.len() ==> self.records@[i].hash@ != file_hash@,
            },
    {
        let mut i: usize = 0;
        while i < self.records.len()
            invariant
                i <= self.records@.len(),
                forall|j: int| 0 <= j < i ==> self.records@[j].hash@ != file_hash@,
            decreases self.records@.len() - i,
        {
            if self.records[i].hash == *file_hash {
                return Some(i);
            }
            i = i + 1;
        }
        None
    }

    /// Store `bytes` under `file_name`, filed by the digest of `bytes`, and
    /// return that digest as a hexadecimal string.
    ///
    /// Succeeds exactly when the payload is within the size ceiling and its
    /// digest is not yet a key: then the record is added, one `Stored` event
    /// is appended, and the digest is returned. An over-long payload is
    /// rejected with `PayloadTooLarge` (reporting the ceiling); a payload
    /// whose digest is already filed is rejected with `DuplicateContent`.
    /// Every failure leaves the store exactly as it was.
    pub fn store_file(&mut self, bytes: Vec<u8>, file_name: String) -> (r: Result<
        String,
        StorageError,
    >)
        requires
            old(self).wf(),
        ensures
            final(self).wf(),
            final(self).size_limit() == old(self).size_limit(),
            r is Ok <==> (bytes@.len() <= old(self).size_limit()
                && !old(self).records_map().dom().contains(digest_hex_of(bytes@))),
            r is Ok ==> {
                &&& r->Ok_0@ == digest_hex_of(bytes@)
                &&& final(self).records_map() == old(self).records_map().insert(
                    digest_hex_of(bytes@),
                    (file_name@, bytes@),
                )
                &&& final(self).event_log() == old(self).event_log().push(
                    (EventKind::Stored, digest_hex_of(bytes@), file_name@),
                )
            },
            bytes@.len() > old(self).size_limit() ==> r == Err::<String, StorageError>(
                StorageError::PayloadTooLarge { limit: old(self).size_limit() },
            ),
            bytes@.len() <= old(self).size_limit() && old(self).records_map().dom().contains(
                digest_hex_of(bytes@),
            ) ==> r == Err::<String, StorageError>(StorageError::DuplicateContent),
            r is Err ==> *final(self) == *old(self),
    {
        if bytes.len() > self.file_size_limit as usize {
            return Err(StorageError::PayloadTooLarge { limit: self.file_size_limit });
        }
        let file_hash = hashing::content_hash_hex(&bytes);
        proof {
            lemma_map_of_dom(self.records@);
        }
        match self.find_record(&file_hash) {
            Some(_) => Err(StorageError::DuplicateContent),
            None => {
                let ghost old_records = self.records@;
                let ghost old_events = self.events@;
                let hash_for_event = file_hash.clone();
                let name_for_event = file_name.clone();
                self.records.push(
                    StoredRecord { hash: file_hash.clone(), name: file_name, payload: bytes },
                );
                self.events.push(
                    StorageEvent::Stored(
                        FileStored { file_hash: hash_for_event, file_name: name_for_event },
                    ),
                );
                proof {
                    assert(self.records@.drop_last() =~= old_records);
                    assert(self.event_log() =~= old_events.map(|i: int, e: StorageEvent| e@).push(
                        (EventKind::Stored, digest_hex_of(bytes@), file_name@),
                    ));
                }
                Ok(file_hash)
            },
        }
    }

    /// Return a copy of the (name, payload) stored under `file_hash`.
    ///
    /// Succeeds exactly when `file_hash` is a key of the store: then one
    /// `Retrieved` event is appended and a copy of the record is returned;
    /// the stored records themselves are never changed. An unknown digest is
    /// rejected with `NotFound`, which leaves the store exactly as it was.
    pub fn get_file(&mut self, file_hash: String) -> (r: Result<(String, Vec<u8>), StorageError>)
        requires
            old(self).wf(),
        ensures
            final(self).wf(),
            final(self).records_map() == old(self).records_map(),
            final(self).size_limit() == old(self).size_limit(),
            r is Ok <==> old(self).records_map().dom().contains(file_hash@),
            r is Ok ==> {
                &&& (r->Ok_0.0@, r->Ok_0.1@) == old(self).records_map()[file_hash@]
                &&& final(self).event_log() == old(self).event_log().push(
                    (EventKind::Retrieved, file_hash@, old(self).records_map()[file_hash@].0),
                )
            },
            r is Err ==> r == Err::<(String, Vec<u8>), StorageError>(StorageError::NotFound)
                && *final(self) == *old(self),
    {
        proof {
            lemma_map_of_dom(self.records@);
        }
        match self.find_record(&file_hash) {
            None => Err(StorageError::NotFound),
            Some(i) => {
                proof {
                    lemma_map_of_get(self.records@, i as int);
                }
                let ghost old_events = self.events@;
                let ghost hash_view = file_hash@;
                let file_name = self.records[i].name.clone();
                let payload = clone_bytes(&self.records[i].payload);
                self.events.push(
                    StorageEvent::Retrieved(
                        FileRetrieved { file_hash, file_name: file_name.clone() },
                    ),
                );
                proof {
                    assert(self.event_log() =~= old_events.map(|j: int, e: StorageEvent| e@).push(
                        (EventKind::Retrieved, hash_view, file_name@),
                    ));
                }
                Ok((file_name, payload))
            },
        }
    }

    /// The store's payload ceiling, in bytes.
    pub fn size_limit_bytes(&self) -> (n: u32)
        ensures
            n == self.size_limit(),
    {
        self.file_size_limit
    }

    /// How many notification events the store has logged.
    pub fn event_count(&self) -> (n: usize)
        ensures
            n == self.event_log().len(),
    {
        self.events.len()
    }

    /// The `i`-th notification event, oldest first.
    pub fn event_at(&self, i: usize) -> (e: &StorageEvent)
        requires
            i < self.event_log().len(),
        ensures
            e@ == self.event_log()[i as int],
    {
        &self.events[i]
    }
}

/// Law: hashing is deterministic — equal byte sequences always have equal
/// digests, so a payload's key never depends on when or where it is hashed.
pub proof fn lemma_digest_deterministic(b1: Seq<u8>, b2: Seq<u8>)
    requires
        b1 == b2,
    ensures
        digest_hex_of(b1) == digest_hex_of(b2),
{
}

/// Law: a successful store of `(payload, name)` turns the record map `m` into
/// `m.insert(digest_hex_of(payload), (name, payload))` (see `store_file`), and
/// under that map the returned digest reads back exactly `(name, payload)`
/// (see `get_file`): store followed by retrieve round-trips.
pub proof fn lemma_store_then_retrieve(
    m: Map<Seq<char>, (Seq<char>, Seq<u8>)>,
    name: Seq<char>,
    payload: Seq<u8>,
)
    ensures
        m.insert(digest_hex_of(payload), (name, payload)).dom().contains(digest_hex_of(payload)),
        m.insert(digest_hex_of(payload), (name, payload))[digest_hex_of(payload)] == (
            name,
            payload,
        ),
{
}

/// Law: duplicates are rejected and the first submission wins. After a store
/// of `(payload, name1)`, the digest of `payload` is a key of the map, so by
/// `store_file`'s contract a second store of the same payload — under any
/// name — fails with `DuplicateContent` and changes nothing; the record for
/// that digest still carries `name1` and `payload`.
pub proof fn lemma_duplicate_keeps_first(
    m: Map<Seq<char>, (Seq<char>, Seq<u8>)>,
    name1: Seq<char>,
    name2: Seq<char>,
    payload: Seq<u8>,
)
    ensures
        m.insert(digest_hex_of(payload), (name1, payload)).dom().contains(digest_hex_of(payload)),
        m.insert(digest_hex_of(payload), (name1, payload))[digest_hex_of(payload)] == (
            name1,
            payload,
        ),
{
}

/// Law: retrieval is repeatable. `get_file` leaves the record map unchanged
/// and returns the map's entry for the requested digest, so any two
/// retrievals of the same digest — and hence any number of them — return the
/// same (name, payload).
pub proof fn lemma_retrieval_repeatable(
    m0: Map<Seq<char>, (Seq<char>, Seq<u8>)>,
    m1: Map<Seq<char>, (Seq<char>, Seq<u8>)>,
    h: Seq<char>,
    r1: (Seq<char>, Seq<u8>),
    r2: (Seq<char>, Seq<u8>),
)
    requires
        m1 == m0,
        m0.dom().contains(h),
        r1 == m0[h],
        r2 == m1[h],
    ensures
        r1 == r2,
{
}

/// A copy of the byte vector.
fn clone_bytes(v: &Vec<u8>) -> (r: Vec<u8>)
    ensures
        r@ == v@,
{
    let mut r: Vec<u8> = Vec::new();
    let mut i: usize = 0;
    while i < v.len()
        invariant
            i <= v@.len(),
            r@.len() == i,
            forall|j: int| 0 <= j < i ==> r@[j] == v@[j],
        decreases v@.len() - i,
    {
        r.push(v[i]);
        i = i + 1;
    }
    proof {
        assert(r@ =~= v@);
    }
    r
}

} // verus!
