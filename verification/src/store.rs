//! The store: one container, the log, the expiration table and the
//! transaction buffer behind one set of operations.
//!
//! `StoreState` is what a store is in plain values, and its spec functions
//! say what each operation does to it. The operations of `KvStore` are proved
//! to do exactly that. They also say what a restart keeps: a put, a delete
//! and a commit leave a store that a replay of its log rebuilds, and a
//! snapshot is read back as the pairs it was taken from.

use vstd::prelude::*;
use crate::laws::{law_commit_keeps_in_step, law_keys_stay_bar_free, law_step_keeps_in_step};
use crate::laws::{lemma_load_snapshot_bar_free, lemma_replay_bar_free, lemma_snapshot_reads_back};
use crate::record::{decode_snapshot, decode_snapshot_line, delete_line, encode_delete, encode_put};
use crate::record::{encode_snapshot, is_valid_key, put_line, snapshot_line, valid_key, Mutation};
use crate::storage::{file_lines, load_file, pair_texts, FileStorage, MemStorage, Storage};
use crate::table::{assoc_map, distinct_keys, every_key, with_pair, without_key, Table};
use crate::table::{lemma_distinct_prefix, lemma_every_key_with, lemma_every_key_without};
use crate::table::lemma_without_key;
use crate::text::texts;
use crate::wal::{replay, replay_onto, Wal};

verus! {

/// Where a store keeps its records.
pub enum Backend {
    Memory,
    File(String),
}

/// Why the store refused an operation.
#[derive(Debug, Clone, Copy, PartialEq, Eq)]
pub enum StoreError {
    /// The key is empty, too long, or holds the log's delimiter.
    InvalidKey,
}

/// One of the two containers.
pub enum StorageKind {
    Memory(MemStorage),
    File(FileStorage),
}

impl StorageKind {
    /// The path of the mirrored file, for the file-backed container.
    pub open spec fn path(&self) -> Option<Seq<char>> {
        match self {
            StorageKind::Memory(_) => None,
            StorageKind::File(f) => Some(f.path()),
        }
    }
}

impl Storage for StorageKind {
    open spec fn pairs(&self) -> Seq<(Seq<char>, Seq<char>)> {
        match self {
            StorageKind::Memory(m) => m.pairs(),
            StorageKind::File(f) => f.pairs(),
        }
    }

    fn get(&self, key: &str) -> (r: Option<String>) {
        match self {
            StorageKind::Memory(m) => m.get(key),
            StorageKind::File(f) => f.get(key),
        }
    }

    fn insert(&mut self, key: String, value: String) -> (r: Option<String>)
        ensures
            final(self).path() == old(self).path(),
    {
        match self {
            StorageKind::Memory(m) => m.insert(key, value),
            StorageKind::File(f) => f.insert(key, value),
        }
    }

    fn delete(&mut self, key: &str) -> (existed: bool)
        ensures
            final(self).path() == old(self).path(),
    {
        match self {
            StorageKind::Memory(m) => m.delete(key),
            StorageKind::File(f) => f.delete(key),
        }
    }

    fn iter(&self) -> (all: Vec<(String, String)>) {
        match self {
            StorageKind::Memory(m) => m.iter(),
            StorageKind::File(f) => f.iter(),
        }
    }

    fn len(&self) -> (n: usize) {
        match self {
            StorageKind::Memory(m) => m.len(),
            StorageKind::File(f) => f.len(),
        }
    }

    fn clear(&mut self)
        ensures
            final(self).path() == old(self).path(),
    {
        match self {
            StorageKind::Memory(m) => m.clear(),
            StorageKind::File(f) => f.clear(),
        }
    }
}

/// The snapshot lines of `pairs`: one `<key>|<value>` line each, in order.
pub open spec fn snapshot_lines(pairs: Seq<(Seq<char>, Seq<char>)>) -> Seq<Seq<char>> {
    pairs.map_values(|p: (Seq<char>, Seq<char>)| snapshot_line(p.0, p.1))
}

/// The log lines that record `pairs` as puts, in order.
pub open spec fn put_lines(pairs: Seq<(Seq<char>, Seq<char>)>) -> Seq<Seq<char>> {
    pairs.map_values(|p: (Seq<char>, Seq<char>)| put_line(p.0, p.1))
}

/// The pairs that the lines of a snapshot give, read in order on top of
/// `base`. A line that is no record is passed over.
pub open spec fn load_snapshot(base: Seq<(Seq<char>, Seq<char>)>, lines: Seq<Seq<char>>) -> Seq<
    (Seq<char>, Seq<char>),
>
    decreases lines.len(),
{
    if lines.len() == 0 {
        base
    } else {
        let before = load_snapshot(base, lines.drop_last());
        match decode_snapshot(lines.last()) {
            Some((k, v)) => with_pair(before, k, v),
            None => before,
        }
    }
}

/// `base` after each pair of `extra` was stored in it, in order.
pub open spec fn merge(
    base: Seq<(Seq<char>, Seq<char>)>,
    extra: Seq<(Seq<char>, Seq<char>)>,
) -> Seq<(Seq<char>, Seq<char>)>
    decreases extra.len(),
{
    if extra.len() == 0 {
        base
    } else {
        with_pair(merge(base, extra.drop_last()), extra.last().0, extra.last().1)
    }
}

/// Storing pairs with distinct keys in an empty container gives the pairs
/// themselves.
pub proof fn lemma_merge_empty(extra: Seq<(Seq<char>, Seq<char>)>)
    requires
        distinct_keys(extra),
    ensures
        merge(Seq::empty(), extra) == extra,
    decreases extra.len(),
{
    if extra.len() == 0 {
        assert(extra =~= Seq::empty());
    } else {
        lemma_distinct_prefix(extra);
        lemma_merge_empty(extra.drop_last());
        lemma_without_key(extra.drop_last(), extra.last().0);
        assert(extra.drop_last().push(extra.last()) =~= extra);
    }
}

/// Deadlines and the current time are counted in nanoseconds on one clock
/// that never runs backwards.
pub const NANOS_PER_SEC: u64 = 1_000_000_000;

/// The time `secs` seconds after `now`. A time that cannot be counted in
/// 64 bits is the last time of all, which never lies in the past.
pub open spec fn deadline(now: u64, secs: u64) -> u64 {
    if now + secs * NANOS_PER_SEC <= u64::MAX {
        (now + secs * NANOS_PER_SEC) as u64
    } else {
        u64::MAX
    }
}

/// The time `ttl_secs` seconds after `now`.
pub fn deadline_after(now: u64, ttl_secs: u64) -> (d: u64)
    ensures
        d == deadline(now, ttl_secs),
{
    if ttl_secs > (u64::MAX - now) / NANOS_PER_SEC {
        u64::MAX
    } else {
        now + ttl_secs * NANOS_PER_SEC
    }
}

/// Every key is one that the store accepts.
pub open spec fn valid_keys(pairs: Seq<(Seq<char>, Seq<char>)>) -> bool {
    every_key(pairs, |k: Seq<char>| valid_key(k))
}

/// Every key is free of the delimiter of log and snapshot lines.
pub open spec fn bar_free(pairs: Seq<(Seq<char>, Seq<char>)>) -> bool {
    every_key(pairs, |k: Seq<char>| !k.contains('|'))
}

/// A store in plain values.
pub struct StoreState {
    /// The container's pairs, in iteration order.
    pub data: Seq<(Seq<char>, Seq<char>)>,
    /// The lines of the log, oldest first.
    pub log: Seq<Seq<char>>,
    /// The deadline of each key that has one.
    pub deadlines: Map<Seq<char>, u64>,
    /// The buffered writes of the open transaction, if one is open.
    pub tx: Option<Seq<(Seq<char>, Seq<char>)>>,
    /// The path of the mirrored file, if the container is file-backed.
    pub file: Option<Seq<char>>,
}

impl StoreState {
    /// No key occurs twice, neither in the container nor in the buffer, and
    /// the buffer holds only keys that the store accepts.
    pub open spec fn wf(self) -> bool {
        &&& distinct_keys(self.data)
        &&& self.tx.is_some() ==> distinct_keys(self.tx.unwrap()) && valid_keys(self.tx.unwrap())
    }

    /// The container holds exactly what a replay of the log gives: a store
    /// opened on this log would hold the same pairs.
    pub open spec fn in_step(self) -> bool {
        self.data == replay(self.log)
    }

    /// A store over `data` and `log` with no deadlines and no transaction.
    pub open spec fn fresh(
        data: Seq<(Seq<char>, Seq<char>)>,
        log: Seq<Seq<char>>,
        file: Option<Seq<char>>,
    ) -> StoreState {
        StoreState { data, log, deadlines: Map::empty(), tx: None, file }
    }

    /// The value of `k` in the container.
    pub open spec fn lookup(self, k: Seq<char>) -> Option<Seq<char>> {
        if assoc_map(self.data).contains_key(k) {
            Some(assoc_map(self.data)[k])
        } else {
            None
        }
    }

    /// Whether the deadline of `k` lies strictly before `now`.
    pub open spec fn expired(self, k: Seq<char>, now: u64) -> bool {
        self.deadlines.contains_key(k) && self.deadlines[k] < now
    }

    /// What `get` reports: nothing for an expired key, else the container's
    /// value.
    pub open spec fn get_value(self, k: Seq<char>, now: u64) -> Option<Seq<char>> {
        if self.expired(k, now) {
            None
        } else {
            self.lookup(k)
        }
    }

    /// The store after `get`: an expired key is purged, with its deadline.
    pub open spec fn after_get(self, k: Seq<char>, now: u64) -> StoreState {
        if self.expired(k, now) {
            StoreState {
                data: without_key(self.data, k),
                deadlines: self.deadlines.remove(k),
                ..self
            }
        } else {
            self
        }
    }

    /// The lines that `insert` appends to the log: none for a refused key or
    /// inside a transaction, else the put record.
    pub open spec fn insert_lines(self, k: Seq<char>, v: Seq<char>) -> Seq<Seq<char>> {
        if valid_key(k) && self.tx.is_none() {
            seq![put_line(k, v)]
        } else {
            Seq::empty()
        }
    }

    /// What `insert` reports: the error for a refused key; inside a
    /// transaction the value that the buffer held; else the value that the
    /// container held.
    pub open spec fn insert_result(self, k: Seq<char>, v: Seq<char>) -> Result<
        Option<Seq<char>>,
        StoreError,
    > {
        if !valid_key(k) {
            Err(StoreError::InvalidKey)
        } else if self.tx.is_some() {
            if assoc_map(self.tx.unwrap()).contains_key(k) {
                Ok(Some(assoc_map(self.tx.unwrap())[k]))
            } else {
                Ok(None)
            }
        } else {
            Ok(self.lookup(k))
        }
    }

    /// The store after `insert`: unchanged for a refused key; inside a
    /// transaction only the buffer changes; else the record is appended to
    /// the log and the container takes the value.
    pub open spec fn after_insert(self, k: Seq<char>, v: Seq<char>) -> StoreState {
        if !valid_key(k) {
            self
        } else if self.tx.is_some() {
            StoreState { tx: Some(with_pair(self.tx.unwrap(), k, v)), ..self }
        } else {
            StoreState {
                data: with_pair(self.data, k, v),
                log: self.log + self.insert_lines(k, v),
                ..self
            }
        }
    }

    /// What `delete` reports: whether the container holds the key.
    pub open spec fn delete_result(self, k: Seq<char>) -> bool {
        assoc_map(self.data).contains_key(k)
    }

    /// The lines that `delete` appends to the log: none for an absent key or
    /// inside a transaction, else the delete record.
    pub open spec fn delete_lines(self, k: Seq<char>) -> Seq<Seq<char>> {
        if self.delete_result(k) && self.tx.is_none() {
            seq![delete_line(k)]
        } else {
            Seq::empty()
        }
    }

    /// The store after `delete`: unchanged for an absent key; inside a
    /// transaction the key leaves the buffer only; else the record is
    /// appended to the log and the key leaves the container.
    pub open spec fn after_delete(self, k: Seq<char>) -> StoreState {
        if !self.delete_result(k) {
            self
        } else if self.tx.is_some() {
            StoreState { tx: Some(without_key(self.tx.unwrap(), k)), ..self }
        } else {
            StoreState {
                data: without_key(self.data, k),
                log: self.log + self.delete_lines(k),
                ..self
            }
        }
    }

    /// The store after `set_ttl`: the key's deadline is `secs` seconds after
    /// `now`.
    pub open spec fn after_set_ttl(self, k: Seq<char>, secs: u64, now: u64) -> StoreState {
        StoreState { deadlines: self.deadlines.insert(k, deadline(now, secs)), ..self }
    }

    /// The store after `begin_tx`: an empty buffer, in place of any that was
    /// open.
    pub open spec fn after_begin(self) -> StoreState {
        StoreState { tx: Some(Seq::empty()), ..self }
    }

    /// The lines that `commit_tx` appends to the log: a put record for each
    /// buffered write.
    pub open spec fn commit_lines(self) -> Seq<Seq<char>> {
        match self.tx {
            Some(buf) => put_lines(buf),
            None => Seq::empty(),
        }
    }

    /// The store after `commit_tx`: the buffered writes are recorded in the
    /// log and stored in the container, and the buffer is gone.
    pub open spec fn after_commit(self) -> StoreState {
        match self.tx {
            Some(buf) => StoreState {
                data: merge(self.data, buf),
                log: self.log + self.commit_lines(),
                tx: None,
                ..self
            },
            None => self,
        }
    }

    /// The store after `rollback_tx`: the buffer is gone.
    pub open spec fn after_rollback(self) -> StoreState {
        StoreState { tx: None, ..self }
    }

    /// The store after `clear`: the container is empty.
    pub open spec fn after_clear(self) -> StoreState {
        StoreState { data: Seq::empty(), ..self }
    }

    /// The store after `snapshot_and_compact`: the log is empty.
    pub open spec fn after_compact(self) -> StoreState {
        StoreState { log: Seq::empty(), ..self }
    }
}

/// The plain text of an optional string.
pub open spec fn opt_text(s: Option<String>) -> Option<Seq<char>> {
    match s {
        Some(t) => Some(t@),
        None => None,
    }
}

/// The store.
pub struct KvStore {
    storage: StorageKind,
    wal: Wal,
    expirations: Table<u64>,
    tx_buffer: Option<Table<String>>,
}

impl View for KvStore {
    type V = StoreState;

    closed spec fn view(&self) -> StoreState {
        StoreState {
            data: self.storage.pairs(),
            log: self.wal@,
            deadlines: self.expirations@,
            tx: match self.tx_buffer {
                Some(buf) => Some(buf.pairs()),
                None => None,
            },
            file: self.storage.path(),
        }
    }
}

/// Reads the lines of a snapshot, in order, into `storage`.
pub fn load_snapshot_into(storage: &mut MemStorage, lines: &Vec<String>)
    requires
        distinct_keys(old(storage).pairs()),
    ensures
        final(storage).pairs() == load_snapshot(old(storage).pairs(), texts(lines@)),
        distinct_keys(final(storage).pairs()),
{
    let ghost base = storage.pairs();
    let ghost all = texts(lines@);
    assert(all.take(0) =~= Seq::empty());
    let mut i: usize = 0;
    while i < lines.len()
        invariant
            i <= lines.len(),
            all == texts(lines@),
            distinct_keys(storage.pairs()),
            storage.pairs() == load_snapshot(base, all.take(i as int)),
        decreases lines.len() - i,
    {
        assert(all.take(i + 1).drop_last() =~= all.take(i as int));
        assert(all.take(i + 1).last() == lines@[i as int]@);
        match decode_snapshot_line(lines[i].as_str()) {
            Some((k, v)) => {
                storage.insert(k, v);
            },
            None => {},
        }
        i += 1;
    }
    assert(all.take(lines.len() as int) =~= all);
}

/// Stores each of `extra`, in order, in `storage`.
pub fn seed(storage: &mut StorageKind, extra: &Vec<(String, String)>)
    requires
        distinct_keys(old(storage).pairs()),
    ensures
        final(storage).pairs() == merge(old(storage).pairs(), pair_texts(extra@)),
        final(storage).path() == old(storage).path(),
        distinct_keys(final(storage).pairs()),
{
    let ghost base = storage.pairs();
    let ghost all = pair_texts(extra@);
    assert(all.take(0) =~= Seq::empty());
    let mut i: usize = 0;
    while i < extra.len()
        invariant
            i <= extra.len(),
            all == pair_texts(extra@),
            storage.path() == old(storage).path(),
            distinct_keys(storage.pairs()),
            storage.pairs() == merge(base, all.take(i as int)),
        decreases extra.len() - i,
    {
        assert(all.take(i + 1).drop_last() =~= all.take(i as int));
        assert(all.take(i + 1).last() == (extra@[i as int].0@, extra@[i as int].1@));
        let key = extra[i].0.clone();
        let value = extra[i].1.clone();
        storage.insert(key, value);
        i += 1;
    }
    assert(all.take(extra.len() as int) =~= all);
}

impl KvStore {
    /// The store's invariant: no key is stored twice in the container, in
    /// the expiration table or in the transaction buffer, and the buffer
    /// holds only keys that the store accepts.
    pub closed spec fn wf(&self) -> bool {
        &&& distinct_keys(self.storage.pairs())
        &&& self.expirations.wf()
        &&& match self.tx_buffer {
            Some(buf) => buf.wf() && valid_keys(buf.pairs()),
            None => true,
        }
    }

    /// A well-formed store has a well-formed state.
    pub proof fn lemma_wf(&self)
        requires
            self.wf(),
        ensures
            self@.wf(),
    {
    }

    /// Opens a store on a log whose lines are `wal_lines`: the log is
    /// replayed into a fresh container in memory.
    pub fn open(wal_lines: Vec<String>) -> (store: KvStore)
        ensures
            store.wf(),
            store@ == StoreState::fresh(replay(texts(wal_lines@)), texts(wal_lines@), None),
            store@.in_step(),
            bar_free(store@.data),
    {
        proof {
            lemma_replay_bar_free(Seq::empty(), texts(wal_lines@));
        }
        let wal = Wal::open(wal_lines);
        let mem = wal.load_into();
        let store = KvStore {
            storage: StorageKind::Memory(mem),
            wal,
            expirations: Table::new(),
            tx_buffer: None,
        };
        assert(store@.deadlines =~= Map::empty());
        store
    }

    /// Opens a store on a log whose lines are `wal_lines`, with the chosen
    /// container. The file-backed container first reads `existing`, the
    /// lines of its file, and then takes what the replay of the log gave.
    pub fn open_with_backend(
        wal_lines: Vec<String>,
        backend: Backend,
        existing: &Vec<String>,
    ) -> (store: KvStore)
        ensures
            store.wf(),
            store@ == match backend {
                Backend::Memory => StoreState::fresh(
                    replay(texts(wal_lines@)),
                    texts(wal_lines@),
                    None,
                ),
                Backend::File(path) => StoreState::fresh(
                    merge(load_file(texts(existing@)), replay(texts(wal_lines@))),
                    texts(wal_lines@),
                    Some(path@),
                ),
            },
            backend is Memory ==> store@.in_step() && bar_free(store@.data),
    {
        proof {
            lemma_replay_bar_free(Seq::empty(), texts(wal_lines@));
        }
        let wal = Wal::open(wal_lines);
        let replayed = wal.load_into().iter();
        let mut storage = match backend {
            Backend::Memory => StorageKind::Memory(MemStorage::new()),
            Backend::File(path) => StorageKind::File(FileStorage::new(path, existing)),
        };
        proof {
            lemma_merge_empty(pair_texts(replayed@));
        }
        seed(&mut storage, &replayed);
        let store = KvStore { storage, wal, expirations: Table::new(), tx_buffer: None };
        assert(store@.deadlines =~= Map::empty());
        store
    }

    /// Opens a store from a snapshot and a log: the lines of the snapshot
    /// are read into a fresh container in memory, then the log is replayed on
    /// top, so that what was logged after the snapshot wins.
    pub fn open_with_snapshot(snapshot: &Vec<String>, wal_lines: Vec<String>) -> (store: KvStore)
        ensures
            store.wf(),
            store@ == StoreState::fresh(
                replay_onto(load_snapshot(Seq::empty(), texts(snapshot@)), texts(wal_lines@)),
                texts(wal_lines@),
                None,
            ),
            bar_free(store@.data),
    {
        proof {
            lemma_load_snapshot_bar_free(Seq::empty(), texts(snapshot@));
            lemma_replay_bar_free(
                load_snapshot(Seq::empty(), texts(snapshot@)),
                texts(wal_lines@),
            );
        }
        let mut mem = MemStorage::new();
        load_snapshot_into(&mut mem, snapshot);
        let wal = Wal::open(wal_lines);
        wal.replay_into(&mut mem);
        let store = KvStore {
            storage: StorageKind::Memory(mem),
            wal,
            expirations: Table::new(),
            tx_buffer: None,
        };
        assert(store@.deadlines =~= Map::empty());
        store
    }

    /// The lines of a snapshot of the container: one for each pair, in
    /// iteration order.
    pub fn snapshot_lines(&self) -> (lines: Vec<String>)
        ensures
            texts(lines@) == snapshot_lines(self@.data),
    {
        let all = self.storage.iter();
        let ghost pairs = pair_texts(all@);
        let mut lines: Vec<String> = Vec::new();
        let mut i: usize = 0;
        assert(pairs.take(0) =~= Seq::empty());
        assert(texts(lines@) =~= snapshot_lines(pairs.take(0)));
        while i < all.len()
            invariant
                i <= all.len(),
                pairs == pair_texts(all@),
                texts(lines@) == snapshot_lines(pairs.take(i as int)),
            decreases all.len() - i,
        {
            let ghost before = lines@;
            let ghost pair = pairs[i as int];
            lines.push(encode_snapshot(all[i].0.as_str(), all[i].1.as_str()));
            assert(pairs.take(i + 1) =~= pairs.take(i as int).push(pair));
            assert(texts(lines@) =~= texts(before).push(snapshot_line(pair.0, pair.1)));
            assert(snapshot_lines(pairs.take(i as int).push(pair)) =~= snapshot_lines(
                pairs.take(i as int),
            ).push(snapshot_line(pair.0, pair.1)));
            i += 1;
        }
        assert(pairs.take(all.len() as int) =~= pairs);
        lines
    }

    /// Returns the lines of a snapshot of the container and empties the log.
    /// The snapshot has to be durable before the log's file is emptied.
    pub fn snapshot_and_compact(&mut self) -> (lines: Vec<String>)
        requires
            old(self).wf(),
        ensures
            final(self).wf(),
            texts(lines@) == snapshot_lines(old(self)@.data),
            final(self)@ == old(self)@.after_compact(),
            bar_free(old(self)@.data) ==> replay_onto(
                load_snapshot(Seq::empty(), texts(lines@)),
                final(self)@.log,
            ) == old(self)@.data,
    {
        proof {
            if bar_free(self@.data) {
                lemma_snapshot_reads_back(self@.data);
            }
        }
        let lines = self.snapshot_lines();
        self.wal.truncate();
        lines
    }

    /// Sets the deadline of `key` to `ttl_secs` seconds after `now`, whether
    /// or not the key has a value. An earlier deadline of the key is
    /// replaced.
    pub fn set_ttl(&mut self, key: &str, ttl_secs: u64, now: u64)
        requires
            old(self).wf(),
        ensures
            final(self).wf(),
            final(self)@ == old(self)@.after_set_ttl(key@, ttl_secs, now),
    {
        self.expirations.insert(key.to_owned(), deadline_after(now, ttl_secs));
    }

    /// The value of `key` at the time `now`. A key whose deadline lies
    /// strictly before `now` is purged from the container and reported
    /// absent.
    pub fn get(&mut self, key: &str, now: u64) -> (r: Option<String>)
        requires
            old(self).wf(),
        ensures
            final(self).wf(),
            final(self)@ == old(self)@.after_get(key@, now),
            opt_text(r) == old(self)@.get_value(key@, now),
            bar_free(old(self)@.data) ==> bar_free(final(self)@.data),
    {
        proof {
            if bar_free(self@.data) {
                lemma_every_key_without(self@.data, key@, |k: Seq<char>| !k.contains('|'));
            }
        }
        let expired = match self.expirations.get(key) {
            Some(deadline) => *deadline < now,
            None => false,
        };
        if expired {
            self.storage.delete(key);
            self.expirations.remove(key);
            None
        } else {
            self.storage.get(key)
        }
    }

    /// The number of keys in the container.
    pub fn len(&self) -> (n: usize)
        requires
            self.wf(),
        ensures
            n == self@.data.len(),
            n == assoc_map(self@.data).len(),
    {
        self.storage.len()
    }

    /// Empties the container. The log and the deadlines stay.
    pub fn clear(&mut self)
        requires
            old(self).wf(),
        ensures
            final(self).wf(),
            final(self)@ == old(self)@.after_clear(),
    {
        self.storage.clear();
    }

    /// The lines that `insert` would append to the log. They have to be
    /// durable before `insert` is called.
    pub fn insert_lines(&self, key: &str, value: &str) -> (lines: Vec<String>)
        ensures
            texts(lines@) == self@.insert_lines(key@, value@),
    {
        let mut lines: Vec<String> = Vec::new();
        if is_valid_key(key) && self.tx_buffer.is_none() {
            lines.push(encode_put(key, value));
        }
        assert(texts(lines@) =~= self@.insert_lines(key@, value@));
        lines
    }

    /// Gives `key` the value `value`. A key that is not valid is refused and
    /// nothing changes. Inside a transaction only the buffer changes.
    /// Otherwise the record is appended to the log, then the container takes
    /// the value.
    pub fn insert(&mut self, key: String, value: String) -> (r: Result<Option<String>, StoreError>)
        requires
            old(self).wf(),
        ensures
            final(self).wf(),
            final(self)@ == old(self)@.after_insert(key@, value@),
            match r {
                Ok(prev) => Ok::<Option<Seq<char>>, StoreError>(opt_text(prev)) == old(
                    self,
                )@.insert_result(key@, value@),
                Err(e) => Err::<Option<Seq<char>>, StoreError>(e) == old(self)@.insert_result(
                    key@,
                    value@,
                ),
            },
            old(self)@.in_step() ==> final(self)@.in_step(),
            bar_free(old(self)@.data) ==> bar_free(final(self)@.data),
    {
        proof {
            if self@.in_step() && self@.tx.is_none() {
                law_step_keeps_in_step(self@, Mutation::Put(key@, value@));
            }
            if bar_free(self@.data) && valid_key(key@) {
                lemma_every_key_with(self@.data, key@, value@, |k: Seq<char>| !k.contains('|'));
            }
        }
        if !is_valid_key(key.as_str()) {
            return Err(StoreError::InvalidKey);
        }
        match self.tx_buffer.take() {
            Some(mut buf) => {
                proof {
                    lemma_every_key_with(buf.pairs(), key@, value@, |k: Seq<char>| valid_key(k));
                }
                let prev = buf.insert(key, value);
                self.tx_buffer = Some(buf);
                Ok(prev)
            },
            None => {
                self.wal.append_put(key.as_str(), value.as_str());
                let prev = self.storage.insert(key, value);
                assert(self@.log =~= old(self)@.log + old(self)@.insert_lines(key@, value@));
                Ok(prev)
            },
        }
    }

    /// The lines that `delete` would append to the log. They have to be
    /// durable before `delete` is called.
    pub fn delete_lines(&self, key: &str) -> (lines: Vec<String>)
        requires
            self.wf(),
        ensures
            texts(lines@) == self@.delete_lines(key@),
    {
        let mut lines: Vec<String> = Vec::new();
        if self.contains_key(key) && self.tx_buffer.is_none() {
            lines.push(encode_delete(key));
        }
        assert(texts(lines@) =~= self@.delete_lines(key@));
        lines
    }

    /// Removes `key` and says whether the container held it. For an absent
    /// key nothing changes and nothing is logged. Inside a transaction the
    /// key leaves the buffer only. Otherwise the record is appended to the
    /// log, then the key leaves the container.
    pub fn delete(&mut self, key: &str) -> (existed: bool)
        requires
            old(self).wf(),
        ensures
            final(self).wf(),
            final(self)@ == old(self)@.after_delete(key@),
            existed == old(self)@.delete_result(key@),
            old(self)@.in_step() ==> final(self)@.in_step(),
            bar_free(old(self)@.data) ==> bar_free(final(self)@.data),
    {
        proof {
            if self@.in_step() && self@.tx.is_none() {
                law_step_keeps_in_step(self@, Mutation::Delete(key@));
            }
            if bar_free(self@.data) {
                lemma_every_key_without(self@.data, key@, |k: Seq<char>| !k.contains('|'));
            }
        }
        if !self.contains_key(key) {
            return false;
        }
        match self.tx_buffer.take() {
            Some(mut buf) => {
                proof {
                    lemma_every_key_without(buf.pairs(), key@, |k: Seq<char>| valid_key(k));
                }
                buf.remove(key);
                self.tx_buffer = Some(buf);
                true
            },
            None => {
                self.wal.append_delete(key);
                let existed = self.storage.delete(key);
                assert(self@.log =~= old(self)@.log + old(self)@.delete_lines(key@));
                existed
            },
        }
    }

    /// Whether the container holds `key`. Deadlines are not looked at.
    pub fn contains_key(&self, key: &str) -> (b: bool)
        requires
            self.wf(),
        ensures
            b == assoc_map(self@.data).contains_key(key@),
    {
        self.storage.get(key).is_some()
    }

    /// A fresh copy of the container's pairs. Keys whose deadline has passed
    /// are still among them until `get` purges them.
    pub fn iter(&self) -> (all: Vec<(String, String)>)
        ensures
            pair_texts(all@) == self@.data,
    {
        self.storage.iter()
    }

    /// Opens a transaction with an empty buffer. A transaction that was open
    /// is dropped with its buffer.
    pub fn begin_tx(&mut self)
        requires
            old(self).wf(),
        ensures
            final(self).wf(),
            final(self)@ == old(self)@.after_begin(),
    {
        let buf: Table<String> = Table::new();
        assert(buf.pairs() =~= Seq::empty());
        self.tx_buffer = Some(buf);
    }

    /// The lines that `commit_tx` would append to the log. They have to be
    /// durable before `commit_tx` is called.
    pub fn commit_lines(&self) -> (lines: Vec<String>)
        ensures
            texts(lines@) == self@.commit_lines(),
    {
        let mut lines: Vec<String> = Vec::new();
        match &self.tx_buffer {
            Some(buf) => {
                let n = buf.len();
                let ghost pairs = buf.pairs();
                let mut i: usize = 0;
                assert(pairs.take(0) =~= Seq::empty());
                assert(texts(lines@) =~= put_lines(pairs.take(0)));
                while i < n
                    invariant
                        i <= n,
                        n == pairs.len(),
                        pairs == buf.pairs(),
                        texts(lines@) == put_lines(pairs.take(i as int)),
                    decreases n - i,
                {
                    let slot = buf.slot(i);
                    let ghost before = lines@;
                    let ghost pair = pairs[i as int];
                    lines.push(encode_put(slot.key.as_str(), slot.value.as_str()));
                    assert(pairs.take(i + 1) =~= pairs.take(i as int).push(pair));
                    assert(texts(lines@) =~= texts(before).push(put_line(pair.0, pair.1)));
                    assert(put_lines(pairs.take(i as int).push(pair)) =~= put_lines(
                        pairs.take(i as int),
                    ).push(put_line(pair.0, pair.1)));
                    i += 1;
                }
                assert(pairs.take(n as int) =~= pairs);
            },
            None => {
                assert(texts(lines@) =~= Seq::empty());
            },
        }
        lines
    }

    /// Closes the transaction: each buffered write is recorded in the log
    /// and stored in the container, in the buffer's order. Without an open
    /// transaction nothing changes.
    pub fn commit_tx(&mut self)
        requires
            old(self).wf(),
        ensures
            final(self).wf(),
            final(self)@ == old(self)@.after_commit(),
            old(self)@.in_step() ==> final(self)@.in_step(),
            bar_free(old(self)@.data) ==> bar_free(final(self)@.data),
    {
        proof {
            if self@.in_step() {
                law_commit_keeps_in_step(self@);
            }
            if bar_free(self@.data) {
                law_keys_stay_bar_free(
                    self@,
                    Seq::empty(),
                    Seq::empty(),
                    Seq::empty(),
                    Seq::empty(),
                    0,
                );
            }
        }
        match self.tx_buffer.take() {
            Some(buf) => {
                let n = buf.len();
                let ghost pairs = buf.pairs();
                let ghost data = self.storage.pairs();
                let ghost log = self.wal@;
                let mut i: usize = 0;
                assert(pairs.take(0) =~= Seq::empty());
                assert(log + put_lines(pairs.take(0)) =~= log);
                while i < n
                    invariant
                        i <= n,
                        n == pairs.len(),
                        pairs == buf.pairs(),
                        self.tx_buffer.is_none(),
                        self.expirations == old(self).expirations,
                        self.storage.path() == old(self).storage.path(),
                        distinct_keys(self.storage.pairs()),
                        self.storage.pairs() == merge(data, pairs.take(i as int)),
                        self.wal@ == log + put_lines(pairs.take(i as int)),
                    decreases n - i,
                {
                    let slot = buf.slot(i);
                    let ghost pair = pairs[i as int];
                    self.wal.append_put(slot.key.as_str(), slot.value.as_str());
                    self.storage.insert(slot.key.clone(), slot.value.clone());
                    assert(pairs.take(i + 1).drop_last() =~= pairs.take(i as int));
                    assert(pairs.take(i + 1).last() == pair);
                    assert(put_lines(pairs.take(i + 1)) =~= put_lines(pairs.take(i as int)).push(
                        put_line(pair.0, pair.1),
                    ));
                    assert(self.wal@ =~= log + put_lines(pairs.take(i + 1)));
                    i += 1;
                }
                assert(pairs.take(n as int) =~= pairs);
            },
            None => {},
        }
    }

    /// Drops the transaction and its buffer.
    pub fn rollback_tx(&mut self)
        requires
            old(self).wf(),
        ensures
            final(self).wf(),
            final(self)@ == old(self)@.after_rollback(),
    {
        self.tx_buffer = None;
    }

    /// Whether a transaction is open.
    pub fn in_transaction(&self) -> (b: bool)
        ensures
            b == self@.tx.is_some(),
    {
        self.tx_buffer.is_some()
    }

    /// The log.
    pub fn wal(&self) -> (wal: &Wal)
        ensures
            wal@ == self@.log,
    {
        &self.wal
    }

    /// For a file-backed container, the path of its file and the lines that
    /// the file is to hold now.
    pub fn file_image(&self) -> (r: Option<(String, Vec<String>)>)
        ensures
            match r {
                Some((path, lines)) => self@.file == Some(path@) && texts(lines@)
                    == file_lines(self@.data),
                None => self@.file.is_none(),
            },
    {
        match &self.storage {
            StorageKind::Memory(_) => None,
            StorageKind::File(f) => Some((f.file_path().to_owned(), f.image())),
        }
    }
}

} // verus!
