//! The write-ahead log: the ordered lines that record every mutation, and
//! the replay that rebuilds a container from them.

use vstd::prelude::*;
use crate::record::{decode_log, decode_log_line, delete_line, encode_delete, encode_put, put_line};
use crate::record::{LogEntry, Mutation};
use crate::storage::{MemStorage, Storage};
use crate::table::{distinct_keys, with_pair, without_key};
use crate::text::{texts, trim, trimmed};

verus! {

/// The pairs after one mutation.
pub open spec fn apply(pairs: Seq<(Seq<char>, Seq<char>)>, m: Mutation) -> Seq<
    (Seq<char>, Seq<char>),
> {
    match m {
        Mutation::Put(k, v) => with_pair(pairs, k, v),
        Mutation::Delete(k) => without_key(pairs, k),
    }
}

/// The pairs after the lines of a log were replayed, in order, on top of
/// `base`. A line that is no record changes nothing.
pub open spec fn replay_onto(base: Seq<(Seq<char>, Seq<char>)>, lines: Seq<Seq<char>>) -> Seq<
    (Seq<char>, Seq<char>),
>
    decreases lines.len(),
{
    if lines.len() == 0 {
        base
    } else {
        let before = replay_onto(base, lines.drop_last());
        match decode_log(lines.last()) {
            Some(m) => apply(before, m),
            None => before,
        }
    }
}

/// The pairs that a log alone gives.
pub open spec fn replay(lines: Seq<Seq<char>>) -> Seq<(Seq<char>, Seq<char>)> {
    replay_onto(Seq::empty(), lines)
}

/// A line that replay passes over though it is not blank.
pub open spec fn is_unrecognized(line: Seq<char>) -> bool {
    trimmed(line).len() > 0 && decode_log(line).is_none()
}

/// The lines that replay passes over though they are not blank, trimmed and
/// in order.
pub open spec fn unrecognized(lines: Seq<Seq<char>>) -> Seq<Seq<char>>
    decreases lines.len(),
{
    if lines.len() == 0 {
        Seq::empty()
    } else if is_unrecognized(lines.last()) {
        unrecognized(lines.drop_last()).push(trimmed(lines.last()))
    } else {
        unrecognized(lines.drop_last())
    }
}

/// Replaying one more line is replaying the others and then that line.
pub proof fn lemma_replay_push(
    base: Seq<(Seq<char>, Seq<char>)>,
    lines: Seq<Seq<char>>,
    line: Seq<char>,
)
    ensures
        replay_onto(base, lines.push(line)) == match decode_log(line) {
            Some(m) => apply(replay_onto(base, lines), m),
            None => replay_onto(base, lines),
        },
{
    assert(lines.push(line).drop_last() =~= lines);
}

/// The log, as the lines it holds in the order in which they were appended.
/// Each record is one line, whatever it holds: whoever writes the lines to a
/// file has to refuse a record with a line feed in it.
pub struct Wal {
    lines: Vec<String>,
}

impl View for Wal {
    type V = Seq<Seq<char>>;

    closed spec fn view(&self) -> Seq<Seq<char>> {
        texts(self.lines@)
    }
}

impl Wal {
    /// The log whose lines so far are `lines`.
    pub fn open(lines: Vec<String>) -> (wal: Wal)
        ensures
            wal@ == texts(lines@),
    {
        Wal { lines }
    }

    /// Appends the record of a put.
    pub fn append_put(&mut self, key: &str, value: &str)
        ensures
            final(self)@ == old(self)@.push(put_line(key@, value@)),
    {
        let line = encode_put(key, value);
        self.lines.push(line);
        assert(self@ =~= old(self)@.push(put_line(key@, value@)));
    }

    /// Appends the record of a delete.
    pub fn append_delete(&mut self, key: &str)
        ensures
            final(self)@ == old(self)@.push(delete_line(key@)),
    {
        let line = encode_delete(key);
        self.lines.push(line);
        assert(self@ =~= old(self)@.push(delete_line(key@)));
    }

    /// Replays every line, in order, on top of what `storage` holds.
    pub fn replay_into<S: Storage>(&self, storage: &mut S)
        requires
            distinct_keys(old(storage).pairs()),
        ensures
            final(storage).pairs() == replay_onto(old(storage).pairs(), self@),
            distinct_keys(final(storage).pairs()),
    {
        let mut i: usize = 0;
        let ghost base = storage.pairs();
        assert(self@.take(0) =~= Seq::empty());
        while i < self.lines.len()
            invariant
                i <= self.lines.len(),
                distinct_keys(storage.pairs()),
                storage.pairs() == replay_onto(base, self@.take(i as int)),
            decreases self.lines.len() - i,
        {
            proof {
                assert(self@.take(i + 1) =~= self@.take(i as int).push(self.lines@[i as int]@));
                lemma_replay_push(base, self@.take(i as int), self.lines@[i as int]@);
            }
            match decode_log_line(self.lines[i].as_str()) {
                Some(LogEntry::Put { key, value }) => {
                    storage.insert(key, value);
                },
                Some(LogEntry::Delete { key }) => {
                    storage.delete(key.as_str());
                },
                None => {},
            }
            i += 1;
        }
        assert(self@.take(self.lines.len() as int) =~= self@);
    }

    /// Replays the log into a fresh container.
    pub fn load_into(&self) -> (store: MemStorage)
        ensures
            store.pairs() == replay(self@),
            distinct_keys(store.pairs()),
    {
        let mut store = MemStorage::new();
        self.replay_into(&mut store);
        store
    }

    /// The lines that replay passes over though they are not blank, trimmed
    /// and in order: what a caller may want to warn about.
    pub fn unrecognized(&self) -> (out: Vec<String>)
        ensures
            texts(out@) == unrecognized(self@),
    {
        let mut out: Vec<String> = Vec::new();
        let mut i: usize = 0;
        assert(self@.take(0) =~= Seq::empty());
        assert(texts(out@) =~= Seq::empty());
        while i < self.lines.len()
            invariant
                i <= self.lines.len(),
                texts(out@) == unrecognized(self@.take(i as int)),
            decreases self.lines.len() - i,
        {
            assert(self@.take(i + 1).drop_last() =~= self@.take(i as int));
            assert(self@.take(i + 1).last() == self.lines@[i as int]@);
            let line = self.lines[i].as_str();
            let bare = trim(line);
            if !bare.is_empty() && decode_log_line(line).is_none() {
                let ghost before = out@;
                out.push(bare.to_owned());
                assert(texts(out@) =~= texts(before).push(bare@));
            }
            i += 1;
        }
        assert(self@.take(self.lines.len() as int) =~= self@);
        out
    }

    /// Discards every line.
    pub fn truncate(&mut self)
        ensures
            final(self)@ == Seq::<Seq<char>>::empty(),
    {
        self.lines.clear();
        assert(self@ =~= Seq::empty());
    }

    /// The lines of the log, oldest first.
    pub fn lines(&self) -> (lines: &Vec<String>)
        ensures
            texts(lines@) == self@,
    {
        &self.lines
    }

    /// The number of lines.
    pub fn len(&self) -> (n: usize)
        ensures
            n == self@.len(),
    {
        self.lines.len()
    }
}

} // verus!
