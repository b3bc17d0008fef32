//! The key-value containers: one that lives in memory only, and one that
//! mirrors a file of `<key>=<value>` lines.

use vstd::prelude::*;
use crate::record::{decode_file, decode_file_line, encode_file, file_line};
use crate::table::{assoc_map, distinct_keys, with_pair, without_key, Table};
use crate::text::texts;

verus! {

/// The plain pairs that a vector of owned pairs stands for.
pub open spec fn pair_texts(v: Seq<(String, String)>) -> Seq<(Seq<char>, Seq<char>)> {
    v.map_values(|p: (String, String)| (p.0@, p.1@))
}

/// The pairs that the lines of a storage file give, read in order: a later
/// line for a key replaces an earlier one, and a line that is no record is
/// passed over.
pub open spec fn load_file(lines: Seq<Seq<char>>) -> Seq<(Seq<char>, Seq<char>)>
    decreases lines.len(),
{
    if lines.len() == 0 {
        Seq::empty()
    } else {
        let before = load_file(lines.drop_last());
        match decode_file(lines.last()) {
            Some((k, v)) => with_pair(before, k, v),
            None => before,
        }
    }
}

/// The lines of a storage file that holds `pairs`.
pub open spec fn file_lines(pairs: Seq<(Seq<char>, Seq<char>)>) -> Seq<Seq<char>> {
    pairs.map_values(|p: (Seq<char>, Seq<char>)| file_line(p.0, p.1))
}

/// What a key-value container can do. `pairs` is the container's content in
/// the order in which `iter` hands it out; no key occurs in it twice.
pub trait Storage {
    /// The content, as pairs of plain texts.
    spec fn pairs(&self) -> Seq<(Seq<char>, Seq<char>)>;

    /// The value of `key`, if it has one.
    fn get(&self, key: &str) -> (r: Option<String>)
        requires
            distinct_keys(self.pairs()),
        ensures
            match r {
                Some(v) => assoc_map(self.pairs()).contains_key(key@) && v@ == assoc_map(
                    self.pairs(),
                )[key@],
                None => !assoc_map(self.pairs()).contains_key(key@),
            },
    ;

    /// Gives `key` the value `value` and returns the value it had before.
    fn insert(&mut self, key: String, value: String) -> (r: Option<String>)
        requires
            distinct_keys(old(self).pairs()),
        ensures
            distinct_keys(final(self).pairs()),
            final(self).pairs() == with_pair(old(self).pairs(), key@, value@),
            assoc_map(final(self).pairs()) == assoc_map(old(self).pairs()).insert(key@, value@),
            match r {
                Some(v) => assoc_map(old(self).pairs()).contains_key(key@) && v@ == assoc_map(
                    old(self).pairs(),
                )[key@],
                None => !assoc_map(old(self).pairs()).contains_key(key@),
            },
    ;

    /// Removes `key` and says whether it was there.
    fn delete(&mut self, key: &str) -> (existed: bool)
        requires
            distinct_keys(old(self).pairs()),
        ensures
            distinct_keys(final(self).pairs()),
            final(self).pairs() == without_key(old(self).pairs(), key@),
            assoc_map(final(self).pairs()) == assoc_map(old(self).pairs()).remove(key@),
            existed == assoc_map(old(self).pairs()).contains_key(key@),
    ;

    /// A fresh copy of the content.
    fn iter(&self) -> (all: Vec<(String, String)>)
        ensures
            pair_texts(all@) == self.pairs(),
    ;

    /// The number of keys.
    fn len(&self) -> (n: usize)
        requires
            distinct_keys(self.pairs()),
        ensures
            n == self.pairs().len(),
            n == assoc_map(self.pairs()).len(),
    ;

    /// Removes every key.
    fn clear(&mut self)
        ensures
            final(self).pairs() == Seq::<(Seq<char>, Seq<char>)>::empty(),
    ;
}

/// A fresh copy of a table's pairs, in the table's order.
pub fn copy_pairs(table: &Table<String>) -> (all: Vec<(String, String)>)
    ensures
        pair_texts(all@) == table.pairs(),
{
    let n = table.len();
    let mut all: Vec<(String, String)> = Vec::new();
    let mut i: usize = 0;
    while i < n
        invariant
            n == table.pairs().len(),
            i <= n,
            pair_texts(all@) == table.pairs().take(i as int),
        decreases n - i,
    {
        let s = table.slot(i);
        let ghost before = all@;
        all.push((s.key.clone(), s.value.clone()));
        assert(pair_texts(all@) =~= pair_texts(before).push(table.pairs()[i as int]));
        assert(table.pairs().take(i + 1) =~= table.pairs().take(i as int).push(
            table.pairs()[i as int],
        ));
        i += 1;
    }
    assert(table.pairs().take(n as int) =~= table.pairs());
    all
}

/// The volatile container.
pub struct MemStorage {
    map: Table<String>,
}

impl MemStorage {
    /// An empty container.
    pub fn new() -> (s: Self)
        ensures
            s.pairs() == Seq::<(Seq<char>, Seq<char>)>::empty(),
    {
        let map = Table::new();
        assert(map.pairs() =~= Seq::empty());
        MemStorage { map }
    }
}

impl Storage for MemStorage {
    closed spec fn pairs(&self) -> Seq<(Seq<char>, Seq<char>)> {
        self.map.pairs()
    }

    fn get(&self, key: &str) -> (r: Option<String>) {
        match self.map.get(key) {
            Some(v) => Some(v.clone()),
            None => None,
        }
    }

    fn insert(&mut self, key: String, value: String) -> (r: Option<String>) {
        self.map.insert(key, value)
    }

    fn delete(&mut self, key: &str) -> (existed: bool) {
        self.map.remove(key).is_some()
    }

    fn iter(&self) -> (all: Vec<(String, String)>) {
        copy_pairs(&self.map)
    }

    fn len(&self) -> (n: usize) {
        self.map.len()
    }

    fn clear(&mut self) {
        self.map.clear();
        assert(self.map.pairs() =~= Seq::empty());
    }
}

/// The container that mirrors a file. It holds the content and the file's
/// path; after every change the file is to hold `image()` and nothing else.
pub struct FileStorage {
    map: Table<String>,
    file_path: String,
}

impl FileStorage {
    /// The container for the file at `file_path`, whose lines at this moment
    /// are `existing` (none, if there is no such file yet).
    pub fn new(file_path: String, existing: &Vec<String>) -> (s: Self)
        ensures
            s.pairs() == load_file(texts(existing@)),
            distinct_keys(s.pairs()),
            s.path() == file_path@,
    {
        let mut map: Table<String> = Table::new();
        assert(map.pairs() =~= Seq::empty());
        let mut i: usize = 0;
        while i < existing.len()
            invariant
                i <= existing.len(),
                map.wf(),
                map.pairs() == load_file(texts(existing@).take(i as int)),
            decreases existing.len() - i,
        {
            let ghost lines = texts(existing@);
            assert(lines.take(i + 1).drop_last() =~= lines.take(i as int));
            assert(lines.take(i + 1).last() == existing@[i as int]@);
            match decode_file_line(existing[i].as_str()) {
                Some((k, v)) => {
                    map.insert(k, v);
                },
                None => {},
            }
            i += 1;
        }
        assert(texts(existing@).take(existing.len() as int) =~= texts(existing@));
        FileStorage { map, file_path }
    }

    /// The path of the mirrored file.
    pub closed spec fn path(&self) -> Seq<char> {
        self.file_path@
    }

    /// The path of the mirrored file.
    pub fn file_path(&self) -> (p: &str)
        ensures
            p@ == self.path(),
    {
        self.file_path.as_str()
    }

    /// The lines that the file is to hold: one `<key>=<value>` line for each
    /// pair, in order.
    pub fn image(&self) -> (lines: Vec<String>)
        ensures
            texts(lines@) == file_lines(self.pairs()),
    {
        let n = self.map.len();
        let mut lines: Vec<String> = Vec::new();
        let mut i: usize = 0;
        while i < n
            invariant
                n == self.map.pairs().len(),
                i <= n,
                texts(lines@) == file_lines(self.map.pairs().take(i as int)),
            decreases n - i,
        {
            let s = self.map.slot(i);
            let ghost before = lines@;
            let ghost pair = self.map.pairs()[i as int];
            lines.push(encode_file(s.key.as_str(), s.value.as_str()));
            assert(self.map.pairs().take(i + 1) =~= self.map.pairs().take(i as int).push(pair));
            assert(texts(lines@) =~= texts(before).push(file_line(pair.0, pair.1)));
            assert(file_lines(self.map.pairs().take(i as int).push(pair)) =~= file_lines(
                self.map.pairs().take(i as int),
            ).push(file_line(pair.0, pair.1)));
            i += 1;
        }
        assert(self.map.pairs().take(n as int) =~= self.map.pairs());
        lines
    }
}

impl Storage for FileStorage {
    closed spec fn pairs(&self) -> Seq<(Seq<char>, Seq<char>)> {
        self.map.pairs()
    }

    fn get(&self, key: &str) -> (r: Option<String>) {
        match self.map.get(key) {
            Some(v) => Some(v.clone()),
            None => None,
        }
    }

    fn insert(&mut self, key: String, value: String) -> (r: Option<String>)
        ensures
            final(self).path() == old(self).path(),
    {
        self.map.insert(key, value)
    }

    fn delete(&mut self, key: &str) -> (existed: bool)
        ensures
            final(self).path() == old(self).path(),
    {
        self.map.remove(key).is_some()
    }

    fn iter(&self) -> (all: Vec<(String, String)>) {
        copy_pairs(&self.map)
    }

    fn len(&self) -> (n: usize) {
        self.map.len()
    }

    fn clear(&mut self)
        ensures
            final(self).path() == old(self).path(),
    {
        self.map.clear();
        assert(self.map.pairs() =~= Seq::empty());
    }
}

} // verus!
