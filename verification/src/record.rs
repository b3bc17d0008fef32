//! The three line formats: log records, snapshot lines and the lines of a
//! storage file. Each has an encoder, a decoder, and a proof that the
//! decoder reads back what the encoder wrote.

use vstd::prelude::*;
use vstd::string::StringExecFns;
use crate::text::{cut, cut_at, has_char, lemma_cut, str_eq};

verus! {

/// One mutation, as the log records it.
pub enum LogEntry {
    Put { key: String, value: String },
    Delete { key: String },
}

/// A mutation over plain texts: what a `LogEntry` stands for.
pub enum Mutation {
    Put(Seq<char>, Seq<char>),
    Delete(Seq<char>),
}

impl View for LogEntry {
    type V = Mutation;

    open spec fn view(&self) -> Mutation {
        match self {
            LogEntry::Put { key, value } => Mutation::Put(key@, value@),
            LogEntry::Delete { key } => Mutation::Delete(key@),
        }
    }
}

/// The delimiter of log and snapshot lines.
pub open spec fn bar() -> Seq<char> {
    seq!['|']
}

/// The tag of a put record.
pub open spec fn put_tag() -> Seq<char> {
    seq!['P', 'U', 'T']
}

/// The tag of a delete record.
pub open spec fn delete_tag() -> Seq<char> {
    seq!['D', 'E', 'L', 'E', 'T', 'E']
}

/// The log line of a put: `PUT|<key>|<value>`.
pub open spec fn put_line(k: Seq<char>, v: Seq<char>) -> Seq<char> {
    put_tag() + bar() + k + bar() + v
}

/// The log line of a delete: `DELETE|<key>`.
pub open spec fn delete_line(k: Seq<char>) -> Seq<char> {
    delete_tag() + bar() + k
}

/// The log line of a mutation.
pub open spec fn log_line(m: Mutation) -> Seq<char> {
    match m {
        Mutation::Put(k, v) => put_line(k, v),
        Mutation::Delete(k) => delete_line(k),
    }
}

/// The snapshot line of a record: `<key>|<value>`.
pub open spec fn snapshot_line(k: Seq<char>, v: Seq<char>) -> Seq<char> {
    k + bar() + v
}

/// The storage-file line of a record: `<key>=<value>`.
pub open spec fn file_line(k: Seq<char>, v: Seq<char>) -> Seq<char> {
    k + seq!['='] + v
}

/// What a log line says. The line is cut at its first `|`. After the tag
/// `PUT` the rest is cut once more: the key, and all that follows as the
/// value. After the tag `DELETE` the whole rest is the key. Anything else
/// says nothing. Nothing is trimmed: a value is read back as it was written.
pub open spec fn decode_log(line: Seq<char>) -> Option<Mutation> {
    match cut(line, '|') {
        Some((tag, rest)) => {
            if tag == put_tag() {
                match cut(rest, '|') {
                    Some((k, v)) => Some(Mutation::Put(k, v)),
                    None => None,
                }
            } else if tag == delete_tag() {
                Some(Mutation::Delete(rest))
            } else {
                None
            }
        },
        None => None,
    }
}

/// What a snapshot line says: cut at its first `|`, the key and all that
/// follows as the value. A line without `|` says nothing.
pub open spec fn decode_snapshot(line: Seq<char>) -> Option<(Seq<char>, Seq<char>)> {
    cut(line, '|')
}

/// What a storage-file line says: cut at its first `=`, the key and all that
/// follows as the value. A line without `=` says nothing.
pub open spec fn decode_file(line: Seq<char>) -> Option<(Seq<char>, Seq<char>)> {
    cut(line, '=')
}

/// The longest key in bytes, plus one.
pub const KEY_LIMIT: usize = 256;

/// A key that the store accepts: not empty, shorter than `KEY_LIMIT` bytes
/// in UTF-8, and free of the log's delimiter.
pub open spec fn valid_key(k: Seq<char>) -> bool {
    &&& k.len() > 0
    &&& vstd::utf8::encode_utf8(k).len() < KEY_LIMIT
    &&& !k.contains('|')
}

/// Whether the store accepts `key`.
pub fn is_valid_key(key: &str) -> (b: bool)
    ensures
        b == valid_key(key@),
{
    !key.is_empty() && key.as_bytes().len() < KEY_LIMIT && !has_char(key, '|')
}

/// The log line that records a put.
pub fn encode_put(key: &str, value: &str) -> (line: String)
    ensures
        line@ == put_line(key@, value@),
{
    proof {
        reveal_strlit("PUT|");
        reveal_strlit("|");
    }
    let mut line = String::from_str("PUT|");
    line.append(key);
    line.append("|");
    line.append(value);
    assert(line@ =~= put_line(key@, value@));
    line
}

/// The log line that records a delete.
pub fn encode_delete(key: &str) -> (line: String)
    ensures
        line@ == delete_line(key@),
{
    proof {
        reveal_strlit("DELETE|");
    }
    let mut line = String::from_str("DELETE|");
    line.append(key);
    assert(line@ =~= delete_line(key@));
    line
}

/// The snapshot line of a record.
pub fn encode_snapshot(key: &str, value: &str) -> (line: String)
    ensures
        line@ == snapshot_line(key@, value@),
{
    proof {
        reveal_strlit("|");
    }
    let mut line = String::from_str(key);
    line.append("|");
    line.append(value);
    assert(line@ =~= snapshot_line(key@, value@));
    line
}

/// The storage-file line of a record.
pub fn encode_file(key: &str, value: &str) -> (line: String)
    ensures
        line@ == file_line(key@, value@),
{
    proof {
        reveal_strlit("=");
    }
    let mut line = String::from_str(key);
    line.append("=");
    line.append(value);
    assert(line@ =~= file_line(key@, value@));
    line
}

/// Reads one line of the log. A line that is no record gives `None`.
pub fn decode_log_line(line: &str) -> (r: Option<LogEntry>)
    ensures
        match r {
            Some(e) => decode_log(line@) == Some(e@),
            None => decode_log(line@).is_none(),
        },
{
    proof {
        reveal_strlit("PUT");
        reveal_strlit("DELETE");
        assert("PUT"@ =~= put_tag());
        assert("DELETE"@ =~= delete_tag());
    }
    match cut_at(line, '|') {
        Some((tag, rest)) => {
            if str_eq(tag, "PUT") {
                match cut_at(rest, '|') {
                    Some((k, v)) => Some(LogEntry::Put { key: k.to_owned(), value: v.to_owned() }),
                    None => None,
                }
            } else if str_eq(tag, "DELETE") {
                Some(LogEntry::Delete { key: rest.to_owned() })
            } else {
                None
            }
        },
        None => None,
    }
}

/// Reads one line of a snapshot. A line that is no record gives `None`.
pub fn decode_snapshot_line(line: &str) -> (r: Option<(String, String)>)
    ensures
        match r {
            Some((k, v)) => decode_snapshot(line@) == Some((k@, v@)),
            None => decode_snapshot(line@).is_none(),
        },
{
    match cut_at(line, '|') {
        Some((k, v)) => Some((k.to_owned(), v.to_owned())),
        None => None,
    }
}

/// Reads one line of a storage file. A line that is no record gives `None`.
pub fn decode_file_line(line: &str) -> (r: Option<(String, String)>)
    ensures
        match r {
            Some((k, v)) => decode_file(line@) == Some((k@, v@)),
            None => decode_file(line@).is_none(),
        },
{
    match cut_at(line, '=') {
        Some((k, v)) => Some((k.to_owned(), v.to_owned())),
        None => None,
    }
}

/// A put line is read back as that put, whatever the value holds, if the
/// key is free of the delimiter.
pub proof fn lemma_put_line_round_trip(k: Seq<char>, v: Seq<char>)
    requires
        !k.contains('|'),
    ensures
        decode_log(put_line(k, v)) == Some(Mutation::Put(k, v)),
{
    assert(!put_tag().contains('|'));
    assert(put_line(k, v) =~= put_tag() + seq!['|'] + (k + seq!['|'] + v));
    lemma_cut(put_tag(), '|', k + seq!['|'] + v);
    lemma_cut(k, '|', v);
}

/// A delete line is read back as that delete, whatever the key holds.
pub proof fn lemma_delete_line_round_trip(k: Seq<char>)
    ensures
        decode_log(delete_line(k)) == Some(Mutation::Delete(k)),
{
    assert(!delete_tag().contains('|'));
    lemma_cut(delete_tag(), '|', k);
    assert(delete_tag() != put_tag()) by {
        assert(delete_tag().len() != put_tag().len());
    }
}

/// A snapshot line is read back as its record, whatever the value holds, if
/// the key is free of the delimiter.
pub proof fn lemma_snapshot_line_round_trip(k: Seq<char>, v: Seq<char>)
    requires
        !k.contains('|'),
    ensures
        decode_snapshot(snapshot_line(k, v)) == Some((k, v)),
{
    lemma_cut(k, '|', v);
}

/// A storage-file line is read back as its record, whatever the value holds,
/// if the key holds no `=`.
pub proof fn lemma_file_line_round_trip(k: Seq<char>, v: Seq<char>)
    requires
        !k.contains('='),
    ensures
        decode_file(file_line(k, v)) == Some((k, v)),
{
    lemma_cut(k, '=', v);
}

} // verus!
