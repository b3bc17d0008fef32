//! The command language of the front ends: one line of words in, one
//! command out.

use vstd::prelude::*;
use vstd::string::StringExecFns;
use crate::text::{is_space, str_eq, texts, trim, trimmed};

verus! {

/// One command of a front end.
pub enum Command {
    Put { key: String, value: String },
    Get { key: String },
    Delete { key: String },
    Insert { key: String, value: String },
    Select { key: String },
    Remove { key: String },
    Snapshot,
    List,
    Exit,
    Unknown,
    Ttl { key: String, seconds: u64 },
    Batch(Vec<Command>),
}

/// A command over plain texts. A batch is the keys and values of its puts.
pub enum CommandText {
    Put(Seq<char>, Seq<char>),
    Get(Seq<char>),
    Delete(Seq<char>),
    Insert(Seq<char>, Seq<char>),
    Select(Seq<char>),
    Remove(Seq<char>),
    Snapshot,
    List,
    Exit,
    Unknown,
    Ttl(Seq<char>, u64),
    Batch(Seq<(Seq<char>, Seq<char>)>),
}

/// The key and value of a put; two empty texts for any other command.
pub open spec fn put_pair(c: Command) -> (Seq<char>, Seq<char>) {
    match c {
        Command::Put { key, value } => (key@, value@),
        _ => (Seq::empty(), Seq::empty()),
    }
}

/// The keys and values of a sequence of puts.
pub open spec fn put_pairs(cmds: Seq<Command>) -> Seq<(Seq<char>, Seq<char>)> {
    cmds.map_values(|c: Command| put_pair(c))
}

impl Command {
    /// A batch holds puts only.
    pub open spec fn well_formed(&self) -> bool {
        match self {
            Command::Batch(cmds) => forall|i: int|
                0 <= i < cmds@.len() ==> (#[trigger] cmds@[i]) is Put,
            _ => true,
        }
    }
}

impl View for Command {
    type V = CommandText;

    open spec fn view(&self) -> CommandText {
        match self {
            Command::Put { key, value } => CommandText::Put(key@, value@),
            Command::Get { key } => CommandText::Get(key@),
            Command::Delete { key } => CommandText::Delete(key@),
            Command::Insert { key, value } => CommandText::Insert(key@, value@),
            Command::Select { key } => CommandText::Select(key@),
            Command::Remove { key } => CommandText::Remove(key@),
            Command::Snapshot => CommandText::Snapshot,
            Command::List => CommandText::List,
            Command::Exit => CommandText::Exit,
            Command::Unknown => CommandText::Unknown,
            Command::Ttl { key, seconds } => CommandText::Ttl(key@, *seconds),
            Command::Batch(cmds) => CommandText::Batch(put_pairs(cmds@)),
        }
    }
}

/// The words of a text: its longest runs of characters that are not white
/// space, in order.
pub open spec fn words(s: Seq<char>) -> Seq<Seq<char>>
    decreases s.len(),
{
    if s.len() == 0 {
        Seq::empty()
    } else {
        let before = words(s.drop_last());
        if is_space(s.last()) {
            before
        } else if s.len() >= 2 && !is_space(s[s.len() - 2]) && before.len() > 0 {
            before.update(before.len() - 1, before.last().push(s.last()))
        } else {
            before.push(seq![s.last()])
        }
    }
}

/// The number that a text of decimal digits stands for.
pub open spec fn digits_value(s: Seq<char>) -> nat
    decreases s.len(),
{
    if s.len() == 0 {
        0
    } else {
        digits_value(s.drop_last()) * 10 + (s.last() as u32 - '0' as u32) as nat
    }
}

/// Every character is a decimal digit.
pub open spec fn all_digits(s: Seq<char>) -> bool {
    forall|i: int| 0 <= i < s.len() ==> '0' as u32 <= (#[trigger] s[i]) as u32 <= '9' as u32
}

/// A text without its leading `+`, if it has one.
pub open spec fn unsigned(s: Seq<char>) -> Seq<char> {
    if s.len() > 0 && s[0] == '+' {
        s.drop_first()
    } else {
        s
    }
}

/// The number that a text stands for: an optional `+`, then one or more
/// decimal digits whose value fits in 64 bits. Any other text stands for
/// none.
pub open spec fn decimal(s: Seq<char>) -> Option<u64> {
    let body = unsigned(s);
    if body.len() > 0 && all_digits(body) && digits_value(body) <= u64::MAX {
        Some(digits_value(body) as u64)
    } else {
        None
    }
}

/// The words joined by single blanks.
pub open spec fn joined(w: Seq<Seq<char>>) -> Seq<char>
    decreases w.len(),
{
    if w.len() == 0 {
        Seq::empty()
    } else if w.len() == 1 {
        w[0]
    } else {
        joined(w.drop_last()) + seq![' '] + w.last()
    }
}

/// The puts of a batch: as long as the next three words are `put`, a key and
/// a value, they are one put. The first group that is not ends the batch.
pub open spec fn batch_puts(w: Seq<Seq<char>>) -> Seq<(Seq<char>, Seq<char>)>
    decreases w.len(),
{
    if w.len() >= 3 && w[0] == "put"@ {
        seq![(w[1], w[2])] + batch_puts(w.skip(3))
    } else {
        Seq::empty()
    }
}

/// The command that a line of words stands for.
pub open spec fn parse_words(w: Seq<Seq<char>>) -> CommandText {
    if w.len() >= 3 && w[0] == "INSERT"@ {
        CommandText::Insert(w[1], joined(w.skip(2)))
    } else if w.len() == 2 && w[0] == "SELECT"@ {
        CommandText::Select(w[1])
    } else if w.len() == 2 && w[0] == "REMOVE"@ {
        CommandText::Remove(w[1])
    } else if w.len() >= 3 && (w[0] == "PUT"@ || w[0] == "put"@) {
        CommandText::Put(w[1], joined(w.skip(2)))
    } else if w.len() == 2 && (w[0] == "GET"@ || w[0] == "get"@) {
        CommandText::Get(w[1])
    } else if w.len() == 2 && (w[0] == "DELETE"@ || w[0] == "delete"@) {
        CommandText::Delete(w[1])
    } else if w.len() == 1 && (w[0] == "SNAPSHOT"@ || w[0] == "snapshot"@) {
        CommandText::Snapshot
    } else if w.len() == 1 && (w[0] == "LIST"@ || w[0] == "list"@ || w[0] == "KEYS"@ || w[0]
        == "keys"@) {
        CommandText::List
    } else if w.len() == 1 && (w[0] == "EXIT"@ || w[0] == "exit"@ || w[0] == "QUIT"@ || w[0]
        == "quit"@) {
        CommandText::Exit
    } else if w.len() == 3 && w[0] == "TTL"@ && decimal(w[2]).is_some() {
        CommandText::Ttl(w[1], decimal(w[2]).unwrap())
    } else if w.len() >= 1 && w[0] == "BATCH"@ {
        CommandText::Batch(batch_puts(w.skip(1)))
    } else {
        CommandText::Unknown
    }
}

/// The words of a slice, as owned strings.
///
/// Trusted: calls `str::split_whitespace`, which yields the non-empty runs
/// of characters between white space, in order, and copies each.
#[verifier::external_body]
pub(crate) fn split_words(s: &str) -> (out: Vec<String>)
    ensures
        texts(out@) == words(s@),
{
    s.split_whitespace().map(String::from).collect()
}

/// The number that a slice stands for.
///
/// Trusted: calls `str::parse` for `u64`, which accepts an optional `+`
/// followed by at least one decimal digit and fails on anything else, and on
/// a value that does not fit in 64 bits.
#[verifier::external_body]
pub(crate) fn parse_u64(s: &str) -> (r: Option<u64>)
    ensures
        r == decimal(s@),
{
    s.parse::<u64>().ok()
}

/// The words from position `start` on, joined by single blanks.
pub fn join_from(tokens: &Vec<String>, start: usize) -> (out: String)
    requires
        start <= tokens@.len(),
    ensures
        out@ == joined(texts(tokens@).skip(start as int)),
{
    let ghost w = texts(tokens@).skip(start as int);
    let mut out = String::new();
    let mut i: usize = start;
    assert(w.take(0) =~= Seq::empty());
    while i < tokens.len()
        invariant
            start <= i <= tokens@.len(),
            w == texts(tokens@).skip(start as int),
            out@ == joined(w.take(i - start)),
        decreases tokens@.len() - i,
    {
        assert(w.take(i - start + 1).drop_last() =~= w.take(i - start));
        assert(w.take(i - start + 1).last() == tokens@[i as int]@);
        proof {
            reveal_strlit(" ");
        }
        if i > start {
            out.append(" ");
        }
        out.append(tokens[i].as_str());
        assert(out@ =~= joined(w.take(i - start + 1)));
        i += 1;
    }
    assert(w.take(tokens@.len() - start) =~= w);
    out
}

/// The puts of a batch, read from position `start` on.
pub fn batch_from(tokens: &Vec<String>, start: usize) -> (cmds: Vec<Command>)
    requires
        start <= tokens@.len(),
    ensures
        put_pairs(cmds@) == batch_puts(texts(tokens@).skip(start as int)),
        forall|i: int| 0 <= i < cmds@.len() ==> (#[trigger] cmds@[i]) is Put,
{
    let ghost w = texts(tokens@);
    let mut cmds: Vec<Command> = Vec::new();
    let mut i: usize = start;
    assert(put_pairs(cmds@) + batch_puts(w.skip(i as int)) =~= batch_puts(w.skip(start as int)));
    while tokens.len() - i >= 3 && str_eq(tokens[i].as_str(), "put")
        invariant
            start <= i <= tokens@.len(),
            w == texts(tokens@),
            batch_puts(w.skip(start as int)) == put_pairs(cmds@) + batch_puts(w.skip(i as int)),
            forall|j: int| 0 <= j < cmds@.len() ==> (#[trigger] cmds@[j]) is Put,
        ensures
            put_pairs(cmds@) == batch_puts(w.skip(start as int)),
        decreases tokens@.len() - i,
    {
        let ghost before = cmds@;
        let ghost rest = w.skip(i as int);
        assert(rest[0] == tokens@[i as int]@);
        assert(rest[1] == tokens@[i + 1]@);
        assert(rest[2] == tokens@[i + 2]@);
        assert(rest.skip(3) =~= w.skip(i + 3));
        cmds.push(Command::Put { key: tokens[i + 1].clone(), value: tokens[i + 2].clone() });
        assert(put_pairs(cmds@) =~= put_pairs(before).push((rest[1], rest[2])));
        assert(put_pairs(cmds@) + batch_puts(w.skip(i + 3)) =~= put_pairs(before) + (seq![
            (rest[1], rest[2]),
        ] + batch_puts(rest.skip(3))));
        i += 3;
    }
    proof {
        let rest = w.skip(i as int);
        if rest.len() >= 3 {
            assert(rest[0] == tokens@[i as int]@);
        }
        assert(put_pairs(cmds@) + Seq::<(Seq<char>, Seq<char>)>::empty() =~= put_pairs(cmds@));
    }
    cmds
}

/// Something that turns a line into a command.
pub trait Parser {
    /// The command that `input` stands for.
    fn parse(&self, input: &str) -> (cmd: Command);
}

/// The parser of the plain command language.
pub struct SimpleParser;

impl Parser for SimpleParser {
    /// Reads the words of the trimmed line and returns the command they
    /// stand for; `Unknown` where they stand for none.
    fn parse(&self, input: &str) -> (cmd: Command)
        ensures
            cmd@ == parse_words(words(trimmed(input@))),
            cmd.well_formed(),
    {
        let tokens = split_words(trim(input));
        let n = tokens.len();
        let ghost w = texts(tokens@);
        assert(w.len() == n);
        assert(forall|i: int| 0 <= i < n ==> w[i] == (#[trigger] tokens@[i])@);
        if n == 0 {
            return Command::Unknown;
        }
        let head = tokens[0].as_str();
        if n >= 3 && str_eq(head, "INSERT") {
            Command::Insert { key: tokens[1].clone(), value: join_from(&tokens, 2) }
        } else if n == 2 && str_eq(head, "SELECT") {
            Command::Select { key: tokens[1].clone() }
        } else if n == 2 && str_eq(head, "REMOVE") {
            Command::Remove { key: tokens[1].clone() }
        } else if n >= 3 && (str_eq(head, "PUT") || str_eq(head, "put")) {
            Command::Put { key: tokens[1].clone(), value: join_from(&tokens, 2) }
        } else if n == 2 && (str_eq(head, "GET") || str_eq(head, "get")) {
            Command::Get { key: tokens[1].clone() }
        } else if n == 2 && (str_eq(head, "DELETE") || str_eq(head, "delete")) {
            Command::Delete { key: tokens[1].clone() }
        } else if n == 1 && (str_eq(head, "SNAPSHOT") || str_eq(head, "snapshot")) {
            Command::Snapshot
        } else if n == 1 && (str_eq(head, "LIST") || str_eq(head, "list") || str_eq(head, "KEYS")
            || str_eq(head, "keys")) {
            Command::List
        } else if n == 1 && (str_eq(head, "EXIT") || str_eq(head, "exit") || str_eq(head, "QUIT")
            || str_eq(head, "quit")) {
            Command::Exit
        } else {
            let seconds = if n == 3 && str_eq(head, "TTL") {
                parse_u64(tokens[2].as_str())
            } else {
                None
            };
            match seconds {
                Some(seconds) => Command::Ttl { key: tokens[1].clone(), seconds },
                None => {
                    if str_eq(head, "BATCH") {
                        Command::Batch(batch_from(&tokens, 1))
                    } else {
                        Command::Unknown
                    }
                },
            }
        }
    }
}

} // verus!
