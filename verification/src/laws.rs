//! What holds of the store across operations: the log and the container
//! stay in step, a snapshot restores what was compacted, deadlines hide
//! keys, and transactions neither leak nor lose writes.

use vstd::prelude::*;
use crate::record::{decode_log, decode_snapshot, delete_line, put_line, snapshot_line};
use crate::record::{valid_key, Mutation};
use crate::record::{file_line, lemma_file_line_round_trip, lemma_snapshot_line_round_trip};
use crate::record::{lemma_delete_line_round_trip, lemma_put_line_round_trip};
use crate::storage::{file_lines, load_file};
use crate::store::{bar_free, load_snapshot, merge, put_lines, snapshot_lines, StoreState};
use crate::table::{assoc_map, distinct_keys, has_key, with_pair};
use crate::table::{lemma_distinct_prefix, lemma_with_pair, lemma_without_key};
use crate::table::{lemma_every_key_with, lemma_every_key_without};
use crate::text::{first_at, lemma_before_first};
use crate::wal::{lemma_replay_push, replay, replay_onto};

verus! {

/// The store after one mutation was applied through `insert` or `delete`.
pub open spec fn step(s: StoreState, m: Mutation) -> StoreState {
    match m {
        Mutation::Put(k, v) => s.after_insert(k, v),
        Mutation::Delete(k) => s.after_delete(k),
    }
}

/// The store after a sequence of mutations, applied in order.
pub open spec fn run(s: StoreState, ops: Seq<Mutation>) -> StoreState
    decreases ops.len(),
{
    if ops.len() == 0 {
        s
    } else {
        step(run(s, ops.drop_last()), ops.last())
    }
}

/// Outside a transaction, any put or delete keeps the log and the
/// container in step, whatever its key and value hold.
pub proof fn law_step_keeps_in_step(s: StoreState, m: Mutation)
    requires
        s.in_step(),
        s.tx.is_none(),
    ensures
        step(s, m).in_step(),
        step(s, m).tx.is_none(),
{
    match m {
        Mutation::Put(k, v) => {
            if valid_key(k) {
                lemma_put_line_round_trip(k, v);
            }
            lemma_replay_push(Seq::empty(), s.log, put_line(k, v));
            assert(s.log + seq![put_line(k, v)] =~= s.log.push(put_line(k, v)));
            assert(s.log + Seq::<Seq<char>>::empty() =~= s.log);
        },
        Mutation::Delete(k) => {
            lemma_delete_line_round_trip(k);
            lemma_replay_push(Seq::empty(), s.log, delete_line(k));
            assert(s.log + seq![delete_line(k)] =~= s.log.push(delete_line(k)));
            assert(s.log + Seq::<Seq<char>>::empty() =~= s.log);
        },
    }
}

/// Round trip: after any sequence of puts and deletes on a store that was
/// in step, a replay of the log gives exactly what the container holds. A
/// fresh store on an empty log is in step.
pub proof fn law_round_trip(s: StoreState, ops: Seq<Mutation>)
    requires
        s.in_step(),
        s.tx.is_none(),
    ensures
        replay(run(s, ops).log) == run(s, ops).data,
        run(s, ops).tx.is_none(),
        StoreState::fresh(Seq::empty(), Seq::empty(), None).in_step(),
    decreases ops.len(),
{
    if ops.len() > 0 {
        law_round_trip(s, ops.drop_last());
        law_step_keeps_in_step(run(s, ops.drop_last()), ops.last());
    }
}

/// Replaying the put records of pairs whose keys are free of the delimiter
/// stores the pairs, in order.
pub proof fn lemma_replay_put_lines(
    base: Seq<(Seq<char>, Seq<char>)>,
    log: Seq<Seq<char>>,
    pairs: Seq<(Seq<char>, Seq<char>)>,
)
    requires
        bar_free(pairs),
    ensures
        replay_onto(base, log + put_lines(pairs)) == merge(replay_onto(base, log), pairs),
    decreases pairs.len(),
{
    if pairs.len() == 0 {
        assert(log + put_lines(pairs) =~= log);
    } else {
        let p = pairs.last();
        let rest = pairs.drop_last();
        assert(bar_free(rest)) by {
            assert forall|i: int| 0 <= i < rest.len() implies !(#[trigger] rest[i]).0.contains(
                '|',
            ) by {
                assert(rest[i] == pairs[i]);
            }
        }
        assert(!pairs[pairs.len() - 1].0.contains('|'));
        lemma_replay_put_lines(base, log, rest);
        assert(log + put_lines(pairs) =~= (log + put_lines(rest)).push(put_line(p.0, p.1)));
        lemma_replay_push(base, log + put_lines(rest), put_line(p.0, p.1));
        lemma_put_line_round_trip(p.0, p.1);
    }
}

/// A commit keeps the log and the container in step: what a transaction
/// stored survives a restart.
pub proof fn law_commit_keeps_in_step(s: StoreState)
    requires
        s.in_step(),
        s.wf(),
    ensures
        s.after_commit().in_step(),
{
    if s.tx.is_some() {
        let buf = s.tx.unwrap();
        assert(bar_free(buf)) by {
            assert forall|i: int| 0 <= i < buf.len() implies !(#[trigger] buf[i]).0.contains(
                '|',
            ) by {
                assert(valid_key(buf[i].0));
            }
        }
        lemma_replay_put_lines(Seq::empty(), s.log, buf);
    }
}

/// Replay is a function of the log: the same lines give the same pairs,
/// however often they are replayed.
pub proof fn law_replay_repeatable(first: Seq<Seq<char>>, second: Seq<Seq<char>>)
    requires
        first == second,
    ensures
        replay(first) == replay(second),
{
}

/// Replaying the delete of a key that the log has not left present changes
/// nothing.
pub proof fn law_replay_delete_absent(log: Seq<Seq<char>>, k: Seq<char>)
    requires
        !has_key(replay(log), k),
    ensures
        replay(log.push(delete_line(k))) == replay(log),
{
    lemma_delete_line_round_trip(k);
    lemma_replay_push(Seq::empty(), log, delete_line(k));
    lemma_without_key(replay(log), k);
}

/// Replaying a put gives the key that value, whatever the log held for it
/// before, and touches no other key.
pub proof fn law_replay_put_overwrites(log: Seq<Seq<char>>, k: Seq<char>, v: Seq<char>)
    requires
        !k.contains('|'),
    ensures
        assoc_map(replay(log.push(put_line(k, v)))) == assoc_map(replay(log)).insert(k, v),
{
    lemma_put_line_round_trip(k, v);
    lemma_replay_push(Seq::empty(), log, put_line(k, v));
    lemma_with_pair(replay(log), k, v);
}

/// The key of a decoded put and the key of a decoded snapshot line are free
/// of the delimiter.
pub proof fn lemma_decoded_key_bar_free(line: Seq<char>)
    ensures
        match decode_log(line) {
            Some(Mutation::Put(k, _)) => !k.contains('|'),
            _ => true,
        },
        match decode_snapshot(line) {
            Some((k, _)) => !k.contains('|'),
            None => true,
        },
{
    lemma_before_first(line, '|');
    if line.contains('|') {
        lemma_before_first(line.skip(first_at(line, '|') + 1), '|');
    }
}

/// Replay on top of keys that are free of the delimiter gives only such
/// keys.
pub proof fn lemma_replay_bar_free(base: Seq<(Seq<char>, Seq<char>)>, lines: Seq<Seq<char>>)
    requires
        bar_free(base),
    ensures
        bar_free(replay_onto(base, lines)),
    decreases lines.len(),
{
    if lines.len() > 0 {
        let before = replay_onto(base, lines.drop_last());
        lemma_replay_bar_free(base, lines.drop_last());
        lemma_decoded_key_bar_free(lines.last());
        match decode_log(lines.last()) {
            Some(Mutation::Put(k, v)) => {
                lemma_every_key_with(before, k, v, |k: Seq<char>| !k.contains('|'));
            },
            Some(Mutation::Delete(k)) => {
                lemma_every_key_without(before, k, |k: Seq<char>| !k.contains('|'));
            },
            None => {},
        }
    }
}

/// Reading a snapshot on top of keys that are free of the delimiter gives
/// only such keys.
pub proof fn lemma_load_snapshot_bar_free(
    base: Seq<(Seq<char>, Seq<char>)>,
    lines: Seq<Seq<char>>,
)
    requires
        bar_free(base),
    ensures
        bar_free(load_snapshot(base, lines)),
    decreases lines.len(),
{
    if lines.len() > 0 {
        let before = load_snapshot(base, lines.drop_last());
        lemma_load_snapshot_bar_free(base, lines.drop_last());
        lemma_decoded_key_bar_free(lines.last());
        match decode_snapshot(lines.last()) {
            Some((k, v)) => {
                lemma_every_key_with(before, k, v, |k: Seq<char>| !k.contains('|'));
            },
            None => {},
        }
    }
}

/// Storing pairs whose keys are free of the delimiter keeps the keys free
/// of it.
pub proof fn lemma_merge_bar_free(
    base: Seq<(Seq<char>, Seq<char>)>,
    extra: Seq<(Seq<char>, Seq<char>)>,
)
    requires
        bar_free(base),
        bar_free(extra),
    ensures
        bar_free(merge(base, extra)),
    decreases extra.len(),
{
    if extra.len() > 0 {
        let rest = extra.drop_last();
        assert(bar_free(rest)) by {
            assert forall|i: int| 0 <= i < rest.len() implies !(#[trigger] rest[i]).0.contains(
                '|',
            ) by {
                assert(rest[i] == extra[i]);
            }
        }
        lemma_merge_bar_free(base, rest);
        assert(!extra[extra.len() - 1].0.contains('|'));
        lemma_every_key_with(
            merge(base, rest),
            extra.last().0,
            extra.last().1,
            |k: Seq<char>| !k.contains('|'),
        );
    }
}

/// A store opened on a log, or on a snapshot and a log, holds only keys
/// that are free of the delimiter, and no operation brings in another: its
/// snapshot can always be read back.
pub proof fn law_keys_stay_bar_free(
    s: StoreState,
    lines: Seq<Seq<char>>,
    snapshot: Seq<Seq<char>>,
    k: Seq<char>,
    v: Seq<char>,
    now: u64,
)
    requires
        s.wf(),
        bar_free(s.data),
    ensures
        bar_free(replay(lines)),
        bar_free(replay_onto(load_snapshot(Seq::empty(), snapshot), lines)),
        bar_free(s.after_insert(k, v).data),
        bar_free(s.after_delete(k).data),
        bar_free(s.after_get(k, now).data),
        bar_free(s.after_commit().data),
        bar_free(s.after_clear().data),
{
    let free = |k: Seq<char>| !k.contains('|');
    lemma_replay_bar_free(Seq::empty(), lines);
    lemma_load_snapshot_bar_free(Seq::empty(), snapshot);
    lemma_replay_bar_free(load_snapshot(Seq::empty(), snapshot), lines);
    if valid_key(k) {
        lemma_every_key_with(s.data, k, v, free);
    }
    lemma_every_key_without(s.data, k, free);
    if s.tx.is_some() {
        let buf = s.tx.unwrap();
        assert(bar_free(buf)) by {
            assert forall|i: int| 0 <= i < buf.len() implies !(#[trigger] buf[i]).0.contains(
                '|',
            ) by {
                assert(valid_key(buf[i].0));
            }
        }
        lemma_merge_bar_free(s.data, buf);
    }
}

/// Reading back the snapshot lines of pairs with distinct keys that are
/// free of the delimiter gives the pairs themselves.
pub proof fn lemma_snapshot_reads_back(pairs: Seq<(Seq<char>, Seq<char>)>)
    requires
        distinct_keys(pairs),
        bar_free(pairs),
    ensures
        load_snapshot(Seq::empty(), snapshot_lines(pairs)) == pairs,
    decreases pairs.len(),
{
    if pairs.len() == 0 {
        assert(pairs =~= Seq::empty());
    } else {
        let p = pairs.last();
        let rest = pairs.drop_last();
        lemma_distinct_prefix(pairs);
        assert(bar_free(rest)) by {
            assert forall|i: int| 0 <= i < rest.len() implies !(#[trigger] rest[i]).0.contains(
                '|',
            ) by {
                assert(rest[i] == pairs[i]);
            }
        }
        lemma_snapshot_reads_back(rest);
        assert(snapshot_lines(pairs).drop_last() =~= snapshot_lines(rest));
        assert(snapshot_lines(pairs).last() == snapshot_line(p.0, p.1));
        assert(!pairs[pairs.len() - 1].0.contains('|'));
        lemma_snapshot_line_round_trip(p.0, p.1);
        lemma_without_key(rest, p.0);
        assert(rest.push(p) =~= pairs);
    }
}

/// Snapshot and compaction: afterwards the log is empty, and opening a
/// store on the snapshot and the emptied log gives exactly the pairs that
/// the container held.
pub proof fn law_snapshot_restores(s: StoreState)
    requires
        s.wf(),
        bar_free(s.data),
    ensures
        s.after_compact().log == Seq::<Seq<char>>::empty(),
        s.after_compact().data == s.data,
        replay_onto(load_snapshot(Seq::empty(), snapshot_lines(s.data)), s.after_compact().log)
            == s.data,
{
    lemma_snapshot_reads_back(s.data);
}

/// Every key is free of the delimiter of storage-file lines.
pub open spec fn equals_free(pairs: Seq<(Seq<char>, Seq<char>)>) -> bool {
    forall|i: int| 0 <= i < pairs.len() ==> !(#[trigger] pairs[i]).0.contains('=')
}

/// The file-backed container reads back its own image: the lines that it
/// wants on disk give, when read in order, exactly its pairs.
pub proof fn law_file_image_reads_back(pairs: Seq<(Seq<char>, Seq<char>)>)
    requires
        distinct_keys(pairs),
        equals_free(pairs),
    ensures
        load_file(file_lines(pairs)) == pairs,
    decreases pairs.len(),
{
    if pairs.len() == 0 {
        assert(pairs =~= Seq::empty());
    } else {
        let p = pairs.last();
        let rest = pairs.drop_last();
        lemma_distinct_prefix(pairs);
        assert(equals_free(rest)) by {
            assert forall|i: int| 0 <= i < rest.len() implies !(#[trigger] rest[i]).0.contains(
                '=',
            ) by {
                assert(rest[i] == pairs[i]);
            }
        }
        law_file_image_reads_back(rest);
        assert(file_lines(pairs).drop_last() =~= file_lines(rest));
        assert(file_lines(pairs).last() == file_line(p.0, p.1));
        assert(p == pairs[pairs.len() - 1]);
        lemma_file_line_round_trip(p.0, p.1);
        lemma_without_key(rest, p.0);
        assert(rest.push(p) =~= pairs);
    }
}

/// A deadline of zero seconds: any `get` at a later time reports the key
/// absent and purges it from the container, with its deadline.
pub proof fn law_ttl_zero(s: StoreState, k: Seq<char>, now: u64, later: u64)
    requires
        now < later,
    ensures
        s.after_set_ttl(k, 0, now).get_value(k, later).is_none(),
        !assoc_map(s.after_set_ttl(k, 0, now).after_get(k, later).data).contains_key(k),
        !s.after_set_ttl(k, 0, now).after_get(k, later).deadlines.contains_key(k),
{
    lemma_without_key(s.data, k);
}

/// Transaction isolation: a write inside a transaction is not seen by a
/// `get` before the commit, and is seen by a `get` after it, unless the key's
/// deadline passes between the two.
pub proof fn law_tx_isolation(s: StoreState, k: Seq<char>, v: Seq<char>, now: u64, later: u64)
    requires
        valid_key(k),
        s.expired(k, later) ==> s.expired(k, now),
    ensures
        s.after_begin().after_insert(k, v).get_value(k, now) == s.get_value(k, now),
        s.after_begin().after_insert(k, v).after_get(k, now).after_commit().get_value(k, later)
            == Some(v),
{
    let t = s.after_begin().after_insert(k, v);
    let u = t.after_get(k, now);
    let buf = with_pair(Seq::empty(), k, v);
    assert(buf =~= seq![(k, v)]);
    assert(buf.drop_last() =~= Seq::empty());
    assert(merge(u.data, Seq::empty()) == u.data);
    assert(merge(u.data, buf) == with_pair(u.data, k, v));
    lemma_with_pair(u.data, k, v);
}

/// Transaction rollback: a delete inside a transaction that is rolled back
/// leaves the container, the log and every `get` as they were.
pub proof fn law_tx_rollback(s: StoreState, k: Seq<char>, now: u64)
    ensures
        s.after_begin().after_delete(k).after_rollback().get_value(k, now) == s.get_value(k, now),
        s.after_begin().after_delete(k).after_rollback().data == s.data,
        s.after_begin().after_delete(k).after_rollback().log == s.log,
{
}

} // verus!
