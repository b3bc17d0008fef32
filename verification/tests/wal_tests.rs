use zyncdb::storage::Storage;
use zyncdb::wal::Wal;

fn owned(lines: &[&str]) -> Vec<String> {
    lines.iter().map(|l| l.to_string()).collect()
}

fn sorted(mut pairs: Vec<(String, String)>) -> Vec<(String, String)> {
    pairs.sort();
    pairs
}

#[test]
fn test_append_and_load() {
    let written = {
        let mut wal = Wal::open(Vec::new());
        wal.append_put("user", "alice");
        wal.append_put("lang", "rust");
        wal.append_delete("user");
        wal.lines().clone()
    };

    let wal = Wal::open(written);
    let map = wal.load_into();

    let expected = vec![("lang".to_string(), "rust".to_string())];
    assert_eq!(sorted(map.iter()), expected);
}

#[test]
fn test_empty_log() {
    let wal = Wal::open(Vec::new());
    let map = wal.load_into();
    assert!(map.iter().is_empty());
    assert_eq!(map.len(), 0);
}

#[test]
fn test_invalid_format_lines() {
    let wal = Wal::open(owned(&["PUT|foo|bar", "INVALID_LINE", "DELETE|foo"]));
    let map = wal.load_into();
    assert!(map.iter().is_empty());
}

#[test]
fn appended_lines_have_the_log_format() {
    let mut wal = Wal::open(Vec::new());
    wal.append_put("user", "alice");
    wal.append_delete("user");
    wal.append_put("empty", "");
    assert_eq!(wal.lines(), &owned(&["PUT|user|alice", "DELETE|user", "PUT|empty|"]));
    assert_eq!(wal.len(), 3);
}

#[test]
fn replay_applies_records_in_order() {
    let wal = Wal::open(owned(&["PUT|x|1", "PUT|x|2", "DELETE|x", "PUT|x|3"]));
    let map = wal.load_into();
    assert_eq!(map.iter(), vec![("x".to_string(), "3".to_string())]);
    assert_eq!(map.get("x"), Some("3".to_string()));
}

#[test]
fn replay_passes_over_garbage() {
    let wal = Wal::open(owned(&[
        "garbage here",
        "PUT|k|v",
        "",
        "   ",
        "PUT|a|b|c",
        "DELETE",
        "GET|k",
    ]));
    let map = wal.load_into();
    assert_eq!(
        map.iter(),
        vec![("k".to_string(), "v".to_string()), ("a".to_string(), "b|c".to_string())]
    );
}

#[test]
fn replay_twice_gives_the_same_pairs() {
    let wal = Wal::open(owned(&["PUT|a|1", "PUT|b|2", "DELETE|zz", "PUT|a|3"]));
    let first = wal.load_into();
    let second = wal.load_into();
    assert_eq!(first.iter(), second.iter());
    assert_eq!(
        sorted(first.iter()),
        vec![("a".to_string(), "3".to_string()), ("b".to_string(), "2".to_string())]
    );
}

#[test]
fn replay_trims_nothing() {
    let wal = Wal::open(owned(&["PUT|k|v ", "PUT| a |\t1\r", " PUT|b|2", "PUT|c|", "PUT||x"]));
    let map = wal.load_into();
    assert_eq!(
        map.iter(),
        vec![
            ("k".to_string(), "v ".to_string()),
            (" a ".to_string(), "\t1\r".to_string()),
            ("c".to_string(), "".to_string()),
            ("".to_string(), "x".to_string()),
        ]
    );
}

#[test]
fn every_value_is_replayed_as_it_was_appended() {
    let values = ["v ", " v", "a|b", "|", "", "PUT|x|y", "two words", "tab\t", "\u{3000}wide"];
    let mut wal = Wal::open(Vec::new());
    for (i, value) in values.iter().enumerate() {
        wal.append_put(&format!("k{}", i), value);
    }
    let map = Wal::open(wal.lines().clone()).load_into();
    for (i, value) in values.iter().enumerate() {
        assert_eq!(map.get(&format!("k{}", i)), Some(value.to_string()));
    }
    assert_eq!(map.len(), values.len());
}

#[test]
fn a_delete_is_replayed_for_the_key_as_it_was_appended() {
    let mut base = Wal::open(owned(&["PUT|k |1", "PUT|k|2"])).load_into();
    let mut wal = Wal::open(Vec::new());
    wal.append_delete("k ");
    wal.replay_into(&mut base);
    assert_eq!(base.iter(), vec![("k".to_string(), "2".to_string())]);
}

#[test]
fn replay_into_applies_deletes_to_what_is_there() {
    let mut base = Wal::open(owned(&["PUT|a|1", "PUT|b|2"])).load_into();
    let wal = Wal::open(owned(&["DELETE|a", "PUT|c|3"]));
    wal.replay_into(&mut base);
    assert_eq!(
        sorted(base.iter()),
        vec![("b".to_string(), "2".to_string()), ("c".to_string(), "3".to_string())]
    );
}

#[test]
fn truncate_discards_every_line() {
    let mut wal = Wal::open(owned(&["PUT|a|1"]));
    wal.truncate();
    assert!(wal.lines().is_empty());
    assert!(wal.load_into().iter().is_empty());
}

#[test]
fn unrecognized_lines_are_reported_trimmed() {
    let wal = Wal::open(owned(&["PUT|a|1", "  junk  ", "", " \t ", "PUT|a", "GET|a", "DELETE|a"]));
    assert_eq!(wal.unrecognized(), owned(&["junk", "PUT|a", "GET|a"]));
    assert!(Wal::open(owned(&["PUT|a|1", "", "DELETE|a"])).unrecognized().is_empty());
}
