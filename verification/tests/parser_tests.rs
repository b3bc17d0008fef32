use zyncdb::parser::{batch_from, join_from, Command, Parser, SimpleParser};

fn parse(line: &str) -> Command {
    SimpleParser.parse(line)
}

fn owned(words: &[&str]) -> Vec<String> {
    words.iter().map(|w| w.to_string()).collect()
}

#[test]
fn put_takes_the_rest_of_the_line_as_value() {
    match parse("put foo bar") {
        Command::Put { key, value } => {
            assert_eq!(key, "foo");
            assert_eq!(value, "bar");
        }
        _ => panic!("not a put"),
    }
    match parse("  PUT   foo   two   words \n") {
        Command::Put { key, value } => {
            assert_eq!(key, "foo");
            assert_eq!(value, "two words");
        }
        _ => panic!("not a put"),
    }
    assert!(matches!(parse("put foo"), Command::Unknown));
    assert!(matches!(parse("Put foo bar"), Command::Unknown));
}

#[test]
fn insert_select_remove_are_upper_case_only() {
    match parse("INSERT k a b c") {
        Command::Insert { key, value } => {
            assert_eq!(key, "k");
            assert_eq!(value, "a b c");
        }
        _ => panic!("not an insert"),
    }
    match parse("SELECT k") {
        Command::Select { key } => assert_eq!(key, "k"),
        _ => panic!("not a select"),
    }
    match parse("REMOVE k") {
        Command::Remove { key } => assert_eq!(key, "k"),
        _ => panic!("not a remove"),
    }
    assert!(matches!(parse("insert k v"), Command::Unknown));
    assert!(matches!(parse("select k"), Command::Unknown));
    assert!(matches!(parse("INSERT k"), Command::Unknown));
    assert!(matches!(parse("SELECT k extra"), Command::Unknown));
}

#[test]
fn get_and_delete_take_one_key() {
    match parse("get foo") {
        Command::Get { key } => assert_eq!(key, "foo"),
        _ => panic!("not a get"),
    }
    match parse("GET\tfoo") {
        Command::Get { key } => assert_eq!(key, "foo"),
        _ => panic!("not a get"),
    }
    match parse("delete foo") {
        Command::Delete { key } => assert_eq!(key, "foo"),
        _ => panic!("not a delete"),
    }
    match parse("DELETE foo") {
        Command::Delete { key } => assert_eq!(key, "foo"),
        _ => panic!("not a delete"),
    }
    assert!(matches!(parse("get"), Command::Unknown));
    assert!(matches!(parse("get a b"), Command::Unknown));
}

#[test]
fn single_words() {
    assert!(matches!(parse("snapshot"), Command::Snapshot));
    assert!(matches!(parse("SNAPSHOT"), Command::Snapshot));
    assert!(matches!(parse("list"), Command::List));
    assert!(matches!(parse("LIST"), Command::List));
    assert!(matches!(parse("keys"), Command::List));
    assert!(matches!(parse("KEYS"), Command::List));
    assert!(matches!(parse("exit"), Command::Exit));
    assert!(matches!(parse("EXIT"), Command::Exit));
    assert!(matches!(parse("quit"), Command::Exit));
    assert!(matches!(parse(" QUIT "), Command::Exit));
    assert!(matches!(parse("exit now"), Command::Unknown));
    assert!(matches!(parse(""), Command::Unknown));
    assert!(matches!(parse("   "), Command::Unknown));
    assert!(matches!(parse("help"), Command::Unknown));
}

#[test]
fn ttl_needs_a_number_of_seconds() {
    match parse("TTL k 30") {
        Command::Ttl { key, seconds } => {
            assert_eq!(key, "k");
            assert_eq!(seconds, 30);
        }
        _ => panic!("not a ttl"),
    }
    match parse("TTL k +007") {
        Command::Ttl { seconds, .. } => assert_eq!(seconds, 7),
        _ => panic!("not a ttl"),
    }
    match parse("TTL k 18446744073709551615") {
        Command::Ttl { seconds, .. } => assert_eq!(seconds, u64::MAX),
        _ => panic!("not a ttl"),
    }
    assert!(matches!(parse("TTL k 18446744073709551616"), Command::Unknown));
    assert!(matches!(parse("TTL k -1"), Command::Unknown));
    assert!(matches!(parse("TTL k +"), Command::Unknown));
    assert!(matches!(parse("TTL k 1.5"), Command::Unknown));
    assert!(matches!(parse("TTL k"), Command::Unknown));
    assert!(matches!(parse("ttl k 30"), Command::Unknown));
}

#[test]
fn batch_reads_puts_until_something_else() {
    match parse("BATCH put a 1 put b 2 get c put d 4") {
        Command::Batch(cmds) => {
            assert_eq!(cmds.len(), 2);
            match &cmds[1] {
                Command::Put { key, value } => {
                    assert_eq!(key, "b");
                    assert_eq!(value, "2");
                }
                _ => panic!("not a put"),
            }
        }
        _ => panic!("not a batch"),
    }
    match parse("BATCH") {
        Command::Batch(cmds) => assert!(cmds.is_empty()),
        _ => panic!("not a batch"),
    }
    match parse("BATCH put a") {
        Command::Batch(cmds) => assert!(cmds.is_empty()),
        _ => panic!("not a batch"),
    }
    match parse("BATCH put a 1 put b") {
        Command::Batch(cmds) => assert_eq!(cmds.len(), 1),
        _ => panic!("not a batch"),
    }
}

#[test]
fn join_and_batch_start_where_they_are_told() {
    let words = owned(&["x", "put", "a", "1", "put", "b", "2"]);
    assert_eq!(join_from(&words, 4), "put b 2");
    assert_eq!(join_from(&words, 6), "2");
    assert_eq!(join_from(&words, 7), "");
    assert_eq!(batch_from(&words, 1).len(), 2);
    assert_eq!(batch_from(&words, 0).len(), 0);
    assert_eq!(batch_from(&words, 4).len(), 1);
}
