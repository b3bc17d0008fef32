use zyncdb::storage::{FileStorage, MemStorage, Storage};

fn owned(lines: &[&str]) -> Vec<String> {
    lines.iter().map(|l| l.to_string()).collect()
}

fn pair(k: &str, v: &str) -> (String, String) {
    (k.to_string(), v.to_string())
}

#[test]
fn mem_storage_starts_empty() {
    let s = MemStorage::new();
    assert_eq!(s.len(), 0);
    assert!(s.iter().is_empty());
    assert_eq!(s.get("a"), None);
}

#[test]
fn mem_storage_insert_get_delete() {
    let mut s = MemStorage::new();
    assert_eq!(s.insert("a".to_string(), "1".to_string()), None);
    assert_eq!(s.insert("b".to_string(), "2".to_string()), None);
    assert_eq!(s.insert("a".to_string(), "3".to_string()), Some("1".to_string()));
    assert_eq!(s.len(), 2);
    assert_eq!(s.get("a"), Some("3".to_string()));
    assert_eq!(s.get("b"), Some("2".to_string()));
    assert_eq!(s.get("ab"), None);
    assert!(s.delete("a"));
    assert!(!s.delete("a"));
    assert_eq!(s.get("a"), None);
    assert_eq!(s.len(), 1);
    s.clear();
    assert_eq!(s.len(), 0);
    assert_eq!(s.get("b"), None);
}

#[test]
fn iter_is_a_copy_in_storage_order() {
    let mut s = MemStorage::new();
    s.insert("a".to_string(), "1".to_string());
    s.insert("b".to_string(), "2".to_string());
    s.insert("a".to_string(), "3".to_string());
    let copy = s.iter();
    s.insert("c".to_string(), "4".to_string());
    assert_eq!(copy, vec![pair("b", "2"), pair("a", "3")]);
    assert_eq!(s.iter(), vec![pair("b", "2"), pair("a", "3"), pair("c", "4")]);
}

#[test]
fn file_storage_reads_its_lines() {
    let s = FileStorage::new(
        "data.db".to_string(),
        &owned(&["a=1", "junk", "b=2", " a=3 ", "c=x=y", ""]),
    );
    assert_eq!(s.file_path(), "data.db");
    assert_eq!(s.len(), 4);
    assert_eq!(s.get("a"), Some("1".to_string()));
    assert_eq!(s.get(" a"), Some("3 ".to_string()));
    assert_eq!(s.get("b"), Some("2".to_string()));
    assert_eq!(s.get("c"), Some("x=y".to_string()));
    assert_eq!(s.get("junk"), None);
}

#[test]
fn file_storage_image_follows_every_change() {
    let mut s = FileStorage::new("data.db".to_string(), &Vec::new());
    assert!(s.image().is_empty());
    assert_eq!(s.insert("a".to_string(), "1".to_string()), None);
    assert_eq!(s.insert("b".to_string(), "2".to_string()), None);
    assert_eq!(s.image(), owned(&["a=1", "b=2"]));
    assert_eq!(s.insert("a".to_string(), "9".to_string()), Some("1".to_string()));
    assert_eq!(s.image(), owned(&["b=2", "a=9"]));
    assert!(s.delete("b"));
    assert!(!s.delete("b"));
    assert_eq!(s.image(), owned(&["a=9"]));
    s.clear();
    assert!(s.image().is_empty());
    assert_eq!(s.file_path(), "data.db");
}

#[test]
fn file_storage_image_is_read_back() {
    let mut s = FileStorage::new("data.db".to_string(), &Vec::new());
    s.insert("a".to_string(), "1".to_string());
    s.insert("b".to_string(), "x=y".to_string());
    s.insert(" c ".to_string(), " z ".to_string());
    let again = FileStorage::new("data.db".to_string(), &s.image());
    assert_eq!(again.iter(), s.iter());
}
