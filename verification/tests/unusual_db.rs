use protohackers_rs::unusual_db::UnusualDb;

#[test]
fn version_is_reported() {
    let mut db = UnusualDb::new();
    assert_eq!(db.handle("version"), Some("version=My Version".to_string()));
}

#[test]
fn version_cannot_be_changed() {
    let mut db = UnusualDb::new();
    assert_eq!(db.handle("version=hacked"), None);
    assert_eq!(db.handle("version"), Some("version=My Version".to_string()));
}

#[test]
fn insert_then_query_reads_value() {
    let mut db = UnusualDb::new();
    assert_eq!(db.handle("foo=bar"), None);
    assert_eq!(db.handle("foo"), Some("foo=bar".to_string()));
    assert_eq!(db.handle("foo=baz"), None);
    assert_eq!(db.handle("foo"), Some("foo=baz".to_string()));
}

#[test]
fn unknown_key_reads_empty() {
    let mut db = UnusualDb::new();
    assert_eq!(db.handle("missing"), Some("missing=".to_string()));
}

#[test]
fn split_happens_at_first_equals() {
    let mut db = UnusualDb::new();
    assert_eq!(db.handle("foo=bar=baz"), None);
    assert_eq!(db.handle("foo"), Some("foo=bar=baz".to_string()));
    assert_eq!(db.handle("=x"), None);
    assert_eq!(db.handle(""), Some("=x".to_string()));
    assert_eq!(db.handle("key="), None);
    assert_eq!(db.handle("key"), Some("key=".to_string()));
}

#[test]
fn get_and_insert_work_directly() {
    let mut db = UnusualDb::new();
    assert_eq!(db.get(&"version".to_string()), Some("My Version".to_string()));
    assert_eq!(db.get(&"k".to_string()), None);
    db.insert("k".to_string(), "v".to_string());
    assert_eq!(db.get(&"k".to_string()), Some("v".to_string()));
}

#[test]
fn non_ascii_keys_and_values() {
    let mut db = UnusualDb::new();
    assert_eq!(db.handle("clé=valeur✓"), None);
    assert_eq!(db.handle("clé"), Some("clé=valeur✓".to_string()));
}
