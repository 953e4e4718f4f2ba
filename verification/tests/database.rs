use heed::types::ByteSlice;
use lmdb_viewer::change::Change;
use lmdb_viewer::database::Database;
use lmdb_viewer::database_item::DatabaseItem;
use lmdb_viewer::error::DatabaseError;
use lmdb_viewer::store::{MAP_SIZE, MAX_DBS};

type Table = heed::Database<ByteSlice, ByteSlice>;

fn open_store(dir: &tempfile::TempDir) -> heed::Env {
    heed::EnvOpenOptions::new().map_size(10 * 1024 * 1024).max_dbs(8).open(dir.path()).unwrap()
}

fn table(env: &heed::Env, name: &str) -> Table {
    env.create_database(Some(name)).unwrap()
}

fn put(env: &heed::Env, table: &Table, records: &[(&[u8], &[u8])]) {
    let mut txn = env.write_txn().unwrap();
    for (key, data) in records {
        table.put(&mut txn, key, data).unwrap();
    }
    txn.commit().unwrap();
}

fn delete(env: &heed::Env, table: &Table, key: &[u8]) {
    let mut txn = env.write_txn().unwrap();
    table.delete(&mut txn, key).unwrap();
    txn.commit().unwrap();
}

fn entries(database: &Database) -> Vec<(Vec<u8>, Vec<u8>)> {
    (0..database.len()).map(|i| database.get(i).into_parts()).collect()
}

fn pairs(records: &[(&str, &str)]) -> Vec<(Vec<u8>, Vec<u8>)> {
    records.iter().map(|(key, data)| (key.as_bytes().to_vec(), data.as_bytes().to_vec())).collect()
}

#[test]
fn a_table_is_loaded_in_key_order() {
    let dir = tempfile::tempdir().unwrap();
    let env = open_store(&dir);
    let fruit = table(&env, "fruit");
    put(&env, &fruit, &[(b"pear", b"3"), (b"apple", b"1"), (b"fig", b"2"), (b"app", b"0")]);
    let database = Database::load(&env, Some("fruit")).unwrap();
    assert_eq!(database.name(), Some("fruit"));
    assert_eq!(
        entries(&database),
        pairs(&[("app", "0"), ("apple", "1"), ("fig", "2"), ("pear", "3")])
    );
    for i in 1..database.len() {
        assert!(database.get(i - 1).key() < database.get(i).key());
    }
    assert!(database.snapshot().is_strictly_ascending());
    assert_eq!(database.snapshot().key_at(0), b"app");
    assert_eq!(database.snapshot().data_at(3), b"3");
}

#[test]
fn an_empty_table_is_loaded_as_an_empty_snapshot() {
    let dir = tempfile::tempdir().unwrap();
    let env = open_store(&dir);
    let _ = table(&env, "empty");
    let database = Database::load(&env, Some("empty")).unwrap();
    assert_eq!(database.len(), 0);
}

#[test]
fn loading_twice_gives_the_same_entries() {
    let dir = tempfile::tempdir().unwrap();
    let env = open_store(&dir);
    let fruit = table(&env, "fruit");
    put(&env, &fruit, &[(b"b", b"2"), (b"a", b"1"), (b"c", &[0, 255, 7])]);
    let first = Database::load(&env, Some("fruit")).unwrap();
    let second = Database::load(&env, Some("fruit")).unwrap();
    assert_eq!(entries(&first), entries(&second));
    assert_eq!(first.len(), 3);
}

#[test]
fn the_root_table_lists_the_names_of_the_tables() {
    let dir = tempfile::tempdir().unwrap();
    let env = open_store(&dir);
    let _ = table(&env, "beta");
    let _ = table(&env, "alpha");
    let registry = Database::load(&env, None).unwrap();
    assert_eq!(registry.name(), None);
    assert_eq!(registry.len(), 2);
    assert_eq!(registry.get(0).key(), b"alpha");
    assert_eq!(registry.get(1).key(), b"beta");
}

#[test]
fn a_name_from_the_root_table_opens_its_table() {
    let dir = tempfile::tempdir().unwrap();
    let env = open_store(&dir);
    let alpha = table(&env, "alpha");
    let beta = table(&env, "beta");
    put(&env, &alpha, &[(b"k1", b"v1")]);
    put(&env, &beta, &[(b"k2", b"v2"), (b"k3", b"v3")]);
    let registry = Database::load(&env, None).unwrap();
    assert_eq!(registry.len(), 2);
    let first = registry.select(0).unwrap();
    assert_eq!(first.name(), Some("alpha"));
    assert_eq!(entries(&first), pairs(&[("k1", "v1")]));
    let second = registry.select(1).unwrap();
    assert_eq!(second.name(), Some("beta"));
    assert_eq!(entries(&second), pairs(&[("k2", "v2"), ("k3", "v3")]));
}

#[test]
fn a_table_that_does_not_exist_is_not_found() {
    let dir = tempfile::tempdir().unwrap();
    let env = open_store(&dir);
    let _ = table(&env, "alpha");
    assert!(Database::load(&env, Some("alpha")).is_ok());
    assert!(matches!(Database::load(&env, Some("gamma")), Err(DatabaseError::NotFound)));
}

#[test]
fn a_name_with_a_zero_byte_is_not_found() {
    let dir = tempfile::tempdir().unwrap();
    let env = open_store(&dir);
    let _ = table(&env, "alpha");
    assert!(matches!(Database::load(&env, Some("al\u{0}pha")), Err(DatabaseError::NotFound)));
    assert!(matches!(Database::load(&env, Some("\u{0}")), Err(DatabaseError::NotFound)));
}

#[test]
fn a_root_key_that_is_no_text_is_not_found() {
    let dir = tempfile::tempdir().unwrap();
    let env = open_store(&dir);
    let root: Table = env.create_database(None).unwrap();
    put(&env, &root, &[(&[0xff, 0xfe], b"x"), (b"a\x00b", b"y")]);
    let registry = Database::load(&env, None).unwrap();
    assert_eq!(registry.len(), 2);
    assert_eq!(registry.get(0).key(), b"a\x00b");
    assert_eq!(registry.get(1).key(), &[0xff, 0xfe]);
    assert!(matches!(registry.select(0), Err(DatabaseError::NotFound)));
    assert!(matches!(registry.select(1), Err(DatabaseError::NotFound)));
    assert_eq!(registry.len(), 2);
}

#[test]
fn a_root_key_that_is_no_table_does_not_open() {
    let dir = tempfile::tempdir().unwrap();
    let env = open_store(&dir);
    let root: Table = env.create_database(None).unwrap();
    put(&env, &root, &[(b"plain", b"record")]);
    let registry = Database::load(&env, None).unwrap();
    assert_eq!(registry.len(), 1);
    assert!(registry.select(0).is_err());
}

#[test]
fn reloading_an_unchanged_table_changes_nothing() {
    let dir = tempfile::tempdir().unwrap();
    let env = open_store(&dir);
    let fruit = table(&env, "fruit");
    put(&env, &fruit, &[(b"a", b"1"), (b"b", b"2")]);
    let mut database = Database::load(&env, Some("fruit")).unwrap();
    let change = database.reload().unwrap();
    assert_eq!(change, Change { position: 2, removed: 0, added: 0 });
    assert!(change.is_empty());
    assert_eq!(entries(&database), pairs(&[("a", "1"), ("b", "2")]));
}

#[test]
fn reloading_sees_what_was_appended() {
    let dir = tempfile::tempdir().unwrap();
    let env = open_store(&dir);
    let fruit = table(&env, "fruit");
    put(&env, &fruit, &[(b"a", b"1"), (b"b", b"2")]);
    let mut database = Database::load(&env, Some("fruit")).unwrap();
    put(&env, &fruit, &[(b"c", b"3")]);
    assert_eq!(database.len(), 2);
    assert_eq!(database.reload(), Ok(Change { position: 2, removed: 0, added: 1 }));
    assert_eq!(entries(&database), pairs(&[("a", "1"), ("b", "2"), ("c", "3")]));
}

#[test]
fn reloading_sees_what_was_prepended() {
    let dir = tempfile::tempdir().unwrap();
    let env = open_store(&dir);
    let fruit = table(&env, "fruit");
    put(&env, &fruit, &[(b"b", b"2"), (b"c", b"3")]);
    let mut database = Database::load(&env, Some("fruit")).unwrap();
    put(&env, &fruit, &[(b"a", b"1")]);
    assert_eq!(database.reload(), Ok(Change { position: 0, removed: 0, added: 1 }));
    assert_eq!(entries(&database), pairs(&[("a", "1"), ("b", "2"), ("c", "3")]));
}

#[test]
fn reloading_sees_a_changed_value() {
    let dir = tempfile::tempdir().unwrap();
    let env = open_store(&dir);
    let fruit = table(&env, "fruit");
    put(&env, &fruit, &[(b"a", b"1"), (b"b", b"2"), (b"c", b"3")]);
    let mut database = Database::load(&env, Some("fruit")).unwrap();
    put(&env, &fruit, &[(b"b", b"two")]);
    assert_eq!(database.reload(), Ok(Change { position: 1, removed: 1, added: 1 }));
    assert_eq!(entries(&database), pairs(&[("a", "1"), ("b", "two"), ("c", "3")]));
}

#[test]
fn reloading_sees_what_was_deleted() {
    let dir = tempfile::tempdir().unwrap();
    let env = open_store(&dir);
    let fruit = table(&env, "fruit");
    put(&env, &fruit, &[(b"a", b"1"), (b"b", b"2"), (b"c", b"3")]);
    let mut database = Database::load(&env, Some("fruit")).unwrap();
    delete(&env, &fruit, b"b");
    assert_eq!(database.reload(), Ok(Change { position: 1, removed: 1, added: 0 }));
    assert_eq!(entries(&database), pairs(&[("a", "1"), ("c", "3")]));
}

#[test]
fn reloading_the_root_table_sees_a_new_table() {
    let dir = tempfile::tempdir().unwrap();
    let env = open_store(&dir);
    let _ = table(&env, "alpha");
    let mut registry = Database::load(&env, None).unwrap();
    assert_eq!(registry.len(), 1);
    let _ = table(&env, "beta");
    assert_eq!(registry.reload(), Ok(Change { position: 1, removed: 0, added: 1 }));
    assert_eq!(registry.get(1).key(), b"beta");
    assert!(registry.select(1).is_ok());
}

#[test]
fn a_failed_reload_leaves_the_snapshot_as_it_was() {
    let dir = tempfile::tempdir().unwrap();
    let env = open_store(&dir);
    let fruit = table(&env, "fruit");
    put(&env, &fruit, &[(b"a", b"1"), (b"b", b"2")]);
    let mut database = Database::load(&env, Some("fruit")).unwrap();
    put(&env, &fruit, &[(b"c", b"3")]);
    let outcome = database.apply_scan(Err(heed::Error::DatabaseClosing));
    assert!(matches!(outcome, Err(DatabaseError::Transaction(_))));
    assert_eq!(database.len(), 2);
    assert_eq!(database.get(0), DatabaseItem::new(b"a", b"1"));
    assert_eq!(database.get(1), DatabaseItem::new(b"b", b"2"));
    assert_eq!(database.name(), Some("fruit"));
}

#[test]
fn a_failed_reload_says_what_the_store_said() {
    let dir = tempfile::tempdir().unwrap();
    let env = open_store(&dir);
    let _ = table(&env, "fruit");
    let mut database = Database::load(&env, Some("fruit")).unwrap();
    let outcome = database.apply_scan(Err(heed::Error::InvalidDatabaseTyping));
    assert_eq!(
        outcome,
        Err(DatabaseError::Transaction(
            "database was previously opened with different types".to_string()
        ))
    );
}

#[test]
fn a_table_that_went_away_is_not_found_and_the_snapshot_stays() {
    let dir = tempfile::tempdir().unwrap();
    let env = open_store(&dir);
    let fruit = table(&env, "fruit");
    put(&env, &fruit, &[(b"a", b"1")]);
    let mut database = Database::load(&env, Some("fruit")).unwrap();
    assert_eq!(database.apply_scan(Ok(None)), Err(DatabaseError::NotFound));
    assert_eq!(entries(&database), pairs(&[("a", "1")]));
}

#[test]
fn a_scan_replaces_the_snapshot_and_tells_the_change() {
    let dir = tempfile::tempdir().unwrap();
    let env = open_store(&dir);
    let fruit = table(&env, "fruit");
    put(&env, &fruit, &[(b"a", b"1"), (b"b", b"2")]);
    let mut database = Database::load(&env, Some("fruit")).unwrap();
    let scan = vec![DatabaseItem::new(b"x", b"7"), DatabaseItem::new(b"y", b"8"), DatabaseItem::new(b"z", b"9")];
    assert_eq!(database.apply_scan(Ok(Some(scan))), Ok(Change { position: 0, removed: 2, added: 3 }));
    assert_eq!(entries(&database), pairs(&[("x", "7"), ("y", "8"), ("z", "9")]));
}

#[test]
fn a_scan_makes_a_database_or_a_failure() {
    let dir = tempfile::tempdir().unwrap();
    let env = open_store(&dir);
    let records = vec![DatabaseItem::new(b"a", b"1"), DatabaseItem::new(b"a", b"2")];
    let database = Database::from_scan(&env, Some("any"), Ok(Some(records))).unwrap();
    assert_eq!(database.name(), Some("any"));
    assert_eq!(entries(&database), pairs(&[("a", "2")]));
    assert!(matches!(Database::from_scan(&env, None, Ok(None)), Err(DatabaseError::NotFound)));
    assert!(matches!(
        Database::from_scan(&env, None, Err(heed::Error::DatabaseClosing)),
        Err(DatabaseError::Transaction(_))
    ));
    assert!(matches!(
        Database::from_scan(&env, Some("a\u{0}"), Ok(Some(Vec::new()))),
        Err(DatabaseError::NotFound)
    ));
}

#[test]
fn a_store_that_cannot_be_opened_is_an_open_failure() {
    let dir = tempfile::tempdir().unwrap();
    let missing = dir.path().join("missing");
    let failure = heed::EnvOpenOptions::new().open(&missing).err().unwrap();
    let error = DatabaseError::from_open_failure(&failure);
    assert!(matches!(error, DatabaseError::Open(_)));
    assert!(error.to_string().starts_with("Failed to open env: "));
}

#[test]
fn a_read_failure_is_a_transaction_failure() {
    let error = DatabaseError::from_read_failure(&heed::Error::DatabaseClosing);
    assert_eq!(
        error,
        DatabaseError::Transaction(
            "database is in a closing phase, you can't open it at the same time".to_string()
        )
    );
}

#[test]
fn an_environment_opens_with_the_limits_of_the_viewer() {
    assert_eq!(MAP_SIZE, 104_857_600);
    assert_eq!(MAX_DBS, 100);
    let dir = tempfile::tempdir().unwrap();
    let env = heed::EnvOpenOptions::new()
        .map_size(MAP_SIZE)
        .max_dbs(MAX_DBS)
        .open(dir.path())
        .unwrap();
    let _ = table(&env, "alpha");
    assert_eq!(Database::load(&env, None).unwrap().len(), 1);
}
