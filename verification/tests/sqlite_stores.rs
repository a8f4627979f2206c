//! The SQLite adapter against real in-memory databases.

use conduit_iface::db::mem::RowMap;
use conduit_iface::db::sled::{new_db, SledDB};
use conduit_iface::db::sqlite::SqliteDB;
use conduit_iface::db::{
    copy_database, Config, Database, MigrationError, RowField, Segment, SegmentIter, SkippedRow,
};
use conduit_iface::sled_to_sqlite;
use rusqlite::Connection;

fn strict() -> Config {
    Config { ignore_broken_rows: false }
}

fn tolerant() -> Config {
    Config { ignore_broken_rows: true }
}

fn kv_table(conn: &Connection, name: &str, rows: &[(&[u8], &[u8])]) {
    let sql = format!(
        "CREATE TABLE {name} ( \"key\" BLOB PRIMARY KEY, \"value\" BLOB NOT NULL )"
    );
    conn.execute(sql.as_str(), ()).unwrap();
    for (k, v) in rows {
        let sql = format!("INSERT INTO {name} (key, value) VALUES (?, ?)");
        conn.execute(sql.as_str(), (k.to_vec(), v.to_vec())).unwrap();
    }
}

fn read_table(conn: &Connection, name: &str) -> Vec<(Vec<u8>, Vec<u8>)> {
    let sql = format!("SELECT key, value FROM {name} ORDER BY key");
    let mut st = conn.prepare(sql.as_str()).unwrap();
    let rows = st
        .query_map((), |row| {
            Ok((row.get::<_, Vec<u8>>(0).unwrap(), row.get::<_, Vec<u8>>(1).unwrap()))
        })
        .unwrap();
    rows.map(|r| r.unwrap()).collect()
}

#[test]
fn sqlite_to_sqlite_copies_rows() {
    let src_conn = Connection::open_in_memory().unwrap();
    kv_table(&src_conn, "alpha", &[(b"k1", b"v1"), (b"k2", b"v2"), (b"k3", b"v3")]);
    kv_table(&src_conn, "beta", &[]);
    let mut src = SqliteDB::new(src_conn, strict());
    let dst_conn = Connection::open_in_memory().unwrap();
    let mut dst = SqliteDB::new(dst_conn, strict());
    let report = copy_database(&mut src, &mut dst, 2).unwrap();
    assert!(report.skipped.is_empty());
    let mut names = dst.names().unwrap();
    names.sort();
    assert_eq!(names, vec![b"alpha".to_vec(), b"beta".to_vec()]);
}

#[test]
fn sqlite_merge_overwrites_and_keeps() {
    let src_conn = Connection::open_in_memory().unwrap();
    kv_table(&src_conn, "seg", &[(b"k", b"v2")]);
    let dst_conn = Connection::open_in_memory().unwrap();
    kv_table(&dst_conn, "seg", &[(b"k", b"v1"), (b"only", b"kept")]);
    let mut src = SqliteDB::new(src_conn, strict());
    let mut dst = SqliteDB::new(dst_conn, strict());
    copy_database(&mut src, &mut dst, 100).unwrap();
    let got = read_table(&dst.into_connection(), "seg");
    assert_eq!(
        got,
        vec![
            (b"k".to_vec(), b"v2".to_vec()),
            (b"only".to_vec(), b"kept".to_vec()),
        ]
    );
}

#[test]
fn sled_to_sqlite_is_chunk_size_invariant() {
    let mut dumps: Vec<Vec<(Vec<u8>, Vec<u8>)>> = Vec::new();
    for chunk_size in [1usize, 7, 1000] {
        let mut src = SledDB::new(new_db());
        {
            let mut seg = src.segment(b"data".to_vec()).unwrap();
            let batch: Vec<(Vec<u8>, Vec<u8>)> =
                (0u8..40).map(|i| (vec![i], vec![i, i, i])).collect();
            seg.batch_insert(batch).unwrap();
            src.absorb(seg);
        }
        let mut dst = SqliteDB::new(Connection::open_in_memory().unwrap(), strict());
        copy_database(&mut src, &mut dst, chunk_size).unwrap();
        dumps.push(read_table(&dst.into_connection(), "data"));
    }
    assert_eq!(dumps[0].len(), 40);
    assert!(dumps.windows(2).all(|w| w[0] == w[1]));
}

#[test]
fn tolerant_mode_migrates_the_well_formed_rows() {
    let src_conn = Connection::open_in_memory().unwrap();
    // A nullable value column still has exactly the columns {key, value}.
    src_conn
        .execute("CREATE TABLE seg ( \"key\" BLOB PRIMARY KEY, \"value\" BLOB )", ())
        .unwrap();
    for (k, v) in [(b"a", b"1"), (b"b", b"2"), (b"c", b"3")] {
        src_conn
            .execute("INSERT INTO seg (key, value) VALUES (?, ?)", (k.to_vec(), v.to_vec()))
            .unwrap();
    }
    src_conn
        .execute("INSERT INTO seg (key, value) VALUES (?, NULL)", (b"broken".to_vec(),))
        .unwrap();
    let mut src = SqliteDB::new(src_conn, tolerant());
    let mut dst = SqliteDB::new(Connection::open_in_memory().unwrap(), tolerant());
    let report = copy_database(&mut src, &mut dst, 10).unwrap();
    // One skip record for the one malformed row, naming the segment and field.
    assert_eq!(
        report.skipped,
        vec![SkippedRow { segment: b"seg".to_vec(), index: 3, field: RowField::Value }]
    );
    let got = read_table(&dst.into_connection(), "seg");
    assert_eq!(
        got,
        vec![
            (b"a".to_vec(), b"1".to_vec()),
            (b"b".to_vec(), b"2".to_vec()),
            (b"c".to_vec(), b"3".to_vec()),
        ]
    );
}

#[test]
fn strict_mode_fails_on_a_malformed_row() {
    let src_conn = Connection::open_in_memory().unwrap();
    src_conn
        .execute("CREATE TABLE seg ( \"key\" BLOB PRIMARY KEY, \"value\" BLOB )", ())
        .unwrap();
    src_conn
        .execute("INSERT INTO seg (key, value) VALUES (?, NULL)", (b"broken".to_vec(),))
        .unwrap();
    let mut src = SqliteDB::new(src_conn, strict());
    let mut dst = SqliteDB::new(Connection::open_in_memory().unwrap(), strict());
    let r = copy_database(&mut src, &mut dst, 10);
    match r {
        Err(MigrationError::MalformedRow(e)) => {
            assert_eq!(e.segment, b"seg".to_vec());
            assert_eq!(e.field, RowField::Value);
        },
        other => panic!("expected a malformed-row error, got {other:?}"),
    }
}

#[test]
fn tables_with_other_columns_are_not_segments() {
    let conn = Connection::open_in_memory().unwrap();
    kv_table(&conn, "good", &[(b"k", b"v")]);
    conn.execute("CREATE TABLE extra ( \"key\" BLOB, \"value\" BLOB, \"more\" BLOB )", ())
        .unwrap();
    conn.execute("CREATE TABLE renamed ( \"id\" BLOB, \"value\" BLOB )", ()).unwrap();
    let db = SqliteDB::new(conn, strict());
    assert_eq!(db.names().unwrap(), vec![b"good".to_vec()]);
}

#[test]
fn unsafe_table_name_fails_to_open() {
    let src_conn = Connection::open_in_memory().unwrap();
    src_conn
        .execute("CREATE TABLE \"bad-name\" ( \"key\" BLOB PRIMARY KEY, \"value\" BLOB NOT NULL )", ())
        .unwrap();
    let mut src = SqliteDB::new(src_conn, strict());
    let mut dst = SqliteDB::new(Connection::open_in_memory().unwrap(), strict());
    let r = copy_database(&mut src, &mut dst, 10);
    match r {
        Err(MigrationError::Store(e)) => assert_eq!(e.segment, b"bad-name".to_vec()),
        other => panic!("expected a store error, got {other:?}"),
    }
}

#[test]
fn whole_tree_store_writes_into_sqlite_tables() {
    let mut store = sled_to_sqlite::sled::new_db();
    let mut rows = RowMap::new();
    rows.insert(b"k1".to_vec(), b"v1".to_vec());
    rows.insert(b"k2".to_vec(), b"v2".to_vec());
    store.set(b"t1".to_vec(), rows);
    store.set(b"t2".to_vec(), RowMap::new());
    let src = sled_to_sqlite::sled::SledDB::new(store);

    let mut dst = sled_to_sqlite::sqlite::SqliteDB::new(Connection::open_in_memory().unwrap());
    for (name, batch) in src.iter() {
        let name = String::from_utf8(name).unwrap();
        let mut table = dst.table(name).unwrap();
        table.batch_insert(&mut dst, &batch).unwrap();
    }
    let conn = dst.into_connection();
    let mut got = read_table(&conn, "t1");
    got.sort();
    assert_eq!(
        got,
        vec![(b"k1".to_vec(), b"v1".to_vec()), (b"k2".to_vec(), b"v2".to_vec())]
    );
    assert_eq!(read_table(&conn, "t2"), vec![]);
}

#[test]
fn unsafe_table_name_is_rejected_by_the_writer() {
    let mut dst = sled_to_sqlite::sqlite::SqliteDB::new(Connection::open_in_memory().unwrap());
    assert!(dst.table("bad-name".to_string()).is_err());
    assert!(dst.table("1digit".to_string()).is_err());
    assert!(dst.table("fine_name".to_string()).is_ok());
}

#[test]
fn sqlite_to_sled_reads_through_validation() {
    let src_conn = Connection::open_in_memory().unwrap();
    kv_table(&src_conn, "mixed", &[(b"a", b"1"), (b"b", b"2")]);
    let mut src = SqliteDB::new(src_conn, strict());
    let mut dst = SledDB::new(new_db());
    copy_database(&mut src, &mut dst, 1).unwrap();
    let mut seg = dst.segment(b"mixed".to_vec()).unwrap();
    let (mut rows, skipped) = seg.get_iter().iter().unwrap();
    assert!(skipped.is_empty());
    rows.sort();
    dst.absorb(seg);
    assert_eq!(
        rows,
        vec![(b"a".to_vec(), b"1".to_vec()), (b"b".to_vec(), b"2".to_vec())]
    );
}

#[test]
fn failed_transaction_is_a_write_error() {
    // The destination connection is switched to query-only after its table
    // exists: the segment still opens, but no batch can commit.
    let dst_conn = Connection::open_in_memory().unwrap();
    kv_table(&dst_conn, "seg", &[(b"k", b"v1")]);
    dst_conn.pragma_update(None, "query_only", true).unwrap();
    let mut src = filled_sled_one(b"seg", &[(b"k", b"v2")]);
    let mut dst = SqliteDB::new(dst_conn, strict());
    let r = copy_database(&mut src, &mut dst, 10);
    match r {
        Err(MigrationError::Write(e)) => assert_eq!(e.segment, b"seg".to_vec()),
        other => panic!("expected a write error, got {other:?}"),
    }
    // The destination row is untouched.
    let conn = dst.into_connection();
    assert_eq!(read_table(&conn, "seg"), vec![(b"k".to_vec(), b"v1".to_vec())]);
}

fn filled_sled_one(name: &[u8], rows: &[(&[u8], &[u8])]) -> SledDB {
    let mut db = SledDB::new(new_db());
    let mut seg = db.segment(name.to_vec()).unwrap();
    let batch: Vec<(Vec<u8>, Vec<u8>)> =
        rows.iter().map(|(k, v)| (k.to_vec(), v.to_vec())).collect();
    seg.batch_insert(batch).unwrap();
    db.absorb(seg);
    db
}

#[test]
fn sqlite_migration_is_idempotent() {
    let src_conn = Connection::open_in_memory().unwrap();
    kv_table(&src_conn, "seg", &[(b"k1", b"v1"), (b"k2", b"v2")]);
    let dst_conn = Connection::open_in_memory().unwrap();
    let mut src = SqliteDB::new(src_conn, strict());
    let mut dst = SqliteDB::new(dst_conn, strict());
    copy_database(&mut src, &mut dst, 1).unwrap();
    copy_database(&mut src, &mut dst, 7).unwrap();
    let got = read_table(&dst.into_connection(), "seg");
    assert_eq!(
        got,
        vec![(b"k1".to_vec(), b"v1".to_vec()), (b"k2".to_vec(), b"v2".to_vec())]
    );
}
