//! The migration engine over the in-process backends.

use conduit_iface::db::heed::HeedDB;
use conduit_iface::db::persy;
use conduit_iface::db::rocksdb::{new_conn, options, CompactionStyle, Compression, RecoveryMode, RocksDB};
use conduit_iface::db::{MalformedRowError, RowField};
use conduit_iface::db::sled::{new_db, SledDB};
use conduit_iface::db::{
    copy_database, ConfigurationError, Database, MigrationError, Segment, SegmentIter,
};

fn filled_sled(segments: &[(&[u8], &[(&[u8], &[u8])])]) -> SledDB {
    let mut db = SledDB::new(new_db());
    for (name, rows) in segments {
        let mut seg = db.segment(name.to_vec()).unwrap();
        let batch: Vec<(Vec<u8>, Vec<u8>)> =
            rows.iter().map(|(k, v)| (k.to_vec(), v.to_vec())).collect();
        seg.batch_insert(batch).unwrap();
        db.absorb(seg);
    }
    db
}

fn dump<D: Database>(db: &mut D) -> Vec<(Vec<u8>, Vec<(Vec<u8>, Vec<u8>)>)> {
    let mut names = db.names().unwrap();
    names.sort();
    let mut out = Vec::new();
    for name in names {
        let mut seg = db.segment(name.clone()).unwrap();
        let mut it = seg.get_iter();
        let (mut rows, skipped) = it.iter().unwrap();
        assert!(skipped.is_empty());
        rows.sort();
        db.absorb(seg);
        out.push((name, rows));
    }
    out
}

#[test]
fn copies_every_row_of_every_segment() {
    let mut src = filled_sled(&[
        (b"alpha", &[(b"k1", b"v1"), (b"k2", b"v2"), (b"k3", b"v3")]),
        (b"beta", &[(b"x", b"y")]),
    ]);
    let mut dst = SledDB::new(new_db());
    let report = copy_database(&mut src, &mut dst, 2).unwrap();
    assert!(report.skipped.is_empty());
    let got = dump(&mut dst);
    assert_eq!(
        got,
        vec![
            (
                b"alpha".to_vec(),
                vec![
                    (b"k1".to_vec(), b"v1".to_vec()),
                    (b"k2".to_vec(), b"v2".to_vec()),
                    (b"k3".to_vec(), b"v3".to_vec()),
                ]
            ),
            (b"beta".to_vec(), vec![(b"x".to_vec(), b"y".to_vec())]),
        ]
    );
    // The source is untouched.
    assert_eq!(dump(&mut src), got);
}

#[test]
fn chunk_size_does_not_change_the_result() {
    let rows: Vec<(Vec<u8>, Vec<u8>)> =
        (0u8..50).map(|i| (vec![i], vec![i, i])).collect();
    let row_refs: Vec<(&[u8], &[u8])> =
        rows.iter().map(|(k, v)| (k.as_slice(), v.as_slice())).collect();
    let mut dumps = Vec::new();
    for chunk_size in [1usize, 7, 1000, 50] {
        let mut src = filled_sled(&[(b"seg", row_refs.as_slice())]);
        let mut dst = SledDB::new(new_db());
        copy_database(&mut src, &mut dst, chunk_size).unwrap();
        dumps.push(dump(&mut dst));
    }
    assert!(dumps.windows(2).all(|w| w[0] == w[1]));
}

#[test]
fn merge_overwrites_matching_keys_and_keeps_others() {
    let mut src = filled_sled(&[(b"seg", &[(b"k", b"v2")])]);
    let mut dst = filled_sled(&[(b"seg", &[(b"k", b"v1"), (b"only_dst", b"kept")])]);
    copy_database(&mut src, &mut dst, 10).unwrap();
    assert_eq!(
        dump(&mut dst),
        vec![(
            b"seg".to_vec(),
            vec![
                (b"k".to_vec(), b"v2".to_vec()),
                (b"only_dst".to_vec(), b"kept".to_vec()),
            ]
        )]
    );
}

#[test]
fn empty_segment_is_created_in_destination() {
    let mut src = filled_sled(&[(b"empty", &[])]);
    let mut dst = SledDB::new(new_db());
    copy_database(&mut src, &mut dst, 5).unwrap();
    assert_eq!(dump(&mut dst), vec![(b"empty".to_vec(), vec![])]);
}

#[test]
fn second_run_changes_nothing() {
    let mut src = filled_sled(&[
        (b"a", &[(b"k1", b"v1"), (b"k2", b"v2")]),
        (b"b", &[]),
    ]);
    let mut dst = filled_sled(&[(b"a", &[(b"k1", b"old"), (b"z", b"zz")])]);
    copy_database(&mut src, &mut dst, 3).unwrap();
    let once = dump(&mut dst);
    copy_database(&mut src, &mut dst, 3).unwrap();
    assert_eq!(dump(&mut dst), once);
}

#[test]
fn zero_chunk_size_is_rejected_before_any_work() {
    let mut src = filled_sled(&[(b"a", &[(b"k", b"v")])]);
    let mut dst = SledDB::new(new_db());
    let r = copy_database(&mut src, &mut dst, 0);
    assert_eq!(
        r,
        Err(MigrationError::Configuration(ConfigurationError::InvalidChunkSize))
    );
    assert_eq!(dump(&mut dst), vec![]);
}

#[test]
fn non_utf8_name_fails_migration_into_heed() {
    let mut src = filled_sled(&[(&[0xff, 0xfe][..], &[(b"k", b"v")])]);
    let mut dst = HeedDB::new(conduit_iface::db::heed::new_db().unwrap());
    let r = copy_database(&mut src, &mut dst, 4);
    assert!(matches!(r, Err(MigrationError::Store(_))));
    // The destination enumerates nothing: the segment was never opened.
    assert_eq!(dst.names().unwrap(), Vec::<Vec<u8>>::new());
}

#[test]
fn utf8_names_migrate_into_heed() {
    let name: &[u8] = "caf\u{e9}".as_bytes();
    let mut src = filled_sled(&[(name, &[(b"k", b"v")])]);
    let mut dst = HeedDB::new(conduit_iface::db::heed::new_db().unwrap());
    copy_database(&mut src, &mut dst, 4).unwrap();
    assert_eq!(dump(&mut dst), vec![(name.to_vec(), vec![(b"k".to_vec(), b"v".to_vec())])]);
}

#[test]
fn reserved_family_cannot_be_migrated_into_rocks() {
    let mut src = filled_sled(&[(b"default", &[(b"k", b"v")])]);
    let mut dst: RocksDB = new_conn().unwrap();
    let r = copy_database(&mut src, &mut dst, 4);
    assert!(matches!(r, Err(MigrationError::Store(_))));
}

#[test]
fn rocks_hides_the_reserved_family() {
    let mut db: RocksDB = new_conn().unwrap();
    assert!(db.segment(b"default".to_vec()).is_none());
    let seg = db.segment(b"normal".to_vec()).unwrap();
    db.absorb(seg);
    assert_eq!(db.names().unwrap(), vec![b"normal".to_vec()]);
}

#[test]
fn earlier_segments_remain_after_a_failed_open() {
    // Two segments; the non-UTF-8 one cannot open in heed, the other can.
    // Whichever order names() yields, the destination afterwards holds a
    // subset of the source's openable segments and the source is untouched.
    let mut src = filled_sled(&[
        (b"good", &[(b"k", b"v")]),
        (&[0x80][..], &[(b"bad", b"row")]),
    ]);
    let mut dst = HeedDB::new(conduit_iface::db::heed::new_db().unwrap());
    let r = copy_database(&mut src, &mut dst, 4);
    assert!(matches!(r, Err(MigrationError::Store(_))));
    assert_eq!(dump(&mut src).len(), 2);
    for (name, rows) in dump(&mut dst) {
        assert_eq!(name, b"good".to_vec());
        assert_eq!(rows, vec![(b"k".to_vec(), b"v".to_vec())]);
    }
}

#[test]
fn duplicate_keys_in_one_batch_take_the_last_value() {
    let mut db = SledDB::new(new_db());
    let mut seg = db.segment(b"seg".to_vec()).unwrap();
    seg.batch_insert(vec![
        (b"k".to_vec(), b"first".to_vec()),
        (b"k".to_vec(), b"second".to_vec()),
    ])
    .unwrap();
    db.absorb(seg);
    assert_eq!(
        dump(&mut db),
        vec![(b"seg".to_vec(), vec![(b"k".to_vec(), b"second".to_vec())])]
    );
}

#[test]
fn persy_roundtrip_requires_utf8_names() {
    let mut src = filled_sled(&[(b"idx", &[(b"k", b"v")])]);
    let mut dst = persy::new_db().unwrap();
    copy_database(&mut src, &mut dst, 3).unwrap();
    assert_eq!(dump(&mut dst), vec![(b"idx".to_vec(), vec![(b"k".to_vec(), b"v".to_vec())])]);

    let mut bad = filled_sled(&[(&[0xc0, 0x80][..], &[(b"k", b"v")])]);
    let mut dst2 = persy::new_db().unwrap();
    assert!(matches!(
        copy_database(&mut bad, &mut dst2, 3),
        Err(MigrationError::Store(_))
    ));
}

#[test]
fn rocks_options_carry_the_fixed_configuration() {
    let o = options();
    assert!(o.create_if_missing);
    assert_eq!(o.max_open_files, 512);
    assert_eq!(o.compression, Compression::Lz4);
    assert_eq!(o.bottommost_compression, Compression::Zstd);
    assert_eq!(o.compaction_style, CompactionStyle::Level);
    assert!(o.level_compaction_dynamic_level_bytes);
    assert_eq!(o.bytes_per_sync, 1048576);
    assert_eq!(o.keep_log_file_num, 100);
    assert_eq!(o.wal_recovery_mode, RecoveryMode::TolerateCorruptedTailRecords);
    assert_eq!(o.block_size, 4096);
}

#[test]
fn heed_refuses_a_non_utf8_segment_name() {
    let mut db = HeedDB::new(conduit_iface::db::heed::new_db().unwrap());
    assert!(db.segment(vec![0xff]).is_none());
    let seg = db.segment("caf\u{e9}".as_bytes().to_vec()).unwrap();
    db.absorb(seg);
    assert_eq!(db.names().unwrap(), vec!["caf\u{e9}".as_bytes().to_vec()]);
}

#[test]
fn malformed_row_messages_name_the_field_and_the_tolerant_mode() {
    let key_err = MalformedRowError { segment: b"s".to_vec(), field: RowField::Key };
    let value_err = MalformedRowError { segment: b"s".to_vec(), field: RowField::Value };
    assert!(key_err.message().contains("malformed key"));
    assert!(value_err.message().contains("malformed value"));
    assert!(key_err.message().contains("--ignore-broken-rows"));
}

#[test]
fn migration_into_rocks_succeeds_for_ordinary_names() {
    let mut src = filled_sled(&[(b"events", &[(b"k1", b"v1"), (b"k2", b"v2")])]);
    let mut dst: RocksDB = new_conn().unwrap();
    copy_database(&mut src, &mut dst, 1).unwrap();
    assert_eq!(
        dump(&mut dst),
        vec![(
            b"events".to_vec(),
            vec![(b"k1".to_vec(), b"v1".to_vec()), (b"k2".to_vec(), b"v2".to_vec())]
        )]
    );
}
