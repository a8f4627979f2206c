//! The row-validation policy, backend-name selection, and name validation.

use conduit_iface::db::names::{check_safe_ident, check_utf8};
use conduit_iface::db::rows::decode_rows;
use conduit_iface::db::sqlite::columns_are_key_value;
use conduit_iface::db::{Config, ConfigurationError, RowField, SkippedRow};
use conduit_iface::migrate::{backend_from_name, Backend};

fn raw_rows() -> Vec<(Option<Vec<u8>>, Option<Vec<u8>>)> {
    vec![
        (Some(b"k1".to_vec()), Some(b"v1".to_vec())),
        (Some(b"k2".to_vec()), Some(b"v2".to_vec())),
        (Some(b"broken".to_vec()), None),
        (Some(b"k3".to_vec()), Some(b"v3".to_vec())),
    ]
}

#[test]
fn tolerant_mode_keeps_the_well_formed_rows() {
    let r = decode_rows(&raw_rows(), &b"seg".to_vec(), Config { ignore_broken_rows: true });
    assert_eq!(
        r,
        Ok((
            vec![
                (b"k1".to_vec(), b"v1".to_vec()),
                (b"k2".to_vec(), b"v2".to_vec()),
                (b"k3".to_vec(), b"v3".to_vec()),
            ],
            vec![SkippedRow { segment: b"seg".to_vec(), index: 2, field: RowField::Value }],
        ))
    );
}

#[test]
fn strict_mode_reports_the_first_malformed_value() {
    let r = decode_rows(&raw_rows(), &b"seg".to_vec(), Config { ignore_broken_rows: false });
    let e = r.unwrap_err();
    assert_eq!(e.segment, b"seg".to_vec());
    assert_eq!(e.field, RowField::Value);
}

#[test]
fn strict_mode_reports_a_malformed_key() {
    let raw = vec![(None, Some(b"v".to_vec()))];
    let e = decode_rows(&raw, &b"t".to_vec(), Config { ignore_broken_rows: false }).unwrap_err();
    assert_eq!(e.segment, b"t".to_vec());
    assert_eq!(e.field, RowField::Key);
}

#[test]
fn a_key_failure_is_reported_before_the_value() {
    let raw = vec![(None, None)];
    let e = decode_rows(&raw, &b"t".to_vec(), Config { ignore_broken_rows: false }).unwrap_err();
    assert_eq!(e.field, RowField::Key);
}

#[test]
fn well_formed_rows_decode_in_both_modes() {
    let raw = vec![
        (Some(b"a".to_vec()), Some(b"1".to_vec())),
        (Some(b"b".to_vec()), Some(b"2".to_vec())),
    ];
    let want = vec![(b"a".to_vec(), b"1".to_vec()), (b"b".to_vec(), b"2".to_vec())];
    for ignore in [false, true] {
        let r = decode_rows(&raw, &b"s".to_vec(), Config { ignore_broken_rows: ignore });
        assert_eq!(r, Ok((want.clone(), vec![])));
    }
}

#[test]
fn no_rows_decode_to_no_rows() {
    let r = decode_rows(&Vec::new(), &b"s".to_vec(), Config { ignore_broken_rows: false });
    assert_eq!(r, Ok((Vec::new(), Vec::new())));
}

#[test]
fn known_backend_names_are_selected() {
    assert_eq!(backend_from_name(&"heed".to_string()), Ok(Backend::Heed));
    assert_eq!(backend_from_name(&"sqlite".to_string()), Ok(Backend::Sqlite));
    assert_eq!(backend_from_name(&"rocks".to_string()), Ok(Backend::Rocks));
    assert_eq!(backend_from_name(&"persy".to_string()), Ok(Backend::Persy));
}

#[test]
fn unknown_backend_name_is_a_configuration_error() {
    assert_eq!(
        backend_from_name(&"doesnotexist".to_string()),
        Err(ConfigurationError::UnknownBackend)
    );
    assert_eq!(
        backend_from_name(&"".to_string()),
        Err(ConfigurationError::UnknownBackend)
    );
    assert_eq!(
        backend_from_name(&"SQLITE".to_string()),
        Err(ConfigurationError::UnknownBackend)
    );
}

#[test]
fn utf8_validation_accepts_well_formed_sequences() {
    assert!(check_utf8(&b"".to_vec()));
    assert!(check_utf8(&b"plain ascii".to_vec()));
    assert!(check_utf8(&"caf\u{e9}".as_bytes().to_vec()));
    assert!(check_utf8(&"\u{2603}".as_bytes().to_vec()));
    assert!(check_utf8(&"\u{1f600}".as_bytes().to_vec()));
}

#[test]
fn utf8_validation_rejects_malformed_sequences() {
    assert!(!check_utf8(&vec![0xff]));
    assert!(!check_utf8(&vec![0xc0, 0x80])); // overlong
    assert!(!check_utf8(&vec![0xed, 0xa0, 0x80])); // surrogate
    assert!(!check_utf8(&vec![0xc3])); // truncated
    assert!(!check_utf8(&vec![0xe2, 0x82])); // truncated
    assert!(!check_utf8(&vec![0xf4, 0x90, 0x80, 0x80])); // past U+10FFFF
    assert!(!check_utf8(&vec![0x61, 0x80])); // stray continuation
}

#[test]
fn utf8_validation_matches_the_standard_library() {
    let samples: Vec<Vec<u8>> = vec![
        b"hello".to_vec(),
        vec![0xc3, 0xa9],
        vec![0xe0, 0x9f, 0x80],
        vec![0xe0, 0xa0, 0x80],
        vec![0xf0, 0x8f, 0x80, 0x80],
        vec![0xf0, 0x90, 0x80, 0x80],
        vec![0x80],
        vec![0xbf, 0x62],
        vec![0xc2, 0x41],
        vec![0xee, 0x80, 0x80],
    ];
    for s in samples {
        assert_eq!(check_utf8(&s), std::str::from_utf8(&s).is_ok(), "bytes: {s:?}");
    }
}

#[test]
fn safe_identifiers_are_recognized() {
    assert!(check_safe_ident(&b"table_1".to_vec()));
    assert!(check_safe_ident(&b"_private".to_vec()));
    assert!(check_safe_ident(&b"A".to_vec()));
    assert!(!check_safe_ident(&b"".to_vec()));
    assert!(!check_safe_ident(&b"1table".to_vec()));
    assert!(!check_safe_ident(&b"bad-name".to_vec()));
    assert!(!check_safe_ident(&b"drop table;".to_vec()));
    assert!(!check_safe_ident(&"caf\u{e9}".as_bytes().to_vec()));
}

#[test]
fn tolerant_mode_records_every_skipped_row() {
    let raw = vec![
        (None, Some(b"v".to_vec())),
        (Some(b"k".to_vec()), Some(b"v".to_vec())),
        (Some(b"k2".to_vec()), None),
        (None, None),
    ];
    let (rows, skipped) =
        decode_rows(&raw, &b"t".to_vec(), Config { ignore_broken_rows: true }).unwrap();
    assert_eq!(rows, vec![(b"k".to_vec(), b"v".to_vec())]);
    assert_eq!(
        skipped,
        vec![
            SkippedRow { segment: b"t".to_vec(), index: 0, field: RowField::Key },
            SkippedRow { segment: b"t".to_vec(), index: 2, field: RowField::Value },
            SkippedRow { segment: b"t".to_vec(), index: 3, field: RowField::Key },
        ]
    );
}

#[test]
fn column_sets_other_than_key_value_are_refused() {
    assert!(columns_are_key_value(&vec![b"key".to_vec(), b"value".to_vec()]));
    assert!(columns_are_key_value(&vec![b"value".to_vec(), b"key".to_vec()]));
    assert!(!columns_are_key_value(&vec![b"key".to_vec()]));
    assert!(!columns_are_key_value(&vec![b"key".to_vec(), b"value".to_vec(), b"more".to_vec()]));
    assert!(!columns_are_key_value(&vec![b"id".to_vec(), b"value".to_vec()]));
    assert!(!columns_are_key_value(&vec![b"key".to_vec(), b"key".to_vec()]));
    assert!(!columns_are_key_value(&Vec::new()));
}
