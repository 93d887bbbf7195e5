use dispnet_storage::filestorage::{DispnetFileStorageProvider, FileMeta};
use dispnet_storage::reclaim::{is_expired, DAY_IN_SECONDS};

fn provider() -> DispnetFileStorageProvider {
    DispnetFileStorageProvider::new("test_fstore".to_owned(), "test_fdelete".to_owned())
}

#[test]
fn file_path_joins_folder_and_key() {
    let file_storage = provider();
    assert_eq!(file_storage.internal_file_path("1234"), "test_fstore/1234");
}

#[test]
fn delete_path_joins_quarantine_and_key() {
    let file_storage = provider();
    assert_eq!(
        file_storage.internal_file_delete_path("1234"),
        "test_fdelete/1234"
    );
}

#[test]
fn expiry_is_strictly_older_than_threshold() {
    assert!(!is_expired(2_000, 1_000, 1_000));
    assert!(is_expired(2_001, 1_000, 1_000));
    // a stamp in the future counts as age zero
    assert!(!is_expired(500, 1_000, 1_000));
    // a zero threshold expires everything
    assert!(is_expired(500, 1_000, 0));
}

#[test]
fn free_plan_keeps_fresh_files() {
    let file_storage = provider();
    let now = DAY_IN_SECONDS * 100;
    let listing = vec![
        FileMeta {
            key: "old".to_owned(),
            modified: now - DAY_IN_SECONDS * 16,
        },
        FileMeta {
            key: "fresh".to_owned(),
            modified: now - DAY_IN_SECONDS * 2,
        },
        FileMeta {
            key: "edge".to_owned(),
            modified: now - DAY_IN_SECONDS * 15,
        },
    ];
    let doomed = file_storage.free_plan(&listing, now);
    assert_eq!(doomed, vec!["old".to_owned()]);
}

#[test]
fn force_free_plan_one_day() {
    let file_storage = provider();
    let now = DAY_IN_SECONDS * 100;
    let listing = vec![
        FileMeta {
            key: "old".to_owned(),
            modified: now - DAY_IN_SECONDS * 2,
        },
        FileMeta {
            key: "edge".to_owned(),
            modified: now - DAY_IN_SECONDS,
        },
    ];
    let doomed = file_storage.force_free_plan(&listing, now, false);
    assert_eq!(doomed, vec!["old".to_owned()]);
}

#[test]
fn force_free_plan_all_takes_everything() {
    let file_storage = provider();
    let now = DAY_IN_SECONDS * 100;
    let listing = vec![
        FileMeta {
            key: "a".to_owned(),
            modified: now,
        },
        FileMeta {
            key: "b".to_owned(),
            modified: now - DAY_IN_SECONDS * 30,
        },
    ];
    let doomed = file_storage.force_free_plan(&listing, now, true);
    assert_eq!(doomed, vec!["a".to_owned(), "b".to_owned()]);
}

#[test]
fn sweep_plan_of_empty_listing_is_empty() {
    let file_storage = provider();
    let doomed = file_storage.sweep_plan(&Vec::new(), DAY_IN_SECONDS, 0);
    assert!(doomed.is_empty());
}
