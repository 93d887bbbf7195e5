use dispnet_storage::memstorage::MemoryStorageProvider;
use dispnet_storage::reclaim::DAY_IN_SECONDS;
use dispnet_storage::storage_manager::StorageManager;
use dispnet_storage::StorageProvider;

const FILE_KEY: &str = "1234";

fn manager_with_layer1() -> StorageManager<MemoryStorageProvider> {
    let mut manager: StorageManager<MemoryStorageProvider> = StorageManager::new();
    manager.add_storage_provider("layer1".to_owned(), MemoryStorageProvider::new());
    manager
}

#[test]
fn add_provider() {
    let manager = manager_with_layer1();
    assert_eq!(manager.get_storage_provider_layers().len(), 1);
    assert_eq!(manager.get_storage_provider_layers()[0], "layer1");
}

#[test]
fn remove_provider() {
    let mut manager = manager_with_layer1();
    manager.remove_storage_provider("layer1");
    assert_eq!(manager.get_storage_provider_layers().len(), 0);
}

#[test]
fn storage_manager_save() {
    let mut manager = manager_with_layer1();
    let save_result = manager
        .save("layer1", FILE_KEY, "test".to_owned().into_bytes())
        .unwrap();
    assert_eq!(save_result.key, FILE_KEY);
    assert_eq!(save_result.size, 4);
}

#[test]
fn storage_manager_get() {
    let mut manager = manager_with_layer1();
    let _save_result = manager.save("layer1", FILE_KEY, "test".to_owned().into_bytes());
    let result = manager.get("layer1", FILE_KEY).unwrap();
    assert_eq!(result.size, 4);
    assert_eq!(result.key, FILE_KEY);
    assert_eq!(result.data, "test".to_owned().into_bytes());
}

#[test]
fn find() {
    let mut manager = manager_with_layer1();
    let _save_result = manager.save("layer1", FILE_KEY, "test".to_owned().into_bytes());
    let result = manager.find(FILE_KEY).unwrap();
    assert_eq!(result.size, 4);
    assert_eq!(result.key, FILE_KEY);
    assert_eq!(result.data, "test".to_owned().into_bytes());
}

#[test]
fn get_unknown_layer_fails() {
    let manager = manager_with_layer1();
    let err = manager.get("layer2", FILE_KEY).unwrap_err();
    assert_eq!(err, "Storage provider layer not found for `get` action");
}

#[test]
fn save_unknown_layer_fails() {
    let mut manager = manager_with_layer1();
    let err = manager
        .save("layer2", FILE_KEY, "test".to_owned().into_bytes())
        .unwrap_err();
    assert_eq!(err, "Storage provider layer not found for `save` action");
}

#[test]
fn find_missing_key_fails() {
    let manager = manager_with_layer1();
    let err = manager.find(FILE_KEY).unwrap_err();
    assert_eq!(
        err,
        "Requested key: `1234` not found in any storage provider."
    );
}

#[test]
fn storage_manager_delete() {
    let mut manager = manager_with_layer1();
    let _save_result = manager.save("layer1", FILE_KEY, "test".to_owned().into_bytes());
    manager.delete("layer1", FILE_KEY);
    assert!(manager.get("layer1", FILE_KEY).is_err());
}

#[test]
fn delete_unknown_layer_is_noop() {
    let mut manager = manager_with_layer1();
    let _save_result = manager.save("layer1", FILE_KEY, "test".to_owned().into_bytes());
    manager.delete("layer2", FILE_KEY);
    assert!(manager.get("layer1", FILE_KEY).is_ok());
}

#[test]
fn delete_all_reaches_every_layer() {
    let mut manager: StorageManager<MemoryStorageProvider> = StorageManager::new();
    manager.add_storage_provider("layer1".to_owned(), MemoryStorageProvider::new());
    manager.add_storage_provider("layer2".to_owned(), MemoryStorageProvider::new());
    let _r1 = manager.save("layer1", FILE_KEY, "one".to_owned().into_bytes());
    let _r2 = manager.save("layer2", FILE_KEY, "two".to_owned().into_bytes());
    manager.delete_all(FILE_KEY);
    assert!(manager.get("layer1", FILE_KEY).is_err());
    assert!(manager.get("layer2", FILE_KEY).is_err());
}

#[test]
fn free() {
    let mut manager = manager_with_layer1();
    let _save_result = manager.save("layer1", FILE_KEY, "test".to_owned().into_bytes());
    manager.delete("layer1", FILE_KEY);
    // a fresh quarantined entry survives the regular sweep
    manager.free();
    assert!(manager.find(FILE_KEY).is_err());
}

#[test]
fn free_force() {
    let mut manager = manager_with_layer1();
    let _save_result = manager.save("layer1", FILE_KEY, "test".to_owned().into_bytes());
    manager.delete("layer1", FILE_KEY);
    manager.force_free(true);
    assert!(manager.get("layer1", FILE_KEY).is_err());
}

#[test]
fn add_provider_overwrites_same_layer() {
    let mut manager = manager_with_layer1();
    let _save_result = manager.save("layer1", FILE_KEY, "test".to_owned().into_bytes());
    manager.add_storage_provider("layer1".to_owned(), MemoryStorageProvider::new());
    assert_eq!(manager.get_storage_provider_layers().len(), 1);
    assert!(manager.get("layer1", FILE_KEY).is_err());
}

#[test]
fn memstorage_save_then_get_roundtrip() {
    let mut provider = MemoryStorageProvider::new();
    let saved = provider.save(FILE_KEY, "test".to_owned().into_bytes()).unwrap();
    assert_eq!(saved.key, FILE_KEY);
    assert_eq!(saved.size, 4);
    let got = provider.get(FILE_KEY).unwrap();
    assert_eq!(got.key, FILE_KEY);
    assert_eq!(got.size, 4);
    assert_eq!(got.data, "test".to_owned().into_bytes());
}

#[test]
fn memstorage_save_overwrites() {
    let mut provider = MemoryStorageProvider::new();
    let _first = provider.save(FILE_KEY, "first".to_owned().into_bytes());
    let _second = provider.save(FILE_KEY, "second".to_owned().into_bytes());
    let got = provider.get(FILE_KEY).unwrap();
    assert_eq!(got.data, "second".to_owned().into_bytes());
    assert_eq!(got.size, 6);
}

#[test]
fn memstorage_get_missing_fails() {
    let provider = MemoryStorageProvider::new();
    let err = provider.get(FILE_KEY).unwrap_err();
    assert_eq!(err, "Not found");
}

#[test]
fn memstorage_delete_moves_to_quarantine() {
    let mut provider = MemoryStorageProvider::new();
    let _saved = provider.save(FILE_KEY, "test".to_owned().into_bytes());
    provider.delete(FILE_KEY);
    assert!(provider.get(FILE_KEY).is_err());
    assert!(provider.is_quarantined(FILE_KEY));
}

#[test]
fn memstorage_delete_absent_key_is_noop() {
    let mut provider = MemoryStorageProvider::new();
    provider.delete(FILE_KEY);
    assert!(!provider.is_quarantined(FILE_KEY));
}

#[test]
fn free_removes_older_than_fifteen_days() {
    let mut provider = MemoryStorageProvider::new();
    provider.set_clock(1_000);
    let _saved = provider.save(FILE_KEY, "test".to_owned().into_bytes());
    provider.delete(FILE_KEY);
    provider.set_clock(1_000 + DAY_IN_SECONDS * 15 + 1);
    provider.free();
    assert!(!provider.is_quarantined(FILE_KEY));
}

#[test]
fn free_retains_fifteen_days_old() {
    let mut provider = MemoryStorageProvider::new();
    provider.set_clock(1_000);
    let _saved = provider.save(FILE_KEY, "test".to_owned().into_bytes());
    provider.delete(FILE_KEY);
    // exactly fifteen days old: retained
    provider.set_clock(1_000 + DAY_IN_SECONDS * 15);
    provider.free();
    assert!(provider.is_quarantined(FILE_KEY));
}

#[test]
fn force_free_uses_one_day_threshold() {
    let mut provider = MemoryStorageProvider::new();
    provider.set_clock(1_000);
    let _saved = provider.save(FILE_KEY, "test".to_owned().into_bytes());
    provider.delete(FILE_KEY);
    // exactly one day old: retained by the accelerated sweep
    provider.set_clock(1_000 + DAY_IN_SECONDS);
    provider.force_free(false);
    assert!(provider.is_quarantined(FILE_KEY));
    // older than one day: removed
    provider.set_clock(1_000 + DAY_IN_SECONDS + 1);
    provider.force_free(false);
    assert!(!provider.is_quarantined(FILE_KEY));
}

#[test]
fn force_free_all_ignores_age() {
    let mut provider = MemoryStorageProvider::new();
    provider.set_clock(1_000);
    let _saved = provider.save(FILE_KEY, "test".to_owned().into_bytes());
    provider.delete(FILE_KEY);
    // age zero, still removed unconditionally
    provider.force_free(true);
    assert!(!provider.is_quarantined(FILE_KEY));
}

#[test]
fn quarantined_entry_keeps_its_stamp() {
    let mut provider = MemoryStorageProvider::new();
    provider.set_clock(1_000);
    let _saved = provider.save(FILE_KEY, "test".to_owned().into_bytes());
    // deleting later does not refresh the modification stamp
    provider.set_clock(1_000 + DAY_IN_SECONDS * 20);
    provider.delete(FILE_KEY);
    provider.free();
    assert!(!provider.is_quarantined(FILE_KEY));
}
