use soht::serve::{resolve_request, ServeOutcome};
use soht::shortname::short_name;
use soht::store::CacheStore;

#[test]
fn short_name_takes_fragment_segment() {
    assert_eq!(short_name(&"http://ex.org/onto#Widget".to_string()), "Widget");
}

#[test]
fn short_name_takes_last_path_segment() {
    assert_eq!(short_name(&"http://ex.org/onto/Widget".to_string()), "Widget");
}

#[test]
fn short_name_of_plain_identifier_is_itself() {
    assert_eq!(short_name(&"Widget".to_string()), "Widget");
}

#[test]
fn short_name_of_trailing_separator_is_empty() {
    assert_eq!(short_name(&"http://ex.org/onto/".to_string()), "");
}

#[test]
fn store_assigns_fresh_increasing_ids() {
    let mut store = CacheStore::new();
    let a = store.insert("A".to_string(), vec![1u8]);
    let b = store.insert("B".to_string(), vec![2u8]);
    let c = store.insert("A".to_string(), vec![3u8]);
    assert!(a < b && b < c);
}

#[test]
fn store_lookup_selects_most_recent() {
    let mut store = CacheStore::new();
    store.insert("A".to_string(), vec![1u8]);
    store.insert("B".to_string(), vec![2u8]);
    store.insert("A".to_string(), vec![3u8]);
    assert_eq!(store.lookup(&"A".to_string()), Some(vec![3u8]));
    assert_eq!(store.lookup(&"B".to_string()), Some(vec![2u8]));
    assert_eq!(store.lookup(&"C".to_string()), None);
}

#[test]
fn store_lists_all_records_for_a_name() {
    let mut store = CacheStore::new();
    let a = store.insert("A".to_string(), vec![1u8]);
    store.insert("B".to_string(), vec![2u8]);
    let c = store.insert("A".to_string(), vec![3u8]);
    assert_eq!(store.record_ids_for(&"A".to_string()), vec![a, c]);
    assert_eq!(store.record_ids_for(&"C".to_string()), Vec::<u64>::new());
}

#[test]
fn cached_document_wins() {
    let r = resolve_request(Some(vec![1u8]), Some(vec![2u8]));
    assert!(matches!(r, ServeOutcome::Cached(c) if c == vec![1u8]));
}

#[test]
fn absent_name_falls_back_to_raw_file() {
    let store = CacheStore::new();
    let cached = store.lookup(&"Widget".to_string());
    assert!(cached.is_none());
    let r = resolve_request(cached, Some(vec![7u8]));
    assert!(matches!(r, ServeOutcome::RawFile(b) if b == vec![7u8]));
}

#[test]
fn neither_store_nor_file_is_not_found() {
    let store = CacheStore::new();
    let r = resolve_request(store.lookup(&"Widget".to_string()), None);
    assert!(matches!(r, ServeOutcome::NotFound));
}
