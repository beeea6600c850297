use http_file_server::cache::FileCache;

#[test]
fn empty_cache_misses() {
    let cache = FileCache::new();
    assert_eq!(cache.lookup("/srv/a"), None);
}

#[test]
fn lookup_after_remember_gives_content_back() {
    let mut cache = FileCache::new();
    let given = cache.remember("/srv/a".to_string(), b"hello".to_vec());
    assert_eq!(given, b"hello".to_vec());
    assert_eq!(cache.lookup("/srv/a"), Some(b"hello".to_vec()));
    assert_eq!(cache.lookup("/srv/b"), None);
}

#[test]
fn first_remembered_content_stays() {
    let mut cache = FileCache::new();
    cache.remember("/srv/a".to_string(), b"first".to_vec());
    let given = cache.remember("/srv/a".to_string(), b"second".to_vec());
    assert_eq!(given, b"second".to_vec());
    assert_eq!(cache.lookup("/srv/a"), Some(b"first".to_vec()));
}

#[test]
fn removed_entry_misses_and_others_stay() {
    let mut cache = FileCache::new();
    cache.remember("/srv/a".to_string(), b"a".to_vec());
    cache.remember("/srv/b".to_string(), b"b".to_vec());
    cache.remove("/srv/a");
    assert_eq!(cache.lookup("/srv/a"), None);
    assert_eq!(cache.lookup("/srv/b"), Some(b"b".to_vec()));
    cache.remove("/srv/missing");
    assert_eq!(cache.lookup("/srv/b"), Some(b"b".to_vec()));
}

#[test]
fn finished_read_is_remembered_and_failed_read_is_not() {
    let mut cache = FileCache::new();
    assert_eq!(cache.finish_read("/srv/a".to_string(), Some(b"data".to_vec())), Some(b"data".to_vec()));
    assert_eq!(cache.lookup("/srv/a"), Some(b"data".to_vec()));
    assert_eq!(cache.finish_read("/srv/b".to_string(), None), None);
    assert_eq!(cache.lookup("/srv/b"), None);
    assert_eq!(cache.finish_read("/srv/a".to_string(), Some(b"new".to_vec())), Some(b"new".to_vec()));
    assert_eq!(cache.lookup("/srv/a"), Some(b"data".to_vec()));
}
