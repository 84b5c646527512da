use tstring_html::cache::ParseCache;

#[test]
fn parse_cache_reuses_entries() {
    let mut cache = ParseCache::new(2);
    let key = (
        "html".to_string(),
        "parse_validated".to_string(),
        vec!["<div>".to_string()],
    );
    let mut builds = 0;

    let first = cache
        .get_or_try_insert_with(&key, || {
            builds += 1;
            Ok::<_, ()>(1usize)
        })
        .expect("first insert should succeed");
    let second = cache
        .get_or_try_insert_with(&key, || {
            builds += 1;
            Ok::<_, ()>(2usize)
        })
        .expect("second lookup should succeed");

    assert_eq!(*first, 1);
    assert_eq!(*second, 1);
    assert_eq!(builds, 1);
}

#[test]
fn parse_cache_evicts_lru_entry() {
    let mut cache = ParseCache::new(2);
    let key_a = (
        "html".to_string(),
        "parse_validated".to_string(),
        vec!["a".to_string()],
    );
    let key_b = (
        "html".to_string(),
        "parse_validated".to_string(),
        vec!["b".to_string()],
    );
    let key_c = (
        "html".to_string(),
        "parse_validated".to_string(),
        vec!["c".to_string()],
    );

    cache
        .get_or_try_insert_with(&key_a, || Ok::<_, ()>(1usize))
        .expect("insert a");
    cache
        .get_or_try_insert_with(&key_b, || Ok::<_, ()>(2usize))
        .expect("insert b");
    cache.get(&key_a).expect("touch a");
    cache
        .get_or_try_insert_with(&key_c, || Ok::<_, ()>(3usize))
        .expect("insert c");

    assert!(cache.get(&key_b).is_none());
    assert_eq!(*cache.get(&key_a).expect("a should remain"), 1);
    assert_eq!(*cache.get(&key_c).expect("c should remain"), 3);
}

#[test]
fn parse_cache_does_not_store_failures() {
    let mut cache = ParseCache::new(2);
    let key = (
        "html".to_string(),
        "parse_validated".to_string(),
        vec!["a".to_string()],
    );
    let mut attempts = 0;

    let err = cache.get_or_try_insert_with(&key, || {
        attempts += 1;
        Err::<usize, _>("boom")
    });
    assert_eq!(err.expect_err("should fail"), "boom");
    assert!(cache.get(&key).is_none());

    let value = cache
        .get_or_try_insert_with(&key, || {
            attempts += 1;
            Ok::<_, &str>(7usize)
        })
        .expect("second attempt should succeed");
    assert_eq!(*value, 7);
    assert_eq!(attempts, 2);
}
