use twilight_http_proxy::expiring_lru::{Builder, ExpiringLru, DEFAULT_EXPIRATION_MS, DEFAULT_REAP_INTERVAL_MS};

fn value_of(lru: &mut ExpiringLru<u64, i32>, key: u64, now: u64) -> Option<i32> {
    lru.get(&key, now).map(|e| *e.value())
}

#[test]
fn test_lru() {
    let mut lru: ExpiringLru<u64, i32> = Builder::new().expiration(1000).max_size(2).build();
    let mut now: u64 = 0;

    lru.insert(1, 2, now);
    {
        let entry = lru.get(&1, now).unwrap();
        assert_eq!(entry.value(), &2);
    }

    now += 2000;
    lru.reap(now);
    assert!(lru.get(&1, now).is_none());

    for i in 2..5u64 {
        lru.insert(i, 0, now);
        now += 50;
    }

    assert_eq!(lru.len(), 2);
    assert!(lru.get(&2, now).is_none());
    assert!(lru.get(&4, now).is_some());
}

#[test]
fn builder_defaults() {
    let lru: ExpiringLru<u64, i32> = Builder::new().build();
    assert_eq!(lru.expiration(), DEFAULT_EXPIRATION_MS);
    assert_eq!(lru.expiration(), 3_600_000);
    assert_eq!(lru.reap_interval(), DEFAULT_REAP_INTERVAL_MS);
    assert_eq!(lru.reap_interval(), 600_000);
    assert_eq!(lru.len(), 0);
}

#[test]
fn builder_settings() {
    let lru: ExpiringLru<u64, i32> = Builder::new().expiration(5).reap_interval(7).build();
    assert_eq!(lru.expiration(), 5);
    assert_eq!(lru.reap_interval(), 7);
}

#[test]
fn zero_size_disables_cache() {
    let mut lru: ExpiringLru<u64, i32> = Builder::new().max_size(0).build();
    lru.insert(1, 1, 0);
    lru.insert(2, 2, 0);
    assert_eq!(lru.len(), 0);
    assert!(!lru.contains(&1));
}

#[test]
fn unbounded_keeps_everything() {
    let mut lru: ExpiringLru<u64, i32> = Builder::new().build();
    for i in 0..100u64 {
        lru.insert(i, i as i32, i);
    }
    assert_eq!(lru.len(), 100);
    assert_eq!(value_of(&mut lru, 42, 100), Some(42));
}

#[test]
fn bound_holds_after_every_insert() {
    let mut lru: ExpiringLru<u64, i32> = Builder::new().max_size(3).build();
    for i in 0..20u64 {
        lru.insert(i % 7, 0, i);
        assert!(lru.len() <= 3);
    }
}

#[test]
fn eviction_takes_least_recently_used() {
    let mut lru: ExpiringLru<u64, i32> = Builder::new().max_size(2).build();
    lru.insert(1, 10, 0);
    lru.insert(2, 20, 1);
    // reading 1 makes 2 the least recently used
    assert_eq!(value_of(&mut lru, 1, 2), Some(10));
    lru.insert(3, 30, 3);
    assert!(lru.contains(&1));
    assert!(!lru.contains(&2));
    assert!(lru.contains(&3));
}

#[test]
fn eviction_tie_takes_first_inserted() {
    let mut lru: ExpiringLru<u64, i32> = Builder::new().max_size(2).build();
    lru.insert(1, 10, 5);
    lru.insert(2, 20, 5);
    lru.insert(3, 30, 5);
    assert!(!lru.contains(&1));
    assert!(lru.contains(&2));
    assert!(lru.contains(&3));
}

#[test]
fn reinsert_replaces_value_without_eviction() {
    let mut lru: ExpiringLru<u64, i32> = Builder::new().max_size(2).build();
    lru.insert(1, 10, 0);
    lru.insert(2, 20, 0);
    lru.insert(1, 11, 1);
    assert_eq!(lru.len(), 2);
    assert_eq!(value_of(&mut lru, 1, 2), Some(11));
    assert_eq!(value_of(&mut lru, 2, 2), Some(20));
}

#[test]
fn decay_drops_only_idle_entries() {
    let mut lru: ExpiringLru<u64, i32> = Builder::new().expiration(100).build();
    lru.insert(1, 1, 0);
    lru.insert(2, 2, 0);
    lru.insert(3, 3, 50);
    // a read refreshes 2
    assert_eq!(value_of(&mut lru, 2, 90), Some(2));
    lru.reap(100);
    assert_eq!(lru.len(), 3);
    lru.reap(101);
    assert!(!lru.contains(&1));
    assert!(lru.contains(&2));
    assert!(lru.contains(&3));
    lru.reap(191);
    assert_eq!(lru.len(), 0);
}

#[test]
fn decay_after_expiration_and_interval() {
    // entries untouched for longer than expiration + reap interval are gone
    let mut lru: ExpiringLru<u64, i32> = Builder::new().expiration(1000).reap_interval(600).build();
    lru.insert(1, 1, 0);
    lru.insert(2, 2, 900);
    let mut now: u64 = 0;
    while now <= 1700 {
        lru.reap(now);
        now += lru.reap_interval();
    }
    // sweeps ran at 0, 600 and 1200; at 1700 entry 1 was idle 1700 > 1600
    assert!(!lru.contains(&1));
    assert!(lru.contains(&2));
}

#[test]
fn string_keys() {
    let mut lru: ExpiringLru<String, u8> = Builder::new().build();
    lru.insert("a".to_string(), 1, 0);
    lru.insert("a".to_string(), 2, 0);
    assert_eq!(lru.len(), 1);
    assert_eq!(lru.get(&"a".to_string(), 1).map(|e| *e.value()), Some(2));
    assert!(lru.get(&"b".to_string(), 1).is_none());
}
