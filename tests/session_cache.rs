use quic_tunnel::addr::{SockAddr, TunnelCacheKey};
use quic_tunnel::session::{Lookup, SessionCache};

fn v4(ip: u32, port: u16) -> SockAddr {
    SockAddr::V4 { ip, port }
}

fn key(from_port: u16) -> TunnelCacheKey {
    TunnelCacheKey::new(v4(0x7f00_0001, 5000), v4(0x7f00_0001, from_port), v4(0x0a00_0001, 4433))
}

#[test]
fn first_touch_callers_share_one_initialization() {
    let mut cache = SessionCache::new(10_000, 60_000);
    let k = key(40000);
    assert_eq!(cache.lookup(k, 0), Lookup::Start);
    for t in 1..10u64 {
        assert_eq!(cache.lookup(k, t), Lookup::Wait);
    }
    assert!(cache.complete(k, 7, 10));
    for t in 11..20u64 {
        assert_eq!(cache.lookup(k, t), Lookup::Hit { session: 7 });
    }
    assert_eq!(cache.len(), 1);
}

#[test]
fn failed_initialization_is_not_retained() {
    let mut cache = SessionCache::new(10_000, 60_000);
    let k = key(40001);
    assert_eq!(cache.lookup(k, 0), Lookup::Start);
    assert_eq!(cache.lookup(k, 1), Lookup::Wait);
    assert!(cache.fail(k));
    assert!(!cache.contains(&k, 2));
    assert_eq!(cache.lookup(k, 2), Lookup::Start);
    assert!(!cache.fail(key(1)));
}

#[test]
fn idle_session_is_replaced_by_a_new_one() {
    let mut cache = SessionCache::new(10_000, 60_000);
    let k = key(40002);
    assert_eq!(cache.lookup(k, 1_000), Lookup::Start);
    assert!(cache.complete(k, 1, 1_000));
    assert!(cache.contains(&k, 61_000));
    assert!(!cache.contains(&k, 61_001));
    assert_eq!(cache.lookup(k, 61_001), Lookup::Start);
    assert_eq!(cache.drain_closing(), vec![1]);
    assert!(cache.complete(k, 2, 61_002));
    assert_eq!(cache.lookup(k, 61_003), Lookup::Hit { session: 2 });
}

#[test]
fn eviction_pass_reclaims_only_idle_sessions() {
    let mut cache = SessionCache::new(10_000, 100);
    let (a, b, c) = (key(1), key(2), key(3));
    assert_eq!(cache.lookup(a, 0), Lookup::Start);
    assert!(cache.complete(a, 11, 0));
    assert_eq!(cache.lookup(b, 0), Lookup::Start);
    assert!(cache.complete(b, 12, 0));
    assert_eq!(cache.lookup(c, 0), Lookup::Start);
    assert!(cache.touch(b, 90));
    cache.evict_idle(150);
    assert!(!cache.contains(&a, 150));
    assert!(cache.contains(&b, 150));
    assert!(cache.contains(&c, 150));
    assert_eq!(cache.len(), 2);
    assert_eq!(cache.drain_closing(), vec![11]);
    assert_eq!(cache.drain_closing(), Vec::<u64>::new());
}

#[test]
fn activity_restarts_the_idle_window() {
    let mut cache = SessionCache::new(10, 100);
    let k = key(5);
    assert_eq!(cache.lookup(k, 0), Lookup::Start);
    assert!(cache.complete(k, 3, 0));
    assert!(cache.touch(k, 90));
    assert_eq!(cache.lookup(k, 180), Lookup::Hit { session: 3 });
    assert_eq!(cache.lookup(k, 280), Lookup::Hit { session: 3 });
    assert!(!cache.touch(k, 381));
}

#[test]
fn full_cache_drops_least_recently_used_session() {
    let mut cache = SessionCache::new(2, 1_000_000);
    let (a, b, c) = (key(1), key(2), key(3));
    assert_eq!(cache.lookup(a, 0), Lookup::Start);
    assert!(cache.complete(a, 1, 0));
    assert_eq!(cache.lookup(b, 5), Lookup::Start);
    assert!(cache.complete(b, 2, 5));
    assert_eq!(cache.lookup(a, 10), Lookup::Hit { session: 1 });
    assert_eq!(cache.lookup(c, 20), Lookup::Start);
    assert_eq!(cache.drain_closing(), vec![2]);
    assert!(cache.contains(&a, 20));
    assert!(!cache.contains(&b, 20));
    assert_eq!(cache.len(), 2);
}

#[test]
fn full_cache_of_pending_flows_is_busy() {
    let mut cache = SessionCache::new(1, 1_000);
    assert_eq!(cache.lookup(key(1), 0), Lookup::Start);
    assert_eq!(cache.lookup(key(2), 0), Lookup::Busy);
    assert_eq!(cache.len(), 1);
}

#[test]
fn reverse_reader_is_handed_out_once_per_session() {
    let mut cache = SessionCache::new(10, 1_000);
    let k = key(9);
    assert!(!cache.take_reader(k));
    assert_eq!(cache.lookup(k, 0), Lookup::Start);
    assert!(!cache.take_reader(k));
    assert!(cache.complete(k, 4, 0));
    assert!(cache.take_reader(k));
    assert!(!cache.take_reader(k));
    assert!(!cache.complete(k, 5, 1));
    assert_eq!(cache.lookup(k, 2), Lookup::Hit { session: 4 });
}

#[test]
fn flows_do_not_block_each_other() {
    let mut cache = SessionCache::new(10, 1_000);
    let (k1, k2) = (key(1), key(2));
    assert_eq!(cache.lookup(k2, 0), Lookup::Start);
    assert!(cache.complete(k2, 22, 0));
    assert_eq!(cache.lookup(k1, 1), Lookup::Start);
    assert_eq!(cache.lookup(k2, 2), Lookup::Hit { session: 22 });
    assert!(cache.fail(k1));
    assert_eq!(cache.lookup(k2, 3), Lookup::Hit { session: 22 });
}

#[test]
fn keys_differ_in_any_address() {
    let base = key(1);
    let other_local = TunnelCacheKey::new(v4(0x7f00_0001, 5001), base.from, base.addr_b);
    let other_remote = TunnelCacheKey::new(base.addr_a, base.from, v4(0x0a00_0002, 4433));
    assert_eq!(base, key(1));
    assert_ne!(base, key(2));
    assert_ne!(base, other_local);
    assert_ne!(base, other_remote);
    let mut cache = SessionCache::new(10, 1_000);
    assert_eq!(cache.lookup(base, 0), Lookup::Start);
    assert_eq!(cache.lookup(other_local, 0), Lookup::Start);
    assert_eq!(cache.lookup(other_remote, 0), Lookup::Start);
    assert_eq!(cache.len(), 3);
}
