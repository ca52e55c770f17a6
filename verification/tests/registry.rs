use pfp_bridge::registry::DeviceRegistry;

const A: u32 = 0x0000_00A1;
const B: u32 = 0x0000_00B2;
const SECOND: u64 = 1_000;

#[test]
fn sweep_evicts_by_age() {
    let t0: u64 = 5 * SECOND;
    let mut registry = DeviceRegistry::new();
    registry.touch(A, t0);
    registry.touch(B, t0 + 10 * SECOND);
    assert_eq!(registry.sweep(t0 + 61 * SECOND, 60 * SECOND), vec![A]);
    assert_eq!(registry.last_seen(A), None);
    assert_eq!(registry.last_seen(B), Some(t0 + 10 * SECOND));
    assert_eq!(registry.sweep(t0 + 71 * SECOND, 60 * SECOND), vec![B]);
    assert!(registry.is_empty());
}

#[test]
fn new_registry_is_empty() {
    let mut registry = DeviceRegistry::new();
    assert!(registry.is_empty());
    assert_eq!(registry.len(), 0);
    assert_eq!(registry.sweep(1_000_000, 0), Vec::<u32>::new());
}

#[test]
fn touch_inserts_then_refreshes() {
    let mut registry = DeviceRegistry::new();
    registry.touch(A, 10);
    assert!(!registry.is_empty());
    assert_eq!(registry.len(), 1);
    assert_eq!(registry.last_seen(A), Some(10));
    registry.touch(A, 25);
    assert_eq!(registry.len(), 1);
    assert_eq!(registry.last_seen(A), Some(25));
    registry.touch(B, 30);
    assert_eq!(registry.len(), 2);
    assert_eq!(registry.last_seen(A), Some(25));
    assert_eq!(registry.last_seen(B), Some(30));
}

#[test]
fn record_at_exactly_the_window_stays() {
    let mut registry = DeviceRegistry::new();
    registry.touch(A, 100);
    assert_eq!(registry.sweep(160, 60), Vec::<u32>::new());
    assert_eq!(registry.last_seen(A), Some(100));
    assert_eq!(registry.sweep(161, 60), vec![A]);
}

#[test]
fn refreshed_record_outlives_the_old_deadline() {
    let mut registry = DeviceRegistry::new();
    registry.touch(A, 0);
    registry.touch(A, 50);
    assert_eq!(registry.sweep(61, 60), Vec::<u32>::new());
    assert_eq!(registry.sweep(111, 60), vec![A]);
}

#[test]
fn sweep_before_last_seen_evicts_nothing() {
    let mut registry = DeviceRegistry::new();
    registry.touch(A, 1_000);
    assert_eq!(registry.sweep(10, 0), Vec::<u32>::new());
    assert_eq!(registry.len(), 1);
}

#[test]
fn sweep_returns_every_expired_address_once() {
    let mut registry = DeviceRegistry::new();
    for addr in 0..10u32 {
        registry.touch(addr, (addr as u64) * 10);
    }
    let mut evicted = registry.sweep(100, 55);
    evicted.sort();
    assert_eq!(evicted, vec![0, 1, 2, 3, 4]);
    assert_eq!(registry.len(), 5);
    assert_eq!(registry.sweep(100, 55), Vec::<u32>::new());
    for addr in 5..10u32 {
        assert_eq!(registry.last_seen(addr), Some((addr as u64) * 10));
    }
}

#[test]
fn sweep_at_the_end_of_time() {
    let mut registry = DeviceRegistry::new();
    registry.touch(A, 0);
    registry.touch(B, u64::MAX);
    assert_eq!(registry.sweep(u64::MAX, u64::MAX), Vec::<u32>::new());
    assert_eq!(registry.sweep(u64::MAX, u64::MAX - 1), vec![A]);
}
