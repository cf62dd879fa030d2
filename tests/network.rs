use citadel::network::{NetworkAllocator, NetworkError};

const BASE: u32 = 0xAC11_0000; // 172.17.0.0

fn allocator() -> NetworkAllocator {
    let mut net = NetworkAllocator::new();
    assert!(net.add_zone("default", BASE, 24));
    net
}

#[test]
fn allocate_is_idempotent() {
    let mut net = allocator();
    let a = net.allocate_address_for("default", "a").unwrap();
    assert_eq!(a, BASE + 2);
    assert_eq!(net.allocate_address_for("default", "a"), Ok(a));
    assert_eq!(net.address_of("default", "a"), Some(a));
}

#[test]
fn distinct_realms_get_distinct_addresses() {
    let mut net = allocator();
    let mut seen = Vec::new();
    for name in ["a", "b", "c", "d", "e"] {
        let addr = net.allocate_address_for("default", name).unwrap();
        assert!(!seen.contains(&addr));
        seen.push(addr);
    }
    assert_eq!(seen, vec![BASE + 2, BASE + 3, BASE + 4, BASE + 5, BASE + 6]);
}

#[test]
fn reservation_conflicts() {
    let mut net = allocator();
    let a = net.allocate_address_for("default", "a").unwrap();
    assert_eq!(net.allocate_reserved("default", "b", a), Err(NetworkError::AddressInUse));
    assert_eq!(net.allocate_reserved("default", "a", a), Ok(a));
    assert_eq!(net.allocate_reserved("default", "b", BASE + 10), Ok(BASE + 10));
    assert_eq!(net.address_of("default", "b"), Some(BASE + 10));
    // the lowest free address skips a reserved one only where it is held
    assert_eq!(net.allocate_address_for("default", "c"), Ok(BASE + 3));
}

#[test]
fn free_then_reserve_by_another() {
    let mut net = allocator();
    let a = net.allocate_address_for("default", "a").unwrap();
    net.free_allocation_for("default", "a");
    assert_eq!(net.address_of("default", "a"), None);
    assert_eq!(net.allocate_reserved("default", "b", a), Ok(a));
    // releasing what is not held changes nothing
    net.free_allocation_for("default", "nobody");
    assert_eq!(net.address_of("default", "b"), Some(a));
}

#[test]
fn reserving_moves_a_realm() {
    let mut net = allocator();
    let a = net.allocate_address_for("default", "a").unwrap();
    assert_eq!(net.allocate_reserved("default", "a", BASE + 20), Ok(BASE + 20));
    // the old address is free again
    assert_eq!(net.allocate_address_for("default", "b"), Ok(a));
}

#[test]
fn allocator_errors() {
    let mut net = allocator();
    assert_eq!(net.allocate_address_for("nowhere", "a"), Err(NetworkError::ZoneUnknown));
    assert_eq!(net.allocate_reserved("nowhere", "a", BASE + 2), Err(NetworkError::ZoneUnknown));
    assert_eq!(net.gateway("nowhere"), Err(NetworkError::ZoneUnknown));
    assert_eq!(net.allocate_reserved("default", "a", BASE), Err(NetworkError::OutOfRange));
    assert_eq!(net.allocate_reserved("default", "a", BASE + 1), Err(NetworkError::OutOfRange));
    assert_eq!(net.allocate_reserved("default", "a", BASE + 255), Err(NetworkError::OutOfRange));
    assert_eq!(net.allocate_reserved("default", "a", BASE + 254), Ok(BASE + 254));
    assert_eq!(net.gateway("default"), Ok(BASE + 1));
    assert_eq!(net.prefix("default"), Ok(24));

    assert!(net.add_zone("tiny", 0x0A00_0000, 30));
    assert_eq!(net.allocate_address_for("tiny", "x"), Ok(0x0A00_0002));
    assert_eq!(net.allocate_address_for("tiny", "y"), Err(NetworkError::PoolExhausted));
}

#[test]
fn zones_are_checked() {
    let mut net = allocator();
    assert!(!net.add_zone("default", 0x0A00_0000, 24));
    assert!(!net.add_zone("wide", 0x0A00_0000, 31));
    assert!(!net.add_zone("late", 0xFFFF_FF00, 23));
    assert!(net.add_zone("last", 0xFFFF_FF00, 24));
    assert_eq!(net.gateway("default"), Ok(BASE + 1));
}
