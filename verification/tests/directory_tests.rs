// Tests of the directory service and the address pool.

use ari::directory::{AddressPool, Directory};

#[test]
fn test_directory_register_and_resolve() {
    let mut dir = Directory::new();

    dir.register("app.example".to_string(), 1000).unwrap();

    let addresses = dir.resolve("app.example");
    assert!(addresses.is_some());
    assert_eq!(addresses.unwrap(), vec![1000]);
}

#[test]
fn test_directory_multiple_addresses() {
    let mut dir = Directory::new();

    dir.register("service.example".to_string(), 1000).unwrap();
    dir.register("service.example".to_string(), 2000).unwrap();

    let addresses = dir.resolve("service.example").unwrap();
    assert_eq!(addresses.len(), 2);
    assert!(addresses.contains(&1000));
    assert!(addresses.contains(&2000));
}

#[test]
fn test_directory_unregister() {
    let mut dir = Directory::new();

    dir.register("app".to_string(), 1000).unwrap();
    dir.register("app".to_string(), 2000).unwrap();

    dir.unregister("app", 1000).unwrap();

    let addresses = dir.resolve("app").unwrap();
    assert_eq!(addresses, vec![2000]);
}

#[test]
fn test_directory_unregister_last_address() {
    let mut dir = Directory::new();

    dir.register("app".to_string(), 1000).unwrap();
    dir.unregister("app", 1000).unwrap();

    assert!(dir.resolve("app").is_none());
}

#[test]
fn test_directory_list_names() {
    let mut dir = Directory::new();

    dir.register("app1".to_string(), 1000).unwrap();
    dir.register("app2".to_string(), 2000).unwrap();

    let names = dir.list_names();
    assert_eq!(names.len(), 2);
    assert!(names.contains(&"app1".to_string()));
    assert!(names.contains(&"app2".to_string()));
}

#[test]
fn test_address_pool_allocation() {
    let mut pool = AddressPool::new(1000, 1005);

    let addr1 = pool.allocate().unwrap();
    let addr2 = pool.allocate().unwrap();

    assert_ne!(addr1, addr2);
    assert!(addr1 >= 1000 && addr1 <= 1005);
    assert!(addr2 >= 1000 && addr2 <= 1005);
}

#[test]
fn directory_test_address_pool_exhaustion() {
    let mut pool = AddressPool::new(1000, 1002);

    let _addr1 = pool.allocate().unwrap();
    let _addr2 = pool.allocate().unwrap();
    let _addr3 = pool.allocate().unwrap();

    assert!(pool.allocate().is_err());
}

#[test]
fn test_address_pool_release() {
    let mut pool = AddressPool::new(1000, 1002);

    let addr = pool.allocate().unwrap();
    assert_eq!(pool.allocated_count(), 1);

    pool.release(addr).unwrap();
    assert_eq!(pool.allocated_count(), 0);

    let addr2 = pool.allocate().unwrap();
    assert_eq!(addr, addr2);
}

#[test]
fn test_address_pool_capacity() {
    let mut pool = AddressPool::new(1000, 1010);

    assert_eq!(pool.capacity(), 11);
    assert_eq!(pool.available_count(), 11);

    pool.allocate().unwrap();
    assert_eq!(pool.available_count(), 10);
}

// Allocation hands out pairwise distinct addresses until the range is
// exhausted, then fails; a release makes the address allocatable again.
#[test]
fn address_pool_exhaustion_and_reuse() {
    let mut pool = AddressPool::new(3000, 3002);

    let a = pool.allocate().unwrap();
    let b = pool.allocate().unwrap();
    let c = pool.allocate().unwrap();

    assert_eq!(a, 3000);
    assert_eq!(b, 3001);
    assert_eq!(c, 3002);
    assert_ne!(a, b);
    assert_ne!(b, c);
    assert_ne!(a, c);

    let exhausted = pool.allocate();
    assert!(exhausted.is_err());
    assert!(exhausted.unwrap_err().contains("exhausted"));

    pool.release(3001).unwrap();
    assert_eq!(pool.allocate().unwrap(), 3001);
}

// Releasing an address that is out of range or was never allocated fails.
#[test]
fn address_pool_release_errors() {
    let mut pool = AddressPool::new(10, 20);
    assert!(pool.release(9).is_err());
    assert!(pool.release(21).is_err());
    assert!(pool.release(15).is_err());

    let a = pool.allocate().unwrap();
    assert!(pool.is_allocated(a));
    pool.release(a).unwrap();
    assert!(!pool.is_allocated(a));
}
