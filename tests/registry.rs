use echo_server::registry::{Join, Registry, Release};

const ADDR: &str = "127.0.0.1:9000";

fn acquire(r: &mut Registry<u32>, addr: &str, fresh: u32) -> u32 {
    match r.join(addr) {
        Join::Joined(_) => *r.get(addr).expect("registered"),
        Join::Vacant => {
            r.insert(addr.to_string(), fresh);
            fresh
        }
        Join::Saturated => panic!("saturated"),
    }
}

#[test]
fn acquire_twice_shares_one_server() {
    let mut r: Registry<u32> = Registry::new();
    let first = acquire(&mut r, ADDR, 7);
    let second = acquire(&mut r, ADDR, 8);
    assert_eq!(first, 7);
    assert_eq!(second, 7);
    assert_eq!(r.holders(ADDR), 2);
}

#[test]
fn release_twice_removes_server() {
    let mut r: Registry<u32> = Registry::new();
    acquire(&mut r, ADDR, 7);
    acquire(&mut r, ADDR, 7);
    assert!(matches!(r.release(ADDR), Release::Held(1)));
    assert_eq!(r.holders(ADDR), 1);
    assert_eq!(r.get(ADDR), Some(&7));
    assert!(matches!(r.release(ADDR), Release::Removed(7)));
    assert_eq!(r.holders(ADDR), 0);
    assert!(r.get(ADDR).is_none());
}

#[test]
fn address_is_free_after_removal() {
    let mut r: Registry<u32> = Registry::new();
    acquire(&mut r, ADDR, 7);
    assert!(matches!(r.release(ADDR), Release::Removed(7)));
    assert!(matches!(r.join(ADDR), Join::Vacant));
    let fresh = acquire(&mut r, ADDR, 9);
    assert_eq!(fresh, 9);
    assert_eq!(r.holders(ADDR), 1);
}

#[test]
fn release_of_unknown_address() {
    let mut r: Registry<u32> = Registry::new();
    assert!(matches!(r.release(ADDR), Release::Absent));
    assert!(matches!(r.join(ADDR), Join::Vacant));
}

#[test]
fn addresses_are_independent() {
    let mut r: Registry<u32> = Registry::new();
    acquire(&mut r, "127.0.0.1:9000", 1);
    acquire(&mut r, "127.0.0.1:9001", 2);
    acquire(&mut r, "127.0.0.1:9001", 3);
    assert_eq!(r.holders("127.0.0.1:9000"), 1);
    assert_eq!(r.holders("127.0.0.1:9001"), 2);
    assert!(matches!(r.release("127.0.0.1:9000"), Release::Removed(1)));
    assert_eq!(r.get("127.0.0.1:9001"), Some(&2));
}

#[test]
fn join_reports_holder_count() {
    let mut r: Registry<u32> = Registry::new();
    acquire(&mut r, ADDR, 1);
    assert!(matches!(r.join(ADDR), Join::Joined(2)));
    assert!(matches!(r.join(ADDR), Join::Joined(3)));
}
