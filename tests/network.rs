use dhcpserver::network::{contains_addr, init_addr_pool, is_valid_mask, Environment};
use dhcpserver::pool::AddressPool;

fn env() -> Environment {
    Environment {
        network_addr: 0xc0a80100,
        subnet_mask: 0xffffff00,
        default_gateway: 0xc0a80101,
        dhcp_svr_addr: 0xc0a80102,
        dns_svr_addr: 0xc0a80103,
        lease_time: 3600,
    }
}

#[test]
fn masks() {
    assert!(is_valid_mask(0xffffff00));
    assert!(is_valid_mask(0));
    assert!(is_valid_mask(0xffffffff));
    assert!(!is_valid_mask(0xff00ff00));
    assert!(!is_valid_mask(0x00ffffff));
}

#[test]
fn subnet_membership() {
    let e = env();
    assert!(e.contains(0xc0a80155));
    assert!(!e.contains(0xc0a80255));
    assert!(e.is_reserved(0xc0a801ff));
    assert!(e.is_reserved(0xc0a80100));
    assert!(!e.is_assignable(0xc0a80101));
    assert!(e.is_assignable(0xc0a80104));
}

#[test]
fn startup_pool_is_descending() {
    let pool = init_addr_pool(&env(), &vec![0xc0a80110]);
    assert_eq!(pool.len(), 256 - 6);
    assert_eq!(pool[0], 0xc0a801fe);
    assert_eq!(*pool.last().unwrap(), 0xc0a80104);
    assert!(pool.windows(2).all(|w| w[0] > w[1]));
    assert!(!contains_addr(&pool, 0xc0a80110));
    assert!(contains_addr(&pool, 0xc0a80111));
}

#[test]
fn give_back_keeps_order() {
    let mut p = AddressPool::from_descending(vec![9, 5, 2]);
    p.give_back(7);
    p.give_back(5);
    p.give_back(1);
    assert_eq!(p.len(), 5);
    assert_eq!(p.take_next(), Some(1));
    assert_eq!(p.take_next(), Some(2));
    assert_eq!(p.take_specific(7), Some(7));
    assert!(p.contains(9));
    assert_eq!(p.take_next(), Some(5));
    assert_eq!(p.take_next(), Some(9));
    assert_eq!(p.take_next(), None);
}
