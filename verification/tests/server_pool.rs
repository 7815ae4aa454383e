use tuic::common::ipv4::Ipv4Address;
use tuic::server::ip::IpPool;
use tuic::server::subnet::{parse_subnet, subnet_from_parsed, subnet_text, SubnetError};

fn addr(a: u8, b: u8, c: u8, d: u8) -> Ipv4Address {
    Ipv4Address::from_octets(a, b, c, d)
}

fn drain(pool: &mut IpPool) -> Vec<Ipv4Address> {
    let mut out = Vec::new();
    while let Some(ip) = pool.allocate() {
        out.push(ip);
    }
    out
}

#[test]
fn pool_of_slash_24_offers_253_addresses_in_order() {
    let mut pool = IpPool::new(addr(10, 0, 0, 0), 24);
    assert_eq!(pool.subnet_base, addr(10, 0, 0, 0));
    assert_eq!(pool.subnet_prefix, 24);
    let all = drain(&mut pool);
    assert_eq!(all.len(), 253);
    assert_eq!(all[0], addr(10, 0, 0, 2));
    assert_eq!(all[252], addr(10, 0, 0, 254));
    for (k, ip) in all.iter().enumerate() {
        assert_eq!(ip.value, addr(10, 0, 0, 2).value + k as u32);
    }
    assert_eq!(pool.allocate(), None);
}

#[test]
fn pool_never_hands_out_network_gateway_or_broadcast() {
    let mut pool = IpPool::new(addr(172, 16, 0, 0), 28);
    let all = drain(&mut pool);
    assert_eq!(all.len(), 13);
    assert!(!all.contains(&addr(172, 16, 0, 0)));
    assert!(!all.contains(&addr(172, 16, 0, 1)));
    assert!(!all.contains(&addr(172, 16, 0, 15)));
}

#[test]
fn server_ip_is_base_plus_one() {
    let pool = IpPool::new(addr(10, 8, 0, 0), 16);
    assert_eq!(pool.server_ip(), addr(10, 8, 0, 1));
}

#[test]
fn released_address_goes_to_the_back() {
    let mut pool = IpPool::new(addr(10, 0, 0, 0), 29);
    let first = pool.allocate().unwrap();
    assert_eq!(first, addr(10, 0, 0, 2));
    pool.release(first);
    let all = drain(&mut pool);
    assert_eq!(
        all,
        vec![addr(10, 0, 0, 3), addr(10, 0, 0, 4), addr(10, 0, 0, 5), addr(10, 0, 0, 6), first]
    );
}

#[test]
fn allocate_then_release_keeps_the_same_addresses() {
    let mut a = IpPool::new(addr(10, 0, 0, 0), 28);
    let mut b = IpPool::new(addr(10, 0, 0, 0), 28);
    let ip = a.allocate().unwrap();
    a.release(ip);
    let mut left = drain(&mut a);
    let mut right = drain(&mut b);
    left.sort_by_key(|x| x.value);
    right.sort_by_key(|x| x.value);
    assert_eq!(left, right);
}

#[test]
fn two_allocations_differ() {
    let mut pool = IpPool::new(addr(10, 0, 0, 0), 24);
    let a = pool.allocate().unwrap();
    let b = pool.allocate().unwrap();
    assert_ne!(a, b);
}

#[test]
fn tiny_subnets() {
    let mut p30 = IpPool::new(addr(10, 0, 0, 0), 30);
    assert_eq!(drain(&mut p30), vec![addr(10, 0, 0, 2)]);
    let mut p31 = IpPool::new(addr(10, 0, 0, 0), 31);
    assert!(drain(&mut p31).is_empty());
    let mut p32 = IpPool::new(addr(10, 0, 0, 0), 32);
    assert!(drain(&mut p32).is_empty());
}

#[test]
fn subnet_fits_bounds() {
    assert!(IpPool::subnet_fits(addr(10, 0, 0, 0), 24));
    assert!(IpPool::subnet_fits(addr(10, 0, 0, 0), 1));
    assert!(IpPool::subnet_fits(addr(255, 255, 255, 255), 32));
    assert!(!IpPool::subnet_fits(addr(10, 0, 0, 0), 0));
    assert!(!IpPool::subnet_fits(addr(10, 0, 0, 0), 33));
    assert!(!IpPool::subnet_fits(addr(255, 255, 255, 0), 16));
    assert!(IpPool::subnet_fits(addr(255, 255, 255, 0), 24));
}

#[test]
fn parse_subnet_cidr() {
    assert_eq!(parse_subnet("10.0.0.0/24"), Ok((addr(10, 0, 0, 0), 24)));
    assert_eq!(parse_subnet("192.168.7.1/30"), Ok((addr(192, 168, 7, 1), 30)));
    assert_eq!(parse_subnet("10.0.0.0/+8"), Ok((addr(10, 0, 0, 0), 8)));
    assert_eq!(parse_subnet("10.0.0.0/024"), Ok((addr(10, 0, 0, 0), 24)));
    assert_eq!(parse_subnet("10.0.0.0/255"), Ok((addr(10, 0, 0, 0), 255)));
    assert_eq!(parse_subnet("0.0.0.0/0"), Ok((addr(0, 0, 0, 0), 0)));
    assert_eq!(parse_subnet("255.255.255.255/32"), Ok((addr(255, 255, 255, 255), 32)));
}

#[test]
fn parse_subnet_without_slash() {
    assert_eq!(parse_subnet("10.0.0.0"), Err(SubnetError::NotCidr));
    assert_eq!(parse_subnet(""), Err(SubnetError::NotCidr));
}

#[test]
fn parse_subnet_bad_address() {
    assert_eq!(parse_subnet("10.0.0/24"), Err(SubnetError::InvalidAddress));
    assert_eq!(parse_subnet("010.0.0.0/24"), Err(SubnetError::InvalidAddress));
    assert_eq!(parse_subnet("/24"), Err(SubnetError::InvalidAddress));
    assert_eq!(parse_subnet("10.0.0.256/xx"), Err(SubnetError::InvalidAddress));
    assert_eq!(parse_subnet("1.2.3.4.5/8"), Err(SubnetError::InvalidAddress));
    assert_eq!(parse_subnet("1.02.3.4/8"), Err(SubnetError::InvalidAddress));
    assert_eq!(parse_subnet("1.2.3.1234/8"), Err(SubnetError::InvalidAddress));
    assert_eq!(parse_subnet("1.2.3.+4/8"), Err(SubnetError::InvalidAddress));
    assert_eq!(parse_subnet("1..3.4/8"), Err(SubnetError::InvalidAddress));
}

#[test]
fn parse_subnet_bad_prefix() {
    assert_eq!(parse_subnet("10.0.0.0/"), Err(SubnetError::InvalidPrefix));
    assert_eq!(parse_subnet("10.0.0.0/256"), Err(SubnetError::InvalidPrefix));
    assert_eq!(parse_subnet("10.0.0.0/-1"), Err(SubnetError::InvalidPrefix));
    assert_eq!(parse_subnet("10.0.0.0/+"), Err(SubnetError::InvalidPrefix));
    assert_eq!(parse_subnet("10.0.0.0/24/1"), Err(SubnetError::InvalidPrefix));
    assert_eq!(parse_subnet("10.0.0.0/2ö"), Err(SubnetError::InvalidPrefix));
}

#[test]
fn subnet_from_parsed_checks_address_first() {
    assert_eq!(subnet_from_parsed(None, None), Err(SubnetError::InvalidAddress));
    assert_eq!(subnet_from_parsed(Some(7), None), Err(SubnetError::InvalidPrefix));
    assert_eq!(subnet_from_parsed(Some(7), Some(9)), Ok((Ipv4Address { value: 7 }, 9)));
}

#[test]
fn subnet_text_is_cidr_notation() {
    assert_eq!(subnet_text(addr(10, 0, 0, 0), 24), "10.0.0.0/24");
    assert_eq!(subnet_text(addr(192, 168, 255, 7), 0), "192.168.255.7/0");
    assert_eq!(subnet_text(addr(1, 23, 100, 9), 255), "1.23.100.9/255");
    let (base, prefix) = parse_subnet("172.16.32.0/20").unwrap();
    assert_eq!(subnet_text(base, prefix), "172.16.32.0/20");
}

#[test]
fn pool_getters() {
    let pool = IpPool::new(addr(10, 8, 0, 0), 16);
    assert_eq!(pool.base(), addr(10, 8, 0, 0));
    assert_eq!(pool.prefix(), 16);
}
