use infrabase::allocator::find_unused_ip;
use infrabase::errors::Error;
use infrabase::ip::Ipv4;

#[test]
fn test_allocator_skips_assigned() {
    let existing = vec![Ipv4::new(10, 0, 0, 1), Ipv4::new(10, 0, 0, 2)];
    let got = find_unused_ip(&existing, Ipv4::new(10, 0, 0, 1), Ipv4::new(10, 0, 0, 5));
    assert_eq!(got, Ok(Ipv4::new(10, 0, 0, 3)));
}

#[test]
fn test_allocator_exhausted_names_bounds() {
    let existing = vec![
        Ipv4::new(10, 0, 0, 1),
        Ipv4::new(10, 0, 0, 2),
        Ipv4::new(10, 0, 0, 3),
    ];
    let start = Ipv4::new(10, 0, 0, 1);
    let end = Ipv4::new(10, 0, 0, 3);
    let got = find_unused_ip(&existing, start, end);
    assert_eq!(got, Err(Error::NoWireGuardAddressAvailable { start, end }));
}

#[test]
fn test_allocator_end_is_last_candidate() {
    let existing = vec![Ipv4::new(10, 0, 0, 1), Ipv4::new(10, 0, 0, 2)];
    let got = find_unused_ip(&existing, Ipv4::new(10, 0, 0, 1), Ipv4::new(10, 0, 0, 3));
    assert_eq!(got, Ok(Ipv4::new(10, 0, 0, 3)));
}

#[test]
fn test_allocator_empty_inventory_takes_start() {
    let existing: Vec<Ipv4> = vec![];
    let got = find_unused_ip(&existing, Ipv4::new(10, 8, 0, 1), Ipv4::new(10, 8, 0, 250));
    assert_eq!(got, Ok(Ipv4::new(10, 8, 0, 1)));
}

#[test]
fn test_allocator_carries_across_octets() {
    let existing = vec![Ipv4::new(10, 0, 0, 255)];
    let got = find_unused_ip(&existing, Ipv4::new(10, 0, 0, 255), Ipv4::new(10, 0, 1, 5));
    assert_eq!(got, Ok(Ipv4::new(10, 0, 1, 0)));
}
