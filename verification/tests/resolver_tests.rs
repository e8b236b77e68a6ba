use infrabase::errors::Error;
use infrabase::ip::Ipv4;
use infrabase::links::{LinkMap, NetworkLink};
use infrabase::machines::{group_by_machine, AddressRecord, Machine, MachineAddress, MachineEntry};
use infrabase::render::render_ssh_config;
use infrabase::resolver::{resolve_endpoints, Endpoint};

fn machine(hostname: &str, owner: &str, ssh_port: Option<u16>, wireguard_ip: Option<Ipv4>) -> Machine {
    Machine {
        hostname: hostname.to_string(),
        owner: owner.to_string(),
        ssh_user: None,
        ssh_port,
        wireguard_ip,
        wireguard_pubkey: None,
        provider_id: None,
    }
}

fn addr(network: &str, address: &str, ssh_port: Option<u16>) -> MachineAddress {
    MachineAddress {
        network: network.to_string(),
        address: address.to_string(),
        ssh_port,
    }
}

#[test]
fn test_missing_source_machine_is_fatal() {
    let data = vec![MachineEntry {
        machine: machine("alice", "ops", Some(22), None),
        addresses: vec![addr("office", "10.1.1.1", Some(22))],
    }];
    let links = LinkMap::new(vec![]);
    let got = resolve_endpoints(&data, &"mallory".to_string(), &links);
    assert_eq!(
        got,
        Err(Error::MissingSourceMachine {
            source_machine: "mallory".to_string()
        })
    );
}

#[test]
fn test_fallback_to_wireguard_on_unlinked_network() {
    let data = vec![
        MachineEntry {
            machine: machine("alice", "ops", Some(22), Some(Ipv4::new(10, 8, 0, 2))),
            addresses: vec![addr("office", "10.1.1.1", Some(22))],
        },
        MachineEntry {
            machine: machine("carol", "ops", Some(2200), Some(Ipv4::new(10, 8, 0, 9))),
            addresses: vec![addr("lab", "192.168.9.9", Some(9922))],
        },
    ];
    let links = LinkMap::new(vec![]);
    let got = resolve_endpoints(&data, &"alice".to_string(), &links).unwrap();
    let carol = got.iter().find(|e| e.hostname == "carol").unwrap();
    assert_eq!(carol.address, "10.8.0.9");
    assert_eq!(carol.port, 2200);
}

#[test]
fn test_machine_without_endpoint_is_omitted() {
    let data = vec![
        MachineEntry {
            machine: machine("alice", "ops", Some(22), Some(Ipv4::new(10, 8, 0, 2))),
            addresses: vec![addr("office", "10.1.1.1", Some(22))],
        },
        MachineEntry {
            // no linked network, no WireGuard address: no reachable endpoint
            machine: machine("dave", "ops", Some(22), None),
            addresses: vec![addr("lab", "192.168.9.10", Some(22))],
        },
        MachineEntry {
            // WireGuard address but no machine-level port: omitted as well
            machine: machine("erin", "ops", None, Some(Ipv4::new(10, 8, 0, 11))),
            addresses: vec![addr("lab", "192.168.9.11", None)],
        },
    ];
    let links = LinkMap::new(vec![]);
    let got = resolve_endpoints(&data, &"alice".to_string(), &links).unwrap();
    assert!(got.iter().all(|e| e.hostname != "dave"));
    assert!(got.iter().all(|e| e.hostname != "erin"));
}

#[test]
fn test_linked_network_beats_wireguard() {
    let data = vec![
        MachineEntry {
            machine: machine("alice", "ops", Some(22), Some(Ipv4::new(10, 8, 0, 2))),
            addresses: vec![addr("office", "10.1.1.1", Some(22))],
        },
        MachineEntry {
            machine: machine("bob", "ops", Some(4242), Some(Ipv4::new(10, 8, 0, 3))),
            addresses: vec![addr("public", "203.0.113.5", Some(2222))],
        },
    ];
    let links = LinkMap::new(vec![NetworkLink {
        name: "office".to_string(),
        other_network: "public".to_string(),
        priority: 1,
    }]);
    let got = resolve_endpoints(&data, &"alice".to_string(), &links).unwrap();
    let bob = got.iter().find(|e| e.hostname == "bob").unwrap();
    assert_eq!(bob.address, "203.0.113.5");
    assert_eq!(bob.port, 2222);
}

#[test]
fn test_end_to_end_wireguard_fallback_scenario() {
    // alice and bob share no linked network, so bob is reached over
    // WireGuard with his machine-level port, not his public address.
    let data = vec![
        MachineEntry {
            machine: machine("alice", "ops", Some(22), Some(Ipv4::new(10, 8, 0, 2))),
            addresses: vec![addr("office", "10.1.1.1", Some(22))],
        },
        MachineEntry {
            machine: machine("bob", "ops", Some(4242), Some(Ipv4::new(10, 8, 0, 3))),
            addresses: vec![addr("public", "203.0.113.5", Some(2222))],
        },
    ];
    let links = LinkMap::new(vec![]);
    let got = resolve_endpoints(&data, &"alice".to_string(), &links).unwrap();
    let bob = got.iter().find(|e| e.hostname == "bob").unwrap();
    assert_eq!(bob.address, "10.8.0.3");
    assert_eq!(bob.port, 4242);
    assert!(bob.address != "203.0.113.5");
}

#[test]
fn test_render_ssh_config_exact_text() {
    let endpoints = vec![Endpoint {
        hostname: "bob".to_string(),
        owner: "ops".to_string(),
        address: "10.8.0.3".to_string(),
        port: 4242,
    }];
    let got = render_ssh_config("alice", &endpoints);
    let expected = "# infrabase-generated SSH config for alice\n\n\
                    # owner: ops\n\
                    Host bob\n\
                    \x20 HostName 10.8.0.3\n\
                    \x20 Port 4242\n\n";
    assert_eq!(got, expected);
}

#[test]
fn test_group_by_machine_keeps_order() {
    let machines = vec![
        machine("alice", "ops", Some(22), None),
        machine("bob", "ops", Some(22), None),
    ];
    let rows = vec![
        AddressRecord { hostname: "bob".to_string(), address: addr("public", "203.0.113.5", None) },
        AddressRecord { hostname: "alice".to_string(), address: addr("office", "10.1.1.1", None) },
        AddressRecord { hostname: "bob".to_string(), address: addr("lab", "192.168.0.5", None) },
    ];
    let entries = group_by_machine(&machines, &rows);
    assert_eq!(entries.len(), 2);
    assert_eq!(entries[0].machine.hostname, "alice");
    assert_eq!(entries[0].addresses, vec![addr("office", "10.1.1.1", None)]);
    assert_eq!(entries[1].machine.hostname, "bob");
    assert_eq!(
        entries[1].addresses,
        vec![addr("public", "203.0.113.5", None), addr("lab", "192.168.0.5", None)]
    );
}
