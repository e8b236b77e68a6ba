//! The address resolver: for a chosen source machine, picks the address and
//! port to reach every machine of the inventory, ranking shared networks
//! through the priority graph and falling back to the WireGuard address.

use vstd::prelude::*;

use crate::errors::Error;
use crate::ip::ipv4_seq;
use crate::links::{best_link_spec, link_choice_view, networks_of, networks_of_spec, LinkMap};
use crate::machines::{MachineAddress, MachineEntry};

verus! {

/// A resolved connection endpoint for one machine.
#[derive(Clone, Debug, PartialEq, Eq)]
pub struct Endpoint {
    pub hostname: String,
    pub owner: String,
    pub address: String,
    pub port: u16,
}

/// What an endpoint says: hostname, owner, address text, and port.
pub open spec fn endpoint_view(e: Endpoint) -> (Seq<char>, Seq<char>, Seq<char>, u16) {
    (e.hostname@, e.owner@, e.address@, e.port)
}

pub open spec fn endpoints_view(s: Seq<Endpoint>) -> Seq<(Seq<char>, Seq<char>, Seq<char>, u16)> {
    s.map_values(|e: Endpoint| endpoint_view(e))
}

/// The first of a machine's addresses lying on the given network; machines
/// are expected to hold one address per network, and if the inventory holds
/// more, the earliest is the one consulted.
pub open spec fn first_addr_on(addrs: Seq<MachineAddress>, network: String) -> Option<
    MachineAddress,
>
    decreases addrs.len(),
{
    if addrs.len() == 0 {
        None
    } else if addrs[0].network@ == network@ {
        Some(addrs[0])
    } else {
        first_addr_on(addrs.skip(1), network)
    }
}

/// The endpoint resolved for one machine: the address it holds on the best
/// linked network with that address's own port, or, with no linked network,
/// its WireGuard address with its machine-level port; no endpoint when
/// either part is missing.
pub open spec fn endpoint_for(
    entry: MachineEntry,
    src_nets: Seq<String>,
    m: Map<(Seq<char>, Seq<char>), int>,
) -> Option<(Seq<char>, Seq<char>, Seq<char>, u16)> {
    let choice = best_link_spec(m, src_nets, networks_of_spec(entry.addresses@));
    let pick = match choice {
        Some(t) => match first_addr_on(entry.addresses@, t.1) {
            Some(a) => (Some(a.address@), a.ssh_port),
            None => (None, None),
        },
        None => (
            match entry.machine.wireguard_ip {
                Some(ip) => Some(ipv4_seq(ip)),
                None => None,
            },
            entry.machine.ssh_port,
        ),
    };
    match pick {
        (Some(addr), Some(port)) => Some(
            (entry.machine.hostname@, entry.machine.owner@, addr, port),
        ),
        _ => None,
    }
}

/// The endpoints of a whole inventory, in inventory order, machines without
/// a resolvable endpoint omitted.
pub open spec fn resolve_spec(
    data: Seq<MachineEntry>,
    src_nets: Seq<String>,
    m: Map<(Seq<char>, Seq<char>), int>,
) -> Seq<(Seq<char>, Seq<char>, Seq<char>, u16)>
    decreases data.len(),
{
    if data.len() == 0 {
        Seq::empty()
    } else {
        resolve_spec(data.drop_last(), src_nets, m) + (match endpoint_for(
            data.last(),
            src_nets,
            m,
        ) {
            Some(t) => seq![t],
            None => Seq::empty(),
        })
    }
}

/// The index of the first address on `network`, as `first_addr_on` picks it.
fn first_addr_index(addrs: &Vec<MachineAddress>, network: &String) -> (r: Option<usize>)
    ensures
        match r {
            Some(idx) => idx < addrs@.len() && first_addr_on(addrs@, *network) == Some(
                addrs@[idx as int],
            ),
            None => first_addr_on(addrs@, *network) is None,
        },
{
    let mut i: usize = 0;
    proof {
        assert(addrs@.skip(0) =~= addrs@);
    }
    while i < addrs.len()
        invariant
            i <= addrs@.len(),
            first_addr_on(addrs@, *network) == first_addr_on(addrs@.skip(i as int), *network),
        decreases addrs@.len() - i,
    {
        if addrs[i].network == *network {
            proof {
                assert(addrs@.skip(i as int)[0] == addrs@[i as int]);
            }
            return Some(i);
        }
        i += 1;
        proof {
            assert(addrs@.skip(i - 1)[0] == addrs@[i - 1]);
            assert(addrs@.skip(i - 1).skip(1) =~= addrs@.skip(i as int));
        }
    }
    proof {
        assert(addrs@.skip(addrs@.len() as int) =~= Seq::<MachineAddress>::empty());
    }
    None
}

/// The index of the first machine with the given hostname.
fn find_source(data: &Vec<MachineEntry>, hostname: &String) -> (r: Option<usize>)
    ensures
        match r {
            Some(k) => k < data@.len() && data@[k as int].machine.hostname@ == hostname@ && (
            forall|j: int| 0 <= j < k ==> #[trigger] data@[j].machine.hostname@ != hostname@),
            None => forall|k: int|
                0 <= k < data@.len() ==> #[trigger] data@[k].machine.hostname@ != hostname@,
        },
{
    let mut i: usize = 0;
    while i < data.len()
        invariant
            i <= data@.len(),
            forall|j: int| 0 <= j < i ==> #[trigger] data@[j].machine.hostname@ != hostname@,
        decreases data@.len() - i,
    {
        if data[i].machine.hostname == *hostname {
            return Some(i);
        }
        i += 1;
    }
    None
}

/// Resolves an endpoint for every machine of the inventory, from the first
/// machine named `source_hostname`. Fails exactly when no machine has that
/// hostname, naming it; machines without a resolvable endpoint are omitted,
/// which is a designed outcome, not an error.
pub fn resolve_endpoints(
    data: &Vec<MachineEntry>,
    source_hostname: &String,
    links: &LinkMap,
) -> (r: Result<Vec<Endpoint>, Error>)
    ensures
        (r is Err) == (forall|k: int|
            0 <= k < data@.len() ==> #[trigger] data@[k].machine.hostname@ != source_hostname@),
        r matches Err(e) ==> (e matches Error::MissingSourceMachine { source_machine }
            && source_machine@ == source_hostname@),
        r matches Ok(eps) ==> exists|k: int|
            0 <= k < data@.len() && (#[trigger] data@[k].machine.hostname@) == source_hostname@
                && (forall|j: int|
                0 <= j < k ==> #[trigger] data@[j].machine.hostname@ != source_hostname@)
                && endpoints_view(eps@) == resolve_spec(
                data@,
                networks_of_spec(data@[k].addresses@),
                links@,
            ),
{
    let k = match find_source(data, source_hostname) {
        Some(k) => k,
        None => {
            return Err(Error::MissingSourceMachine { source_machine: source_hostname.clone() });
        },
    };
    let src_nets = networks_of(&data[k].addresses);
    let mut out: Vec<Endpoint> = Vec::new();
    let mut i: usize = 0;
    while i < data.len()
        invariant
            i <= data@.len(),
            k < data@.len(),
            data@[k as int].machine.hostname@ == source_hostname@,
            forall|j: int| 0 <= j < k ==> #[trigger] data@[j].machine.hostname@ != source_hostname@,
            src_nets@ == networks_of_spec(data@[k as int].addresses@),
            endpoints_view(out@) == resolve_spec(data@.subrange(0, i as int), src_nets@, links@),
        decreases data@.len() - i,
    {
        let entry = &data[i];
        let dst_nets = networks_of(&entry.addresses);
        let choice = links.best_link(&src_nets, &dst_nets);
        let mut addr: Option<String> = None;
        let mut port: Option<u16> = None;
        match choice {
            Some(t) => {
                match first_addr_index(&entry.addresses, &t.1) {
                    Some(ai) => {
                        addr = Some(entry.addresses[ai].address.clone());
                        port = entry.addresses[ai].ssh_port;
                    },
                    None => {},
                }
            },
            None => {
                match &entry.machine.wireguard_ip {
                    Some(ip) => {
                        addr = Some(ip.to_text());
                    },
                    None => {},
                }
                port = entry.machine.ssh_port;
            },
        }
        let ghost old_out = out@;
        match (addr, port) {
            (Some(a), Some(p)) => {
                out.push(
                    Endpoint {
                        hostname: entry.machine.hostname.clone(),
                        owner: entry.machine.owner.clone(),
                        address: a,
                        port: p,
                    },
                );
            },
            _ => {},
        }
        i += 1;
        proof {
            let pre = data@.subrange(0, i - 1);
            let now = data@.subrange(0, i as int);
            assert(now.drop_last() =~= pre);
            assert(now.last() == data@[i - 1]);
            match endpoint_for(data@[i - 1], src_nets@, links@) {
                Some(t) => {
                    assert(out@ == old_out.push(out@.last()));
                    assert(endpoints_view(out@) =~= endpoints_view(old_out).push(
                        endpoint_view(out@.last()),
                    ));
                    assert(endpoint_view(out@.last()) == t);
                    assert(endpoints_view(out@) =~= resolve_spec(now, src_nets@, links@));
                },
                None => {
                    assert(out@ == old_out);
                    assert(endpoints_view(out@) =~= resolve_spec(now, src_nets@, links@));
                },
            }
        }
    }
    proof {
        assert(data@.subrange(0, data@.len() as int) =~= data@);
    }
    Ok(out)
}

} // verus!
