//! The inventory's records: machines, their per-network addresses, and
//! providers, together with the small pure functions over them.

use vstd::prelude::*;

use crate::ip::{ipv4_seq, Ipv4};
use crate::text::{dec_rep, u32_to_string};

verus! {

/// A machine's presence on one named network: the address to reach it at
/// there, and an optional port overriding the machine-level SSH port.
#[derive(Clone, Debug, PartialEq, Eq)]
pub struct MachineAddress {
    pub network: String,
    pub address: String,
    pub ssh_port: Option<u16>,
}

/// One machine of the inventory, keyed by hostname.
#[derive(Clone, Debug, PartialEq, Eq)]
pub struct Machine {
    pub hostname: String,
    pub owner: String,
    pub ssh_user: Option<String>,
    pub ssh_port: Option<u16>,
    pub wireguard_ip: Option<Ipv4>,
    pub wireguard_pubkey: Option<String>,
    pub provider_id: Option<i32>,
}

/// A machine together with all its network addresses, as one inventory load
/// returns it.
#[derive(Clone, Debug, PartialEq, Eq)]
pub struct MachineEntry {
    pub machine: Machine,
    pub addresses: Vec<MachineAddress>,
}

/// A hosting provider: lookup data only.
#[derive(Clone, Debug, PartialEq, Eq)]
pub struct Provider {
    pub id: i32,
    pub name: String,
    pub email: String,
}

/// One loaded address row: the machine it belongs to, and its address on
/// one network.
#[derive(Clone, Debug, PartialEq, Eq)]
pub struct AddressRecord {
    pub hostname: String,
    pub address: MachineAddress,
}

/// The addresses belonging to the machine with the given hostname, in row
/// order.
pub open spec fn addresses_of(rows: Seq<AddressRecord>, hostname: Seq<char>) -> Seq<MachineAddress>
    decreases rows.len(),
{
    if rows.len() == 0 {
        Seq::empty()
    } else {
        addresses_of(rows.drop_last(), hostname) + (if rows.last().hostname@ == hostname {
            seq![rows.last().address]
        } else {
            Seq::empty()
        })
    }
}

fn clone_opt_string(s: &Option<String>) -> (r: Option<String>)
    ensures
        r == *s,
{
    match s {
        Some(s) => Some(s.clone()),
        None => None,
    }
}

fn clone_machine(m: &Machine) -> (r: Machine)
    ensures
        r == *m,
{
    Machine {
        hostname: m.hostname.clone(),
        owner: m.owner.clone(),
        ssh_user: clone_opt_string(&m.ssh_user),
        ssh_port: m.ssh_port,
        wireguard_ip: m.wireguard_ip,
        wireguard_pubkey: clone_opt_string(&m.wireguard_pubkey),
        provider_id: m.provider_id,
    }
}

fn clone_address(a: &MachineAddress) -> (r: MachineAddress)
    ensures
        r == *a,
{
    MachineAddress {
        network: a.network.clone(),
        address: a.address.clone(),
        ssh_port: a.ssh_port,
    }
}

/// Collects the addresses belonging to the machine with the given hostname.
fn addresses_for(rows: &Vec<AddressRecord>, hostname: &String) -> (r: Vec<MachineAddress>)
    ensures
        r@ == addresses_of(rows@, hostname@),
{
    let mut out: Vec<MachineAddress> = Vec::new();
    let mut i: usize = 0;
    while i < rows.len()
        invariant
            i <= rows@.len(),
            out@ == addresses_of(rows@.subrange(0, i as int), hostname@),
        decreases rows@.len() - i,
    {
        if rows[i].hostname == *hostname {
            out.push(clone_address(&rows[i].address));
        }
        i += 1;
        proof {
            let pre = rows@.subrange(0, i - 1);
            let now = rows@.subrange(0, i as int);
            assert(now.drop_last() =~= pre);
            assert(now.last() == rows@[i - 1]);
            if rows@[i - 1].hostname@ == hostname@ {
                assert(out@ =~= addresses_of(pre, hostname@) + seq![rows@[i - 1].address]);
            } else {
                assert(out@ =~= addresses_of(pre, hostname@) + Seq::<MachineAddress>::empty());
            }
        }
    }
    proof {
        assert(rows@.subrange(0, rows@.len() as int) =~= rows@);
    }
    out
}

/// Pairs every machine with its addresses, as one inventory load returns
/// them: machines in machine order, each with its address rows in row order.
pub fn group_by_machine(machines: &Vec<Machine>, rows: &Vec<AddressRecord>) -> (r: Vec<
    MachineEntry,
>)
    ensures
        r@.len() == machines@.len(),
        forall|i: int|
            0 <= i < machines@.len() ==> (#[trigger] r@[i]).machine == machines@[i]
                && r@[i].addresses@ == addresses_of(rows@, machines@[i].hostname@),
{
    let mut out: Vec<MachineEntry> = Vec::new();
    let mut i: usize = 0;
    while i < machines.len()
        invariant
            i <= machines@.len(),
            out@.len() == i,
            forall|j: int|
                0 <= j < i ==> (#[trigger] out@[j]).machine == machines@[j]
                    && out@[j].addresses@ == addresses_of(rows@, machines@[j].hostname@),
        decreases machines@.len() - i,
    {
        let machine = clone_machine(&machines[i]);
        let addresses = addresses_for(rows, &machine.hostname);
        out.push(MachineEntry { machine, addresses });
        i += 1;
    }
    out
}

/// The WireGuard addresses of the machines that have one, in inventory
/// order.
pub open spec fn wireguard_ips_of(machines: Seq<Machine>) -> Seq<Ipv4>
    decreases machines.len(),
{
    if machines.len() == 0 {
        Seq::empty()
    } else {
        wireguard_ips_of(machines.drop_last()) + (match machines.last().wireguard_ip {
            Some(ip) => seq![ip],
            None => Seq::empty(),
        })
    }
}

/// Collects the WireGuard addresses already assigned to machines.
pub fn existing_wireguard_ips(machines: &Vec<Machine>) -> (r: Vec<Ipv4>)
    ensures
        r@ == wireguard_ips_of(machines@),
{
    let mut out: Vec<Ipv4> = Vec::new();
    let mut i: usize = 0;
    while i < machines.len()
        invariant
            i <= machines@.len(),
            out@ == wireguard_ips_of(machines@.subrange(0, i as int)),
        decreases machines@.len() - i,
    {
        match machines[i].wireguard_ip {
            Some(ip) => {
                out.push(ip);
            },
            None => {},
        }
        i += 1;
        proof {
            let pre = machines@.subrange(0, i - 1);
            let now = machines@.subrange(0, i as int);
            assert(now.drop_last() =~= pre);
            assert(now.last() == machines@[i - 1]);
            if machines@[i - 1].wireguard_ip is Some {
                assert(out@ =~= wireguard_ips_of(pre) + seq![
                    machines@[i - 1].wireguard_ip.unwrap(),
                ]);
            } else {
                assert(out@ =~= wireguard_ips_of(pre) + Seq::<Ipv4>::empty());
            }
        }
    }
    proof {
        assert(machines@.subrange(0, machines@.len() as int) =~= machines@);
    }
    out
}

/// The listing text for an optional WireGuard address: its dotted quad, or a
/// dash when the machine has none.
pub open spec fn wireguard_ip_text(ip: Option<Ipv4>) -> Seq<char> {
    match ip {
        Some(ip) => ipv4_seq(ip),
        None => seq!['-'],
    }
}

/// Renders an optional WireGuard address for the machine listing.
pub fn format_wireguard_ip(wireguard_ip: &Option<Ipv4>) -> (r: String)
    ensures
        r@ == wireguard_ip_text(*wireguard_ip),
{
    match wireguard_ip {
        Some(ip) => ip.to_text(),
        None => {
            let s = String::from_str("-");
            proof {
                reveal_strlit("-");
                assert(s@ =~= seq!['-']);
            }
            s
        },
    }
}

/// The listing text for an optional provider id: its decimal text, or a dash
/// when the machine has none.
pub open spec fn provider_text(provider: Option<i32>) -> Seq<char> {
    match provider {
        Some(p) => if p < 0 {
            seq!['-'] + dec_rep(-p as int)
        } else {
            dec_rep(p as int)
        },
        None => seq!['-'],
    }
}

/// Renders an optional provider id for the machine listing.
pub fn format_provider(provider: Option<i32>) -> (r: String)
    ensures
        r@ == provider_text(provider),
{
    match provider {
        Some(p) => {
            if p >= 0 {
                u32_to_string(p as u32)
            } else {
                let mut s = String::from_str("-");
                let m: u32 = (-(p as i64)) as u32;
                let t = u32_to_string(m);
                s.append(t.as_str());
                proof {
                    reveal_strlit("-");
                    assert(s@ =~= seq!['-'] + dec_rep(-p as int));
                }
                s
            }
        },
        None => {
            let s = String::from_str("-");
            proof {
                reveal_strlit("-");
                assert(s@ =~= seq!['-']);
            }
            s
        },
    }
}

} // verus!
