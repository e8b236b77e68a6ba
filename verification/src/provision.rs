//! Planning the addition of a machine: merging explicit values with
//! configured defaults, validating the configuration, allocating a WireGuard
//! address, and deriving the private-key file path. The plan holds every
//! decision; generating the keypair and writing the key file are left to the
//! caller, as is the insert.

use vstd::prelude::*;

use crate::allocator::{find_unused_ip, first_free_from, scan_end};
use crate::errors::Error;
use crate::ip::{ipv4_seq, lemma_ipv4_seq_injective, lemma_num_injective, parse_ipv4, Ipv4};
use crate::machines::Machine;
use crate::template::{render_path_template, subst};
use crate::text::{all_digits, dec_val, parse_decimal, parse_port};

verus! {

/// What an operator asks for when adding a machine; unset fields fall back
/// to configured defaults.
#[derive(Clone, Debug, PartialEq, Eq)]
pub struct AddRequest {
    pub hostname: String,
    pub owner: Option<String>,
    pub ssh_port: Option<u16>,
    pub ssh_user: Option<String>,
    pub wireguard_ip: Option<Ipv4>,
    pub wireguard_pubkey: Option<String>,
    pub provider: Option<u32>,
}

/// The configuration read from the environment, one raw value per variable,
/// `None` where a variable is unset. The core validates and parses these.
#[derive(Clone, Debug, PartialEq, Eq)]
pub struct EnvConfig {
    pub wireguard_ip_start: Option<String>,
    pub wireguard_ip_end: Option<String>,
    pub wireguard_private_key_path_template: Option<String>,
    pub default_ssh_port: Option<String>,
    pub default_ssh_user: Option<String>,
    pub default_owner: Option<String>,
    pub default_provider: Option<String>,
}

/// The decided shape of the new machine. `wireguard_pubkey` is `None`, and
/// `private_key_path` names the file for the fresh private key, exactly when
/// a keypair must still be generated.
#[derive(Clone, Debug, PartialEq, Eq)]
pub struct AddPlan {
    pub machine: Machine,
    pub private_key_path: Option<String>,
}

/// Whether a text is some address's canonical dotted quad.
pub open spec fn ipv4_text(s: Seq<char>) -> bool {
    exists|ip: Ipv4| s == ipv4_seq(ip)
}

/// Whether a text is a valid port number.
pub open spec fn port_text(s: Seq<char>) -> bool {
    s.len() >= 1 && all_digits(s) && dec_val(s) <= 0xFFFF
}

/// Whether a text is a valid provider id: a decimal fitting a 32-bit signed
/// record field.
pub open spec fn provider_id_text(s: Seq<char>) -> bool {
    s.len() >= 1 && all_digits(s) && dec_val(s) <= 0x7FFF_FFFF
}

/// Whether the configuration names the scan range `[sip, eip]`.
pub open spec fn env_range(env: EnvConfig, sip: Ipv4, eip: Ipv4) -> bool {
    match (env.wireguard_ip_start, env.wireguard_ip_end) {
        (Some(a), Some(b)) => a@ == ipv4_seq(sip) && b@ == ipv4_seq(eip),
        _ => false,
    }
}

/// Whether `ip` is the address the plan must hold: the requested one, or the
/// first free address of the configured range.
pub open spec fn planned_ip(
    req: AddRequest,
    existing: Seq<Ipv4>,
    sip: Ipv4,
    eip: Ipv4,
    ip: Ipv4,
) -> bool {
    match req.wireguard_ip {
        Some(given) => ip == given,
        None => first_free_from(existing, sip.num(), scan_end(sip, eip)) == Some(ip.num()),
    }
}

/// Whether an address must be allocated and the configured range has none
/// free.
pub open spec fn alloc_fails(req: AddRequest, env: EnvConfig, existing: Seq<Ipv4>) -> bool {
    req.wireguard_ip is None && (forall|sip: Ipv4, eip: Ipv4|
        #[trigger] env_range(env, sip, eip) ==> first_free_from(
            existing,
            sip.num(),
            scan_end(sip, eip),
        ) is None)
}

/// Whether a keypair must be generated and the path template does not accept
/// the planned address and hostname.
pub open spec fn template_fails(req: AddRequest, env: EnvConfig, existing: Seq<Ipv4>) -> bool {
    req.wireguard_pubkey is None && (forall|sip: Ipv4, eip: Ipv4, ip: Ipv4|
        #[trigger] env_range(env, sip, eip) && #[trigger] planned_ip(req, existing, sip, eip, ip)
            ==> subst(
            env.wireguard_private_key_path_template.unwrap()@,
            req.hostname@,
            ipv4_seq(ip),
        ) is None)
}

/// The checks of the add operation, in the order it makes them; planning
/// fails exactly when one of them does.
pub open spec fn plan_fails(req: AddRequest, env: EnvConfig, existing: Seq<Ipv4>) -> bool {
    ||| env.wireguard_ip_start is None
    ||| !ipv4_text(env.wireguard_ip_start.unwrap()@)
    ||| env.wireguard_ip_end is None
    ||| !ipv4_text(env.wireguard_ip_end.unwrap()@)
    ||| env.wireguard_private_key_path_template is None
    ||| (req.ssh_port is None && env.default_ssh_port is None)
    ||| (req.ssh_port is None && !port_text(env.default_ssh_port.unwrap()@))
    ||| (req.ssh_user is None && env.default_ssh_user is None)
    ||| (req.owner is None && env.default_owner is None)
    ||| (req.provider is None && env.default_provider is Some && !provider_id_text(
        env.default_provider.unwrap()@,
    ))
    ||| alloc_fails(req, env, existing)
    ||| template_fails(req, env, existing)
}

/// The error the first failing check reports.
pub open spec fn plan_err(req: AddRequest, env: EnvConfig, existing: Seq<Ipv4>, e: Error) -> bool {
    if env.wireguard_ip_start is None {
        e matches Error::Var { var } && var@ == "WIREGUARD_IP_START"@
    } else if !ipv4_text(env.wireguard_ip_start.unwrap()@) {
        e matches Error::AddrParse { var } && var@ == "WIREGUARD_IP_START"@
    } else if env.wireguard_ip_end is None {
        e matches Error::Var { var } && var@ == "WIREGUARD_IP_END"@
    } else if !ipv4_text(env.wireguard_ip_end.unwrap()@) {
        e matches Error::AddrParse { var } && var@ == "WIREGUARD_IP_END"@
    } else if env.wireguard_private_key_path_template is None {
        e matches Error::Var { var } && var@ == "WIREGUARD_PRIVATE_KEY_PATH_TEMPLATE"@
    } else if req.ssh_port is None && env.default_ssh_port is None {
        e matches Error::Var { var } && var@ == "DEFAULT_SSH_PORT"@
    } else if req.ssh_port is None && !port_text(env.default_ssh_port.unwrap()@) {
        e matches Error::ParseInt { var } && var@ == "DEFAULT_SSH_PORT"@
    } else if req.ssh_user is None && env.default_ssh_user is None {
        e matches Error::Var { var } && var@ == "DEFAULT_SSH_USER"@
    } else if req.owner is None && env.default_owner is None {
        e matches Error::Var { var } && var@ == "DEFAULT_OWNER"@
    } else if req.provider is None && env.default_provider is Some && !provider_id_text(
        env.default_provider.unwrap()@,
    ) {
        e matches Error::ParseInt { var } && var@ == "DEFAULT_PROVIDER"@
    } else if alloc_fails(req, env, existing) {
        e matches Error::NoWireGuardAddressAvailable { start, end } && ipv4_seq(start)
            == env.wireguard_ip_start.unwrap()@ && ipv4_seq(end) == env.wireguard_ip_end.unwrap()@
    } else if template_fails(req, env, existing) {
        e == Error::FormatString
    } else {
        false
    }
}

/// What a successful plan holds: each field the requested value, or the
/// configured default where none was requested; the planned address; and the
/// key path exactly when a keypair is still owed.
pub open spec fn plan_ok(req: AddRequest, env: EnvConfig, existing: Seq<Ipv4>, plan: AddPlan) -> bool {
    &&& plan.machine.hostname == req.hostname
    &&& (match req.owner {
        Some(o) => plan.machine.owner == o,
        None => env.default_owner matches Some(o) && plan.machine.owner == o,
    })
    &&& (match req.ssh_user {
        Some(u) => plan.machine.ssh_user == Some(u),
        None => env.default_ssh_user matches Some(u) && plan.machine.ssh_user == Some(u),
    })
    &&& (match req.ssh_port {
        Some(p) => plan.machine.ssh_port == Some(p),
        None => plan.machine.ssh_port matches Some(p) && p as int == dec_val(
            env.default_ssh_port.unwrap()@,
        ),
    })
    &&& (match req.provider {
        Some(p) => plan.machine.provider_id == Some(p as i32),
        None => match env.default_provider {
            Some(s) => plan.machine.provider_id matches Some(pid) && pid as int == dec_val(s@),
            None => plan.machine.provider_id is None,
        },
    })
    &&& (plan.machine.wireguard_ip matches Some(ip) && (forall|sip: Ipv4, eip: Ipv4|
        #[trigger] env_range(env, sip, eip) ==> planned_ip(req, existing, sip, eip, ip)))
    &&& (match req.wireguard_pubkey {
        Some(k) => plan.machine.wireguard_pubkey == Some(k) && plan.private_key_path is None,
        None => plan.machine.wireguard_pubkey is None && (plan.private_key_path matches Some(path)
            && subst(
            env.wireguard_private_key_path_template.unwrap()@,
            req.hostname@,
            ipv4_seq(plan.machine.wireguard_ip.unwrap()),
        ) == Some(path@)),
    })
}

/// Decides everything about a new machine: validates the configuration,
/// merges defaults, allocates or accepts a WireGuard address, and derives
/// the private-key path when a keypair must be generated. Read-only: the
/// caller inserts the machine and writes the key file.
pub fn plan_add(req: &AddRequest, env: &EnvConfig, existing: &Vec<Ipv4>) -> (r: Result<
    AddPlan,
    Error,
>)
    requires
        req.provider matches Some(p) ==> p <= 0x7FFF_FFFF,
    ensures
        (r is Err) == plan_fails(*req, *env, existing@),
        r matches Err(e) ==> plan_err(*req, *env, existing@, e),
        r matches Ok(plan) ==> plan_ok(*req, *env, existing@, plan),
{
    let start_s = match &env.wireguard_ip_start {
        Some(s) => s,
        None => {
            return Err(Error::Var { var: String::from_str("WIREGUARD_IP_START") });
        },
    };
    let start_ip = match parse_ipv4(start_s.as_str()) {
        Some(ip) => ip,
        None => {
            return Err(Error::AddrParse { var: String::from_str("WIREGUARD_IP_START") });
        },
    };
    let end_s = match &env.wireguard_ip_end {
        Some(s) => s,
        None => {
            return Err(Error::Var { var: String::from_str("WIREGUARD_IP_END") });
        },
    };
    let end_ip = match parse_ipv4(end_s.as_str()) {
        Some(ip) => ip,
        None => {
            return Err(Error::AddrParse { var: String::from_str("WIREGUARD_IP_END") });
        },
    };
    let template_s = match &env.wireguard_private_key_path_template {
        Some(s) => s,
        None => {
            return Err(Error::Var { var: String::from_str("WIREGUARD_PRIVATE_KEY_PATH_TEMPLATE") });
        },
    };
    let port: u16 = match req.ssh_port {
        Some(p) => p,
        None => match &env.default_ssh_port {
            None => {
                return Err(Error::Var { var: String::from_str("DEFAULT_SSH_PORT") });
            },
            Some(s) => match parse_port(s.as_str()) {
                Some(p) => p,
                None => {
                    return Err(Error::ParseInt { var: String::from_str("DEFAULT_SSH_PORT") });
                },
            },
        },
    };
    let user: String = match &req.ssh_user {
        Some(u) => u.clone(),
        None => match &env.default_ssh_user {
            Some(u) => u.clone(),
            None => {
                return Err(Error::Var { var: String::from_str("DEFAULT_SSH_USER") });
            },
        },
    };
    let owner: String = match &req.owner {
        Some(o) => o.clone(),
        None => match &env.default_owner {
            Some(o) => o.clone(),
            None => {
                return Err(Error::Var { var: String::from_str("DEFAULT_OWNER") });
            },
        },
    };
    let provider_id: Option<i32> = match req.provider {
        Some(p) => Some(p as i32),
        None => match &env.default_provider {
            Some(s) => match parse_decimal(s.as_str(), 0x7FFF_FFFF) {
                Some(v) => Some(v as i32),
                None => {
                    return Err(Error::ParseInt { var: String::from_str("DEFAULT_PROVIDER") });
                },
            },
            None => None,
        },
    };
    proof {
        assert(env_range(*env, start_ip, end_ip));
    }
    let ip: Ipv4 = match req.wireguard_ip {
        Some(ip) => ip,
        None => match find_unused_ip(existing, start_ip, end_ip) {
            Ok(ip) => ip,
            Err(e) => {
                proof {
                    assert forall|sip: Ipv4, eip: Ipv4| #[trigger]
                        env_range(*env, sip, eip) implies first_free_from(
                        existing@,
                        sip.num(),
                        scan_end(sip, eip),
                    ) is None by {
                        lemma_ipv4_seq_injective(sip, start_ip);
                        lemma_ipv4_seq_injective(eip, end_ip);
                    }
                }
                return Err(e);
            },
        },
    };
    proof {
        assert forall|sip: Ipv4, eip: Ipv4| #[trigger] env_range(*env, sip, eip) implies planned_ip(
            *req,
            existing@,
            sip,
            eip,
            ip,
        ) by {
            lemma_ipv4_seq_injective(sip, start_ip);
            lemma_ipv4_seq_injective(eip, end_ip);
        }
    }
    let (pubkey, key_path): (Option<String>, Option<String>) = match &req.wireguard_pubkey {
        Some(k) => (Some(k.clone()), None),
        None => match render_path_template(template_s.as_str(), req.hostname.as_str(), ip) {
            Ok(p) => (None, Some(p)),
            Err(_) => {
                proof {
                    assert(!alloc_fails(*req, *env, existing@));
                    assert forall|sip: Ipv4, eip: Ipv4, ip2: Ipv4| #[trigger]
                        env_range(*env, sip, eip) && #[trigger] planned_ip(
                        *req,
                        existing@,
                        sip,
                        eip,
                        ip2,
                    ) implies subst(
                        env.wireguard_private_key_path_template.unwrap()@,
                        req.hostname@,
                        ipv4_seq(ip2),
                    ) is None by {
                        lemma_ipv4_seq_injective(sip, start_ip);
                        lemma_ipv4_seq_injective(eip, end_ip);
                        if ip2.num() == ip.num() {
                            lemma_num_injective(ip2, ip);
                        }
                    }
                }
                return Err(Error::FormatString);
            },
        },
    };
    proof {
        assert(!alloc_fails(*req, *env, existing@));
        assert(!template_fails(*req, *env, existing@));
    }
    Ok(
        AddPlan {
            machine: Machine {
                hostname: req.hostname.clone(),
                owner,
                ssh_user: Some(user),
                ssh_port: Some(port),
                wireguard_ip: Some(ip),
                wireguard_pubkey: pubkey,
                provider_id,
            },
            private_key_path: key_path,
        },
    )
}

/// Completes a planned machine with the public key of a freshly generated
/// keypair.
pub fn with_pubkey(machine: Machine, pubkey: String) -> (r: Machine)
    ensures
        r.hostname == machine.hostname,
        r.owner == machine.owner,
        r.ssh_user == machine.ssh_user,
        r.ssh_port == machine.ssh_port,
        r.wireguard_ip == machine.wireguard_ip,
        r.provider_id == machine.provider_id,
        r.wireguard_pubkey == Some(pubkey),
{
    Machine { wireguard_pubkey: Some(pubkey), ..machine }
}

} // verus!
