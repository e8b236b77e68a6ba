use infrabase::errors::Error;
use infrabase::ip::Ipv4;
use infrabase::machines::{existing_wireguard_ips, format_provider, format_wireguard_ip, Machine};
use infrabase::provision::{plan_add, with_pubkey, AddRequest, EnvConfig};
use infrabase::template::render_path_template;
use infrabase::text::{parse_decimal, parse_port, str_eq, u32_to_string};

fn request(hostname: &str) -> AddRequest {
    AddRequest {
        hostname: hostname.to_string(),
        owner: None,
        ssh_port: None,
        ssh_user: None,
        wireguard_ip: None,
        wireguard_pubkey: None,
        provider: None,
    }
}

fn full_env() -> EnvConfig {
    EnvConfig {
        wireguard_ip_start: Some("10.8.0.1".to_string()),
        wireguard_ip_end: Some("10.8.0.250".to_string()),
        wireguard_private_key_path_template: Some(
            "/etc/wireguard/{hostname}-{wireguard_ip}.key".to_string(),
        ),
        default_ssh_port: Some("22".to_string()),
        default_ssh_user: Some("admin".to_string()),
        default_owner: Some("ops".to_string()),
        default_provider: Some("7".to_string()),
    }
}

fn var_err(var: &str) -> Error {
    Error::Var { var: var.to_string() }
}

#[test]
fn test_plan_add_uses_defaults_and_allocates() {
    let existing = vec![Ipv4::new(10, 8, 0, 1)];
    let plan = plan_add(&request("frank"), &full_env(), &existing).unwrap();
    assert_eq!(plan.machine.hostname, "frank");
    assert_eq!(plan.machine.owner, "ops");
    assert_eq!(plan.machine.ssh_user, Some("admin".to_string()));
    assert_eq!(plan.machine.ssh_port, Some(22));
    assert_eq!(plan.machine.wireguard_ip, Some(Ipv4::new(10, 8, 0, 2)));
    assert_eq!(plan.machine.provider_id, Some(7));
    assert_eq!(plan.machine.wireguard_pubkey, None);
    assert_eq!(
        plan.private_key_path,
        Some("/etc/wireguard/frank-10.8.0.2.key".to_string())
    );
}

#[test]
fn test_plan_add_explicit_values_win() {
    let mut req = request("grace");
    req.owner = Some("alice".to_string());
    req.ssh_port = Some(2222);
    req.ssh_user = Some("root".to_string());
    req.wireguard_ip = Some(Ipv4::new(10, 8, 0, 77));
    req.wireguard_pubkey = Some("PUBKEY".to_string());
    req.provider = Some(3);
    let plan = plan_add(&req, &full_env(), &vec![]).unwrap();
    assert_eq!(plan.machine.owner, "alice");
    assert_eq!(plan.machine.ssh_port, Some(2222));
    assert_eq!(plan.machine.ssh_user, Some("root".to_string()));
    assert_eq!(plan.machine.wireguard_ip, Some(Ipv4::new(10, 8, 0, 77)));
    assert_eq!(plan.machine.wireguard_pubkey, Some("PUBKEY".to_string()));
    assert_eq!(plan.machine.provider_id, Some(3));
    // a supplied public key means no keypair is generated, so no key path
    assert_eq!(plan.private_key_path, None);
}

#[test]
fn test_plan_add_missing_and_malformed_configuration() {
    let mut env = full_env();
    env.wireguard_ip_start = None;
    assert_eq!(plan_add(&request("h"), &env, &vec![]), Err(var_err("WIREGUARD_IP_START")));

    let mut env = full_env();
    env.wireguard_ip_start = Some("10.8.0".to_string());
    assert_eq!(
        plan_add(&request("h"), &env, &vec![]),
        Err(Error::AddrParse { var: "WIREGUARD_IP_START".to_string() })
    );

    let mut env = full_env();
    env.wireguard_ip_end = None;
    assert_eq!(plan_add(&request("h"), &env, &vec![]), Err(var_err("WIREGUARD_IP_END")));

    let mut env = full_env();
    env.wireguard_ip_end = Some("nope".to_string());
    assert_eq!(
        plan_add(&request("h"), &env, &vec![]),
        Err(Error::AddrParse { var: "WIREGUARD_IP_END".to_string() })
    );

    let mut env = full_env();
    env.wireguard_private_key_path_template = None;
    assert_eq!(
        plan_add(&request("h"), &env, &vec![]),
        Err(var_err("WIREGUARD_PRIVATE_KEY_PATH_TEMPLATE"))
    );

    let mut env = full_env();
    env.default_ssh_port = None;
    assert_eq!(plan_add(&request("h"), &env, &vec![]), Err(var_err("DEFAULT_SSH_PORT")));

    let mut env = full_env();
    env.default_ssh_port = Some("70000".to_string());
    assert_eq!(
        plan_add(&request("h"), &env, &vec![]),
        Err(Error::ParseInt { var: "DEFAULT_SSH_PORT".to_string() })
    );

    let mut env = full_env();
    env.default_ssh_user = None;
    assert_eq!(plan_add(&request("h"), &env, &vec![]), Err(var_err("DEFAULT_SSH_USER")));

    let mut env = full_env();
    env.default_owner = None;
    assert_eq!(plan_add(&request("h"), &env, &vec![]), Err(var_err("DEFAULT_OWNER")));

    let mut env = full_env();
    env.default_provider = Some("many".to_string());
    assert_eq!(
        plan_add(&request("h"), &env, &vec![]),
        Err(Error::ParseInt { var: "DEFAULT_PROVIDER".to_string() })
    );
}

#[test]
fn test_plan_add_unset_provider_stays_unset() {
    let mut env = full_env();
    env.default_provider = None;
    let plan = plan_add(&request("h"), &env, &vec![]).unwrap();
    assert_eq!(plan.machine.provider_id, None);
}

#[test]
fn test_plan_add_range_exhausted() {
    let mut env = full_env();
    env.wireguard_ip_start = Some("10.8.0.1".to_string());
    env.wireguard_ip_end = Some("10.8.0.2".to_string());
    let existing = vec![Ipv4::new(10, 8, 0, 1), Ipv4::new(10, 8, 0, 2)];
    assert_eq!(
        plan_add(&request("h"), &env, &existing),
        Err(Error::NoWireGuardAddressAvailable {
            start: Ipv4::new(10, 8, 0, 1),
            end: Ipv4::new(10, 8, 0, 2),
        })
    );
}

#[test]
fn test_plan_add_bad_template_is_format_error() {
    let mut env = full_env();
    env.wireguard_private_key_path_template = Some("/keys/{hostnme}.key".to_string());
    assert_eq!(plan_add(&request("h"), &env, &vec![]), Err(Error::FormatString));
}

#[test]
fn test_with_pubkey_completes_plan() {
    let plan = plan_add(&request("frank"), &full_env(), &vec![]).unwrap();
    let machine: Machine = with_pubkey(plan.machine, "GENERATED".to_string());
    assert_eq!(machine.wireguard_pubkey, Some("GENERATED".to_string()));
    assert_eq!(machine.hostname, "frank");
}

#[test]
fn test_render_path_template() {
    let ip = Ipv4::new(10, 8, 0, 5);
    assert_eq!(
        render_path_template("/keys/{hostname}-{wireguard_ip}.key", "bob", ip),
        Ok("/keys/bob-10.8.0.5.key".to_string())
    );
    assert_eq!(
        render_path_template("{{literal}} {hostname}", "bob", ip),
        Ok("{literal} bob".to_string())
    );
    assert_eq!(render_path_template("plain/path.key", "bob", ip), Ok("plain/path.key".to_string()));
    assert_eq!(render_path_template("/keys/{host}.key", "bob", ip), Err(Error::FormatString));
    assert_eq!(render_path_template("/keys/{hostname", "bob", ip), Err(Error::FormatString));
    assert_eq!(render_path_template("dangling}", "bob", ip), Err(Error::FormatString));
    assert_eq!(render_path_template("closed}}", "bob", ip), Ok("closed}".to_string()));
}

#[test]
fn test_formatting_helpers() {
    assert_eq!(format_wireguard_ip(&Some(Ipv4::new(10, 8, 0, 2))), "10.8.0.2");
    assert_eq!(format_wireguard_ip(&None), "-");
    assert_eq!(format_provider(Some(12)), "12");
    assert_eq!(format_provider(Some(-3)), "-3");
    assert_eq!(format_provider(None), "-");
    assert_eq!(u32_to_string(0), "0");
    assert_eq!(u32_to_string(65535), "65535");
    assert_eq!(u32_to_string(4294967295), "4294967295");
}

#[test]
fn test_parsing_helpers() {
    assert_eq!(parse_port("22"), Some(22));
    assert_eq!(parse_port("0022"), Some(22));
    assert_eq!(parse_port("65535"), Some(65535));
    assert_eq!(parse_port("65536"), None);
    assert_eq!(parse_port(""), None);
    assert_eq!(parse_port("2a"), None);
    assert_eq!(parse_port("-1"), None);
    assert_eq!(parse_decimal("2147483647", 2147483647), Some(2147483647));
    assert_eq!(parse_decimal("2147483648", 2147483647), None);
    assert!(str_eq("abc", "abc"));
    assert!(!str_eq("abc", "abd"));
    assert!(!str_eq("abc", "ab"));
}

#[test]
fn test_existing_wireguard_ips_filters() {
    let machines = vec![
        Machine {
            hostname: "a".to_string(),
            owner: "o".to_string(),
            ssh_user: None,
            ssh_port: None,
            wireguard_ip: Some(Ipv4::new(10, 8, 0, 2)),
            wireguard_pubkey: None,
            provider_id: None,
        },
        Machine {
            hostname: "b".to_string(),
            owner: "o".to_string(),
            ssh_user: None,
            ssh_port: None,
            wireguard_ip: None,
            wireguard_pubkey: None,
            provider_id: None,
        },
        Machine {
            hostname: "c".to_string(),
            owner: "o".to_string(),
            ssh_user: None,
            ssh_port: None,
            wireguard_ip: Some(Ipv4::new(10, 8, 0, 4)),
            wireguard_pubkey: None,
            provider_id: None,
        },
    ];
    assert_eq!(
        existing_wireguard_ips(&machines),
        vec![Ipv4::new(10, 8, 0, 2), Ipv4::new(10, 8, 0, 4)]
    );
}
