use arm_hypervisor::models::CreateBridgeRequest;
use arm_hypervisor::network::{BridgeManager, FirewallManager, NetworkError, VlanManager};
use arm_hypervisor::shell::{invoke, prefixed, Invocation, Step};

fn strings(list: &[&str]) -> Vec<String> {
    list.iter().map(|s| s.to_string()).collect()
}

fn shown(command: &Invocation) -> String {
    format!("{} {}", command.program, command.args.join(" "))
}

fn plan(steps: &[Step]) -> Vec<(String, bool)> {
    steps.iter().map(|s| (shown(&s.invocation), s.must_succeed)).collect()
}

#[test]
fn test_bridge_creation_request_validation() {
    let request = CreateBridgeRequest {
        name: "test-bridge".to_string(),
        ip_address: Some("192.168.1.1/24".to_string()),
        stp_enabled: true,
    };

    assert_eq!(request.name, "test-bridge");
    assert!(request.ip_address.is_some());
    assert!(request.stp_enabled);
}

#[test]
fn test_bridge_name_validation() {
    let valid_names = vec!["br0", "lxcbr0", "docker0", "test-bridge"];
    for name in valid_names {
        assert!(is_valid_bridge_name(name), "Bridge name '{}' should be valid", name);
    }

    let invalid_names = vec![
        "",
        "br0.",
        ".br0",
        "br 0",
        "BR0",
        "bridge-name-that-is-way-too-long-for-linux-interfaces",
    ];
    for name in invalid_names {
        assert!(!is_valid_bridge_name(name), "Bridge name '{}' should be invalid", name);
    }
}

#[test]
fn test_ip_address_validation() {
    let valid_ips = vec!["192.168.1.1/24", "10.0.0.1/8", "172.16.0.1/16", "fd00::1/64"];
    for ip in valid_ips {
        assert!(is_valid_ip_address(ip), "IP address '{}' should be valid", ip);
    }

    let invalid_ips = vec!["192.168.1.1", "192.168.1.256/24", "not.an.ip/24", "192.168.1.1/33"];
    for ip in invalid_ips {
        assert!(!is_valid_ip_address(ip), "IP address '{}' should be invalid", ip);
    }
}

#[test]
fn test_vlan_id_validation() {
    // Valid VLAN IDs (1-4094)
    assert!(is_valid_vlan_id(1));
    assert!(is_valid_vlan_id(100));
    assert!(is_valid_vlan_id(4094));

    // Invalid VLAN IDs
    assert!(!is_valid_vlan_id(0));
    assert!(!is_valid_vlan_id(4095));
    assert!(!is_valid_vlan_id(4095));
}

// Helper functions for validation
fn is_valid_bridge_name(name: &str) -> bool {
    if name.is_empty() || name.len() > 15 {
        return false;
    }

    // Must start with letter
    if !name.chars().next().unwrap_or('_').is_ascii_alphabetic() {
        return false;
    }

    // Can only contain lowercase letters, numbers, and hyphens
    name.chars().all(|c| c.is_ascii_lowercase() || c.is_ascii_digit() || c == '-')
}

fn is_valid_ip_address(ip: &str) -> bool {
    if !ip.contains('/') {
        return false;
    }

    let parts: Vec<&str> = ip.split('/').collect();
    if parts.len() != 2 {
        return false;
    }

    // Basic IPv4 validation
    let addr_parts: Vec<&str> = parts[0].split('.').collect();
    if addr_parts.len() == 4 {
        for part in addr_parts {
            if let Ok(num) = part.parse::<u16>() {
                if num > 255 {
                    return false;
                }
            } else {
                return false;
            }
        }

        // Check prefix length
        if let Ok(prefix) = parts[1].parse::<u8>() {
            return prefix <= 32;
        }
    }

    // Basic IPv6 validation (simplified)
    if parts[0].contains(':') {
        if let Ok(prefix) = parts[1].parse::<u8>() {
            return prefix <= 128;
        }
    }

    false
}

fn is_valid_vlan_id(vlan_id: u16) -> bool {
    (1..=4094).contains(&vlan_id)
}

#[test]
fn bridges_are_created_step_by_step() {
    let full = CreateBridgeRequest {
        name: "br9".to_string(),
        ip_address: Some("10.0.0.1/24".to_string()),
        stp_enabled: true,
    };
    assert_eq!(
        plan(&BridgeManager::create_plan(&full)),
        vec![
            ("ip link add name br9 type bridge".to_string(), true),
            ("ip link set br9 type bridge stp on".to_string(), false),
            ("ip link set br9 up".to_string(), true),
            ("ip addr add 10.0.0.1/24 dev br9".to_string(), true),
        ]
    );
    let bare = CreateBridgeRequest { name: "br9".to_string(), ip_address: None, stp_enabled: false };
    assert_eq!(
        plan(&BridgeManager::create_plan(&bare)),
        vec![("ip link add name br9 type bridge".to_string(), true), ("ip link set br9 up".to_string(), true)]
    );
    let bridge = BridgeManager::created(full);
    assert_eq!(bridge.name, "br9");
    assert!(bridge.interfaces.is_empty());
    assert_eq!(bridge.ip_address.as_deref(), Some("10.0.0.1/24"));
    assert!(bridge.stp_enabled);
    assert_eq!(
        plan(&BridgeManager::delete_plan("br9")),
        vec![("ip link set br9 down".to_string(), false), ("ip link delete br9".to_string(), true)]
    );
    assert_eq!(shown(&BridgeManager::exists_command("br9")), "ip link show br9");
    assert_eq!(shown(&BridgeManager::list_command()), "ip -br link show type bridge");
    assert_eq!(shown(&BridgeManager::add_interface_command("br9", "veth1")), "ip link set veth1 master br9");
    assert_eq!(shown(&BridgeManager::remove_interface_command("veth1")), "ip link set veth1 nomaster");
    assert_eq!(shown(&invoke("ls", &["-l", "/"])), "ls -l /");
}

#[test]
fn bridge_lists_are_parsed() {
    let output = "lxcbr0           UP             00:16:3e:00:00:00 <BROADCAST,MULTICAST,UP,LOWER_UP>\n\n  br1   DOWN\n \t \nbr2";
    assert_eq!(BridgeManager::parse_list(output), strings(&["lxcbr0", "br1", "br2"]));
    assert!(BridgeManager::parse_list("").is_empty());
}

#[test]
fn firewall_rules_are_commands() {
    let rule = strings(&["-s", "10.0.0.0/8", "-j", "DROP"]);
    assert_eq!(shown(&FirewallManager::add_rule_command("INPUT", &rule)), "iptables -A INPUT -s 10.0.0.0/8 -j DROP");
    assert_eq!(
        shown(&FirewallManager::delete_rule_command("INPUT", &rule)),
        "iptables -D INPUT -s 10.0.0.0/8 -j DROP"
    );
    assert_eq!(shown(&FirewallManager::add_rule_command("X", &vec![])), "iptables -A X");
    let (incoming, outgoing) = FirewallManager::allow_container_interface("veth7");
    assert_eq!(shown(&incoming), "iptables -A FORWARD -i veth7 -j ACCEPT");
    assert_eq!(shown(&outgoing), "iptables -A FORWARD -o veth7 -j ACCEPT");
    let (incoming, outgoing) = FirewallManager::block_container_interface("veth7");
    assert_eq!(shown(&incoming), "iptables -D FORWARD -i veth7 -j ACCEPT");
    assert_eq!(shown(&outgoing), "iptables -D FORWARD -o veth7 -j ACCEPT");
}

#[test]
fn vlans_are_named_and_created() {
    assert_eq!(VlanManager::vlan_name("eth0", 100, None), "eth0.100");
    assert_eq!(VlanManager::vlan_name("eth0", 0, None), "eth0.0");
    assert_eq!(VlanManager::vlan_name("eth0", 65535, None), "eth0.65535");
    assert_eq!(VlanManager::vlan_name("eth0", 100, Some("office")), "office");
    let (add, up) = VlanManager::create_commands("eth0", 4094, "eth0.4094");
    assert_eq!(shown(&add), "ip link add link eth0 name eth0.4094 type vlan id 4094");
    assert_eq!(shown(&up), "ip link set eth0.4094 up");
    assert_eq!(shown(&VlanManager::delete_command("eth0.100")), "ip link delete eth0.100");
}

#[test]
fn network_errors_are_rendered() {
    let cases = vec![
        (NetworkError::InterfaceNotFound("a".to_string()), "Interface not found: a", 500),
        (NetworkError::BridgeExists("a".to_string()), "Bridge already exists: a", 409),
        (NetworkError::OperationFailed("a".to_string()), "Network operation failed: a", 500),
        (NetworkError::Io("a".to_string()), "IO error: a", 500),
        (NetworkError::CommandFailed("a".to_string()), "Command execution failed: a", 500),
        (NetworkError::Generic("a".to_string()), "Generic error: a", 500),
    ];
    for (error, text, status) in cases {
        assert_eq!(error.message(), text);
        assert_eq!(error.status_code(), status);
    }
    assert_eq!(prefixed("a: ", "b"), "a: b");
}
