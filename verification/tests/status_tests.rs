use rubypass::status::{collect, vpn_from_adapters, vpn_from_ip_link, vpn_from_netstat};

#[test]
fn status_from_findings() {
    let s = collect(
        true,
        Some("2024-01-01T00:00:00Z".to_string()),
        Ok("192.168.1.1".to_string()),
        Ok(vec!["1.0.0.0/8".to_string(), "2.0.0.0/8".to_string()]),
        &vec!["77.88.55.0/24".to_string(); 7],
        Some("utun3".to_string()),
    );
    assert_eq!(s.gateway.as_deref(), Some("192.168.1.1"));
    assert_eq!(s.subnet_count, 2);
    assert_eq!(s.active_routes, 7);
    assert_eq!(s.vpn_interface.as_deref(), Some("utun3"));
    assert_eq!(s.last_updated.as_deref(), Some("2024-01-01T00:00:00Z"));
    assert!(s.bypass_enabled);
    let s = collect(false, None, Err("x".to_string()), Err("y".to_string()), &vec!["1.0.0.0/8".to_string()], None);
    assert_eq!(s.gateway, None);
    assert_eq!(s.subnet_count, 0);
    assert_eq!(s.active_routes, 0);
}

#[test]
fn macos_vpn_from_netstat() {
    let text = "Destination Gateway Flags Netif\ndefault 192.168.1.1 UGScg en0\n0/1 10.8.0.1 UGSc utun4\n";
    assert_eq!(vpn_from_netstat(text), Some("utun4".to_string()));
    assert_eq!(vpn_from_netstat("default 192.168.1.1 UGScg en0\n"), None);
}

#[test]
fn linux_vpn_from_ip_link() {
    let text = "1: lo: <LOOPBACK,UP> mtu 65536\n2: eth0: <BROADCAST> mtu 1500\n5: tun0: <POINTOPOINT> mtu 1500\n";
    assert_eq!(vpn_from_ip_link(text), Some("tun0".to_string()));
    assert_eq!(vpn_from_ip_link("3: ppp0 up\n"), Some("ppp0 up".to_string()));
    assert_eq!(vpn_from_ip_link("ppp0 without a colon\n"), None);
    assert_eq!(vpn_from_ip_link("1: lo: <LOOPBACK>\n"), None);
}

#[test]
fn windows_vpn_from_adapters() {
    let adapters = vec![
        ("Intel(R) Ethernet".to_string(), "{A}".to_string()),
        ("WireGuard Tunnel".to_string(), "{B}".to_string()),
        ("TAP-Windows Adapter V9".to_string(), "{C}".to_string()),
    ];
    assert_eq!(vpn_from_adapters(&adapters), Some("{B}".to_string()));
    assert_eq!(vpn_from_adapters(&adapters[..1].to_vec()), None);
}
