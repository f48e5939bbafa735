use rubypass::gateway::{detect, CommandOutput, Platform};

fn ran(stdout: &str) -> CommandOutput {
    CommandOutput::Ran { success: true, stdout: stdout.to_string() }
}

#[test]
fn macos_uses_dhcp_router_first() {
    let r = detect(Platform::MacOs, &ran(" 192.168.1.1\n"), &ran("gateway: 10.0.0.1"));
    assert_eq!(r, Ok("192.168.1.1".to_string()));
}

#[test]
fn macos_falls_back_to_route_get() {
    let fallback = ran("   route to: default\ndestination: default\n    gateway: 10.0.0.1\n  interface: en0\n");
    assert_eq!(detect(Platform::MacOs, &ran("0.0.0.0\n"), &fallback), Ok("10.0.0.1".to_string()));
    let failed = CommandOutput::Ran { success: false, stdout: "192.168.1.1".to_string() };
    assert_eq!(detect(Platform::MacOs, &failed, &fallback), Ok("10.0.0.1".to_string()));
    assert_eq!(
        detect(Platform::MacOs, &ran(""), &ran("gateway:   \n")),
        Err("Не удалось определить шлюз".to_string())
    );
    assert_eq!(
        detect(Platform::MacOs, &CommandOutput::Failed("no ipconfig".to_string()), &fallback),
        Err("no ipconfig".to_string())
    );
}

#[test]
fn linux_takes_the_word_after_via() {
    let out = ran("default via 192.168.1.1 dev eth0 proto dhcp metric 100\n");
    assert_eq!(detect(Platform::Linux, &out, &ran("")), Ok("192.168.1.1".to_string()));
    assert_eq!(
        detect(Platform::Linux, &ran("default dev tun0\n"), &ran("")),
        Err("Не удалось определить шлюз".to_string())
    );
}

#[test]
fn windows_reads_route_print() {
    let out = ran("IPv4 Route Table\n===\nActive Routes:\nNetwork Destination        Netmask          Gateway       Interface  Metric\n          0.0.0.0          0.0.0.0      192.168.1.1    192.168.1.5     25\n");
    assert_eq!(detect(Platform::Windows, &out, &ran("")), Ok("192.168.1.1".to_string()));
    let onlink = ran("          0.0.0.0          0.0.0.0         On-link    10.8.0.2     25\n");
    assert_eq!(
        detect(Platform::Windows, &onlink, &ran("")),
        Err("Не удалось определить шлюз".to_string())
    );
}

#[test]
fn other_platforms_are_not_supported() {
    assert_eq!(
        detect(Platform::Other, &ran("x"), &ran("y")),
        Err("Платформа не поддерживается".to_string())
    );
}
