use rubypass::aggregate::aggregate_subnets;
use rubypass::net::{
    block_size, cidr_contains_any, format_ipv4, normalize_cidr, parse_cidr, parse_ipv4, prefix_mask,
    Cidr,
};

fn chars(s: &str) -> Vec<char> {
    s.chars().collect()
}

#[test]
fn parse_ipv4_follows_dotted_decimal() {
    let cases: [(&str, Option<u32>); 14] = [
        ("0.0.0.0", Some(0)),
        ("255.255.255.255", Some(u32::MAX)),
        ("192.168.1.1", Some(0xC0A8_0101)),
        ("1.2.3", None),
        ("1.2.3.4.5", None),
        ("01.2.3.4", None),
        ("1.2.3.256", None),
        ("1..2.3", None),
        ("", None),
        ("1.2.3.4 ", None),
        ("+1.2.3.4", None),
        ("1.2.3.-4", None),
        ("10.0.0.1", Some(0x0A00_0001)),
        ("255.255.255.2550", None),
    ];
    for (s, expected) in cases {
        assert_eq!(parse_ipv4(&chars(s)), expected, "{}", s);
    }
}

#[test]
fn format_ipv4_writes_dotted_decimal() {
    let cases = [
        (0u32, "0.0.0.0"),
        (1, "0.0.0.1"),
        (0x0102_0304, "1.2.3.4"),
        (0xC0A8_0101, "192.168.1.1"),
        (u32::MAX, "255.255.255.255"),
        (0x0A00_0000, "10.0.0.0"),
    ];
    for (ip, text) in cases {
        let s: String = format_ipv4(ip).into_iter().collect();
        assert_eq!(s, text);
    }
}

#[test]
fn masks_and_blocks() {
    assert_eq!(prefix_mask(0), 0);
    assert_eq!(prefix_mask(8), 0xFF00_0000);
    assert_eq!(prefix_mask(24), 0xFFFF_FF00);
    assert_eq!(prefix_mask(32), u32::MAX);
    assert_eq!(block_size(32), 1);
    assert_eq!(block_size(24), 256);
    assert_eq!(block_size(1), 0x8000_0000);
}

#[test]
fn parse_and_normalize_cidr() {
    assert_eq!(parse_cidr(&chars("10.1.2.3/8")), Some(Cidr { network: 0x0A01_0203, prefix: 8 }));
    assert_eq!(parse_cidr(&chars("10.1.2.3/33")), None);
    assert_eq!(parse_cidr(&chars("10.1.2.3")), None);
    assert_eq!(parse_cidr(&chars("10.1.2/8")), None);
    assert_eq!(
        normalize_cidr(Cidr { network: 0x0A01_0203, prefix: 8 }),
        Cidr { network: 0x0A00_0000, prefix: 8 }
    );
    assert_eq!(normalize_cidr(Cidr { network: 5, prefix: 0 }), Cidr { network: 0, prefix: 0 });
}

#[test]
fn contains_any() {
    let cidrs = [Cidr { network: 0x0A00_0000, prefix: 8 }, Cidr { network: 0xC0A8_0100, prefix: 24 }];
    assert!(cidr_contains_any(0x0A01_0101, &cidrs));
    assert!(cidr_contains_any(0xC0A8_01FF, &cidrs));
    assert!(!cidr_contains_any(0xC0A8_0201, &cidrs));
    assert!(!cidr_contains_any(0x0A00_0000, &[]));
}

#[test]
fn aggregation_merges_siblings_and_drops_duplicates() {
    let subnets: Vec<String> = ["10.0.0.0/25", "10.0.0.128/25", "10.0.1.0/24", "bad", "10.0.0.5/24", "1.2.3.4/32"]
        .iter()
        .map(|s| s.to_string())
        .collect();
    let merged = aggregate_subnets(&subnets);
    assert_eq!(
        merged,
        vec![
            Cidr { network: 0x0102_0304, prefix: 32 },
            Cidr { network: 0x0A00_0000, prefix: 23 },
            Cidr { network: 0x0A00_0000, prefix: 24 }
        ]
    );
}

#[test]
fn aggregation_keeps_coverage() {
    let subnets: Vec<String> = ["77.88.55.0/24", "77.88.54.0/24", "5.45.192.0/18", "5.45.128.0/18"]
        .iter()
        .map(|s| s.to_string())
        .collect();
    let merged = aggregate_subnets(&subnets);
    let listed: Vec<Cidr> = subnets.iter().filter_map(|s| parse_cidr(&chars(s))).map(normalize_cidr).collect();
    for ip in [0x4D58_3601u32, 0x4D58_37FF, 0x4D58_3801, 0x052D_8001, 0x052D_C0FF, 0x052D_0000] {
        assert_eq!(cidr_contains_any(ip, &merged), cidr_contains_any(ip, &listed));
    }
    assert_eq!(
        merged,
        vec![Cidr { network: 0x052D_8000, prefix: 17 }, Cidr { network: 0x4D58_3600, prefix: 23 }]
    );
}

#[test]
fn dotted_decimal_round_trip() {
    for ip in [0u32, 7, 0x0A00_0001, 0x7F00_0001, 0xC0A8_FFFE, u32::MAX, 0x0100_00FF] {
        assert_eq!(parse_ipv4(&format_ipv4(ip)), Some(ip));
    }
}

#[test]
fn aggregating_the_written_result_again_changes_nothing() {
    let subnets: Vec<String> = ["10.0.0.0/25", "10.0.0.128/25", "10.0.1.0/24", "192.168.7.9/16", "bad", "1.2.3.4/32"]
        .iter()
        .map(|s| s.to_string())
        .collect();
    let merged = aggregate_subnets(&subnets);
    let written: Vec<String> = merged
        .iter()
        .map(|c| format!("{}/{}", format_ipv4(c.network).into_iter().collect::<String>(), c.prefix))
        .collect();
    assert_eq!(aggregate_subnets(&written), merged);
}
