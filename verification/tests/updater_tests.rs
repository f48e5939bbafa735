use rubypass::updater::{count_to_prefix, parse_ru_subnets, prepare_download, load_subnets, subnet_file_text};

#[test]
fn test_count_to_prefix_256() {
    assert_eq!(count_to_prefix(256), 24);
}

#[test]
fn test_count_to_prefix_512() {
    assert_eq!(count_to_prefix(512), 23);
}

#[test]
fn test_count_to_prefix_1() {
    assert_eq!(count_to_prefix(1), 32);
}

#[test]
fn test_parse_ru_subnets_filters_correctly() {
    let raw = "\
ripencc|RU|ipv4|77.88.55.0|256|20110101|allocated
ripencc|DE|ipv4|1.2.3.0|256|20110101|allocated
ripencc|RU|ipv6|2a02::/32|1|20110101|allocated
ripencc|RU|ipv4|5.45.192.0|16384|20110101|allocated";
    let result = parse_ru_subnets(raw);
    assert_eq!(result.len(), 2);
    assert_eq!(result[0], "77.88.55.0/24");
    assert_eq!(result[1], "5.45.192.0/18");
}

#[test]
fn test_parse_ru_subnets_skips_malformed() {
    let raw = "bad|line\nripencc|RU|ipv4|1.2.3.0|256|20110101|ok";
    let result = parse_ru_subnets(raw);
    assert_eq!(result.len(), 1);
}

#[test]
fn count_to_prefix_rounds_down_to_power_of_two() {
    assert_eq!(count_to_prefix(0), 32);
    assert_eq!(count_to_prefix(3), 31);
    assert_eq!(count_to_prefix(1000), 23);
    assert_eq!(count_to_prefix(u32::MAX), 1);
    assert_eq!(count_to_prefix(1 << 31), 1);
}

#[test]
fn parse_ru_subnets_handles_crlf_and_plus_and_bad_counts() {
    let raw = "x|RU|ipv4|10.0.0.0|+1024|d|s\r\nx|RU|ipv4|10.1.0.0|abc|d|s\nx|RU|ipv4|10.2.0.0|4294967296|d|s\nx|RU|ipv4|10.3.0.0|64|d\nx|RU|ipv4|10.4.0.0|64\n";
    let result = parse_ru_subnets(raw);
    assert_eq!(result, vec!["10.0.0.0/22".to_string(), "10.3.0.0/26".to_string()]);
}

#[test]
fn download_without_russian_networks_is_an_error() {
    assert_eq!(
        prepare_download("x|DE|ipv4|1.2.3.0|256|d|s"),
        Err("Не найдено ни одной российской подсети".to_string())
    );
    let (n, text) = prepare_download("x|RU|ipv4|1.2.3.0|256|d|s\nx|RU|ipv4|1.2.4.0|512|d|s").unwrap();
    assert_eq!(n, 2);
    assert_eq!(text, "1.2.3.0/24\n1.2.4.0/23");
}

#[test]
fn stored_list_reads_back() {
    let list = vec!["1.2.3.0/24".to_string(), "5.6.0.0/16".to_string()];
    let text = subnet_file_text(&list);
    assert_eq!(load_subnets(Some(Ok(text))), Ok(list));
    assert_eq!(load_subnets(None), Err("Список подсетей не загружен".to_string()));
    assert_eq!(load_subnets(Some(Err("denied".to_string()))), Err("denied".to_string()));
    assert_eq!(
        load_subnets(Some(Ok("a\n\n\r\nb\r\n".to_string()))),
        Ok(vec!["a".to_string(), "b".to_string()])
    );
}

#[test]
fn blocks_of_a_power_of_two_have_the_matching_prefix() {
    for k in 0..32u32 {
        assert_eq!(count_to_prefix(1u32 << k) as u32, 32 - k);
    }
}

#[test]
fn extracted_list_reads_back_from_the_file() {
    let raw = "a|RU|ipv4|1.0.0.0|256|d|s\r\nb|RU|ipv4|2.0.0.0|1024|d|s\n\nc|US|ipv4|3.0.0.0|256|d|s";
    let list = parse_ru_subnets(raw);
    let (_, file) = prepare_download(raw).unwrap();
    assert_eq!(load_subnets(Some(Ok(file))), Ok(list));
}

#[test]
fn parsing_two_joined_texts_gives_both_lists() {
    let a = "r|RU|ipv4|1.0.0.0|256|d|s\r\nr|US|ipv4|9.0.0.0|256|d|s";
    let b = "r|RU|ipv4|2.0.0.0|512|d|s\n\nr|RU|ipv6|::|32|d|s";
    let mut both = parse_ru_subnets(a);
    both.extend(parse_ru_subnets(b));
    assert_eq!(parse_ru_subnets(&format!("{a}\n{b}")), both);
    assert_eq!(both, vec!["1.0.0.0/24".to_string(), "2.0.0.0/23".to_string()]);
}

#[test]
fn prefix_brackets_the_block_size() {
    let mut last = 33u32;
    for count in [1u32, 2, 3, 255, 256, 257, 511, 512, 1000, 65536, 1 << 20, u32::MAX] {
        let p = count_to_prefix(count) as u32;
        assert!((1..=32).contains(&p));
        assert!(1u64 << (32 - p) <= count as u64);
        assert!((count as u64) < 1u64 << (33 - p));
        assert!(p <= last);
        last = p;
    }
}
