use ccm_cluster::address::{
    find_available_iprange, get_active_networks, ip_str_to_net, parse_hex_u32, pick_unused_prefix,
    prefix_string, prefixes_in_use, Ipv4Network,
};
use ccm_cluster::cluster::{Cluster, ClusterError};
use std::collections::HashSet;

const TABLE: &str = "  sl  local_address rem_address   st tx_queue rx_queue tr tm->when retrnsmt   uid  timeout inode
   0: 0100007F:0277 00000000:0000 0A 00000000:00000000 00:00000000 00000000     0        0 20553 1 0000000000000000 100 0 0 10 0
   1: 3500007F:0035 00000000:0000 0A 00000000:00000000 00:00000000 00000000   101        0 17877 1 0000000000000000 100 0 0 10 0
   2: 0201017F:1F90 00000000:0000 0A 00000000:00000000 00:00000000 00000000  1000        0 31337 1 0000000000000000 100 0 0 10 0
   3: 0500A8C0:0016 0100A8C0:D4BE 01 00000000:00000000 02:000A1B2C 00000000     0        0 40001 4 0000000000000000 20 4 30 10 -1
";

fn hex(s: &str) -> Option<u32> {
    parse_hex_u32(&s.chars().collect())
}

#[test]
fn test_find_available_range() {
    println!("{:?}", find_available_iprange(&get_active_networks(TABLE)))
}

#[test]
fn hex_numbers_follow_the_standard_reading() {
    assert_eq!(hex("0100007F"), Some(0x0100007F));
    assert_eq!(hex("ffffFFFF"), Some(u32::MAX));
    assert_eq!(hex("+1f"), Some(31));
    assert_eq!(hex("000000000000001"), Some(1));
    assert_eq!(hex("100000000"), None);
    assert_eq!(hex("fffffffffffffffffffff"), None);
    assert_eq!(hex(""), None);
    assert_eq!(hex("+"), None);
    assert_eq!(hex("-1"), None);
    assert_eq!(hex("12g"), None);
    assert_eq!(hex("local_address"), None);
    assert_eq!(hex("1 "), None);
}

#[test]
fn endpoints_decode_lowest_byte_first() {
    assert_eq!(ip_str_to_net("0100007F:0016"), Some(Ipv4Network { first: 127, second: 0, third: 0 }));
    assert_eq!(ip_str_to_net("0500A8C0:0016"), Some(Ipv4Network { first: 192, second: 168, third: 0 }));
    assert_eq!(ip_str_to_net("0403027F:1"), Some(Ipv4Network { first: 127, second: 2, third: 3 }));
    assert_eq!(ip_str_to_net("0100007F"), None);
    assert_eq!(ip_str_to_net("0100007F:0016:1"), None);
    assert_eq!(ip_str_to_net(":0016"), None);
    assert_eq!(ip_str_to_net("xyz:0016"), None);
}

#[test]
fn prefixes_come_from_the_second_word_of_each_line() {
    let used = prefixes_in_use(TABLE);
    let mut expected: HashSet<u32> = HashSet::new();
    expected.insert(0x00007F);
    expected.insert(0x01017F);
    expected.insert(0x00A8C0);
    assert_eq!(used, expected);
    assert_eq!(prefixes_in_use(""), HashSet::new());
    assert_eq!(prefixes_in_use("one\n\n \t \n"), HashSet::new());
    let mut one: HashSet<u32> = HashSet::new();
    one.insert(0x05047F);
    assert_eq!(prefixes_in_use("x 0605047F"), one);
    assert_eq!(prefixes_in_use("x\u{a0}0605047F:12:13\r\n"), one);
}

#[test]
fn active_networks_skip_the_header_and_want_one_colon() {
    let mut expected: HashSet<u32> = HashSet::new();
    expected.insert(0x00007F);
    expected.insert(0x01017F);
    expected.insert(0x00A8C0);
    assert_eq!(get_active_networks(TABLE), expected);
    assert_eq!(get_active_networks("0: 0605047F:1\n"), HashSet::new());
    let mut one: HashSet<u32> = HashSet::new();
    one.insert(0x05047F);
    assert_eq!(get_active_networks("header\n0: 0605047F:1\n1: 0705047F\n2: 0805047F:1:2"), one);
}

#[test]
fn first_unused_prefix_skips_what_is_in_use() {
    let mut used: HashSet<u32> = HashSet::new();
    assert_eq!(pick_unused_prefix(&used), Some((1, 1)));
    used.insert(127 + 1 * 256 + 1 * 65536);
    assert_eq!(pick_unused_prefix(&used), Some((1, 2)));
    for b in 1..=255u32 {
        used.insert(127 + 1 * 256 + b * 65536);
    }
    assert_eq!(pick_unused_prefix(&used), Some((2, 1)));
    used.insert(127);
    used.insert(127 + 2 * 256);
    used.insert(10 + 2 * 256 + 65536);
    assert_eq!(pick_unused_prefix(&used), Some((2, 1)));
}

#[test]
fn no_prefix_is_left_when_all_are_in_use() {
    let mut used: HashSet<u32> = HashSet::new();
    for a in 1..=255u32 {
        for b in 1..=255u32 {
            used.insert(127 + a * 256 + b * 65536);
        }
    }
    assert_eq!(pick_unused_prefix(&used), None);
    used.remove(&(127 + 255 * 256 + 255 * 65536));
    assert_eq!(pick_unused_prefix(&used), Some((255, 255)));
    assert_eq!(
        find_available_iprange(&used),
        Ok(Ipv4Network { first: 127, second: 0, third: 1 })
    );
}

#[test]
fn available_range_starts_at_127_0_1() {
    let mut active: HashSet<u32> = HashSet::new();
    assert_eq!(find_available_iprange(&active), Ok(Ipv4Network { first: 127, second: 0, third: 1 }));
    active.insert(127);
    assert_eq!(find_available_iprange(&active), Ok(Ipv4Network { first: 127, second: 0, third: 1 }));
    for j in 1..=255u32 {
        active.insert(127 + j * 65536);
    }
    assert_eq!(find_available_iprange(&active), Ok(Ipv4Network { first: 127, second: 1, third: 0 }));
    for i in 0..=255u32 {
        for j in 0..=255u32 {
            active.insert(127 + i * 256 + j * 65536);
        }
    }
    assert_eq!(find_available_iprange(&active), Err("No free IP ranges found".to_string()));
}

#[test]
fn prefix_text_ends_in_a_dot() {
    assert_eq!(prefix_string(1, 1), "127.1.1.");
    assert_eq!(prefix_string(255, 10), "127.255.10.");
}

#[test]
fn sniffing_reads_the_table_and_picks_the_first_free_prefix() {
    assert_eq!(Cluster::sniff_ip_prefix(TABLE), Ok("127.1.2.".to_string()));
    assert_eq!(Cluster::sniff_ip_prefix(""), Ok("127.1.1.".to_string()));
    let mut full = String::new();
    for a in 1..=255u32 {
        for b in 1..=255u32 {
            full.push_str(&format!("   0: 00{:02X}{:02X}7F:0016 rest\n", b, a));
        }
    }
    assert_eq!(Cluster::sniff_ip_prefix(&full), Err(ClusterError::NoAvailablePrefix));
}
