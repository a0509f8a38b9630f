use opnsense_client::devices::{
    combine_devices, flushed_addresses, is_ipv6, is_on_carp, merge_devices, natural_order_of,
    natural_sort, ndp_rows, order_devices, CombinedDevice, Device, FlushArpResponse, NdpDevice,
    NdpResponse,
};
use opnsense_client::order::Order;
use std::cmp::Ordering;

fn arp(mac: &str, ip: &str, intf: &str, hostname: &str) -> Device {
    Device {
        mac: mac.to_string(),
        ip: ip.to_string(),
        intf: intf.to_string(),
        expired: false,
        expires: 1200,
        permanent: false,
        device_type: "ethernet".to_string(),
        manufacturer: String::new(),
        hostname: hostname.to_string(),
        intf_description: "LAN".to_string(),
    }
}

fn ndp(mac: &str, ip: &str, intf: &str, manufacturer: &str) -> NdpDevice {
    NdpDevice {
        mac: mac.to_string(),
        ip: ip.to_string(),
        intf: intf.to_string(),
        manufacturer: manufacturer.to_string(),
        intf_description: "LAN".to_string(),
    }
}

#[test]
fn colon_makes_an_address_ipv6() {
    assert!(is_ipv6("fe80::1"));
    assert!(is_ipv6(":"));
    assert!(!is_ipv6("192.168.1.1"));
    assert!(!is_ipv6(""));
}

#[test]
fn natural_order_compares_numbers_not_digits() {
    assert_eq!(natural_sort("10.0.0.9", "10.0.0.10"), Ordering::Less);
    assert_eq!(natural_sort("10.0.0.10", "10.0.0.9"), Ordering::Greater);
    assert_eq!(natural_sort("192.168.1.1", "192.168.1.1"), Ordering::Equal);
    assert_eq!(natural_sort("2.0.0.0", "10.0.0.0"), Ordering::Less);
    assert_eq!(natural_sort("01.2.3.4", "1.2.3.4"), Ordering::Equal);
    assert_eq!(natural_sort("+1.2.3.4", "1.2.3.4"), Ordering::Equal);
    assert_eq!(natural_order_of("10.0.0.9", "10.0.0.10"), Order::Less);
}

#[test]
fn natural_order_of_short_and_odd_addresses() {
    assert_eq!(natural_sort("10.0.0", "10.0.0.1"), Ordering::Less);
    assert_eq!(natural_sort("10.0.0.1", "10.0.0"), Ordering::Greater);
    assert_eq!(natural_sort("10.0", "10.0"), Ordering::Equal);
    assert_eq!(natural_sort("", ""), Ordering::Equal);
    assert_eq!(natural_sort("", "0"), Ordering::Equal);
    assert_eq!(natural_sort("a.b.c.d", "0.0.0.0"), Ordering::Equal);
    assert_eq!(natural_sort("1.2.3.4.5", "1.2.3.4.6"), Ordering::Equal);
    assert_eq!(natural_sort("1.2.3.4.5", "1.2.3.4"), Ordering::Equal);
    assert_eq!(natural_sort("4294967296.0.0.0", "0.0.0.0"), Ordering::Equal);
    assert_eq!(natural_sort("4294967295.0.0.0", "4294967294.0.0.0"), Ordering::Greater);
    assert_eq!(natural_sort("1..2", "1.0.2"), Ordering::Equal);
    assert_eq!(natural_sort("-1.0.0.0", "0.0.0.0"), Ordering::Equal);
}

#[test]
fn ndp_rows_are_the_rows_of_the_page() {
    let page = NdpResponse { total: 2, row_count: 2, current: 1, rows: vec![ndp("m1", "fe80::1", "em0", ""), ndp("m2", "fe80::2", "em0", "")] };
    let rows = ndp_rows(page);
    assert_eq!(rows, vec![ndp("m1", "fe80::1", "em0", ""), ndp("m2", "fe80::2", "em0", "")]);
}

#[test]
fn merge_keeps_one_entry_per_hardware_address() {
    let merged = merge_devices(
        vec![
            arp("aa", "192.168.1.10", "em0", ""),
            arp("bb", "192.168.1.2", "em0", "printer"),
            arp("aa", "192.168.1.9", "em0", "laptop"),
            arp("aa", "192.168.1.10", "em0", "other"),
        ],
        vec![
            ndp("aa", "fe80::2", "em0", "Acme"),
            ndp("cc", "fe80::1", "em1", "Zeta"),
            ndp("aa", "fe80::2", "em0", "Other"),
            ndp("cc", "10.0.0.1", "em1", ""),
        ],
    );
    assert_eq!(merged.iter().map(|d| d.mac.as_str()).collect::<Vec<_>>(), vec!["aa", "bb", "cc"]);
    assert_eq!(merged[0].ipv4_addresses, vec!["192.168.1.10", "192.168.1.9"]);
    assert_eq!(merged[0].ipv6_addresses, vec!["fe80::2"]);
    assert_eq!(merged[0].hostname, "laptop");
    assert_eq!(merged[0].manufacturer, "Acme");
    assert_eq!(merged[0].expired, Some(false));
    assert_eq!(merged[0].expires, Some(1200));
    assert_eq!(merged[0].device_type, Some("ethernet".to_string()));
    assert_eq!(merged[1].hostname, "printer");
    assert_eq!(
        merged[2],
        CombinedDevice {
            mac: "cc".to_string(),
            ipv4_addresses: vec!["10.0.0.1".to_string()],
            ipv6_addresses: vec!["fe80::1".to_string()],
            intf: "em1".to_string(),
            expired: None,
            expires: None,
            permanent: None,
            device_type: None,
            manufacturer: "Zeta".to_string(),
            hostname: String::new(),
            intf_description: "LAN".to_string(),
        }
    );
}

#[test]
fn combined_list_is_ordered_by_interface_and_address() {
    let list = combine_devices(
        vec![
            arp("m1", "192.168.1.10", "em1", ""),
            arp("m2", "192.168.1.9", "em1", ""),
            arp("m3", "10.0.0.1", "em0", ""),
            arp("m2", "192.168.1.100", "em1", ""),
            arp("m2", "192.168.1.20", "em1", ""),
        ],
        vec![
            ndp("m4", "fe80::b", "em0", ""),
            ndp("m5", "fe80::a", "em0", ""),
            ndp("m5", "fe80::0", "em0", ""),
        ],
    );
    assert_eq!(list.iter().map(|d| d.mac.as_str()).collect::<Vec<_>>(), vec!["m3", "m5", "m4", "m2", "m1"]);
    assert_eq!(list[3].ipv4_addresses, vec!["192.168.1.9", "192.168.1.20", "192.168.1.100"]);
    assert_eq!(list[1].ipv6_addresses, vec!["fe80::0", "fe80::a"]);
}

#[test]
fn devices_without_any_address_are_ordered_by_hardware_address() {
    let mut a = merge_devices(vec![arp("bb", "1.1.1.1", "em0", "")], Vec::new()).pop().unwrap();
    let mut b = merge_devices(vec![arp("aa", "1.1.1.1", "em0", "")], Vec::new()).pop().unwrap();
    assert_eq!(order_devices(&a, &b), Order::Equal);
    a.ipv4_addresses.clear();
    assert_eq!(order_devices(&a, &b), Order::Greater);
    assert_eq!(order_devices(&b, &a), Order::Less);
    b.ipv4_addresses.clear();
    assert_eq!(order_devices(&a, &b), Order::Greater);
    b.ipv6_addresses.push("fe80::1".to_string());
    assert_eq!(order_devices(&a, &b), Order::Greater);
    assert_eq!(order_devices(&b, &a), Order::Less);
    a.ipv6_addresses.push("fe80::0".to_string());
    assert_eq!(order_devices(&a, &b), Order::Less);
    a.intf = "em1".to_string();
    assert_eq!(order_devices(&a, &b), Order::Greater);
}

#[test]
fn carp_interfaces_are_marked() {
    assert!(is_on_carp("lan_vip1", "LAN"));
    assert!(is_on_carp("carp0", "LAN"));
    assert!(is_on_carp("em0", "Uplink CaRP pair"));
    assert!(!is_on_carp("em0", "LAN"));
    assert!(!is_on_carp("mycarp", "LAN"));
    assert!(!is_on_carp("vip", "car p"));
    let mut on_carp = arp("m1", "10.0.0.1", "em0", "");
    on_carp.intf_description = "CARP uplink".to_string();
    let list = combine_devices(vec![on_carp, arp("m2", "10.0.0.2", "em0", "")], Vec::new());
    assert_eq!(list[0].intf_description, "CARP uplink (CARP VIP)");
    assert_eq!(list[1].intf_description, "LAN");
}

#[test]
fn flushed_addresses_are_the_first_words_of_the_lines() {
    let body = "192.168.1.1 (192.168.1.1) deleted\n\n   \n10.0.0.7 (10.0.0.7) deleted\r\n\tfe80::1%em0 deleted";
    assert_eq!(
        flushed_addresses(body),
        FlushArpResponse { deleted: vec!["192.168.1.1".to_string(), "10.0.0.7".to_string(), "fe80::1%em0".to_string()] }
    );
    assert_eq!(flushed_addresses(""), FlushArpResponse { deleted: Vec::new() });
}
