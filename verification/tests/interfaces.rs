use opnsense_client::alias::{alias_content, delete_failure};
use opnsense_client::interfaces::{
    arrange_interfaces, get_string_value, interface_from_fields, is_carp_interface, is_ha_setup,
    is_physical_device, mentions_timeout, order_interfaces, BasicInterface, Field, FieldValue,
    InterfaceSummary, IpAddress, PageAction, PageEvent, PageFetch, VlanInfo,
    FIRST_PAGE_TIMEOUT_SECS, MAX_PAGE_RETRIES, PAGE_SIZE,
};
use opnsense_client::order::Order;
use opnsense_client::update_checker::{
    still_watching, watch_step, WatchAction, WatchEvent, UPDATE_POLL_SECS, UPDATE_TIMEOUT_SECS,
};
use opnsense_client::wol::{plugin_check, PluginCheck};

fn iface(device: &str, status: &str, identifier: &str) -> InterfaceSummary {
    InterfaceSummary {
        device: device.to_string(),
        description: String::new(),
        groups: Vec::new(),
        status: status.to_string(),
        identifier: identifier.to_string(),
    }
}

#[test]
fn carp_interfaces_are_recognised() {
    assert!(is_carp_interface(&iface("lan_vip", "up", "")));
    assert!(is_carp_interface(&iface("carp1", "up", "")));
    assert!(!is_carp_interface(&iface("em0", "up", "lan")));
    assert!(!is_carp_interface(&iface("xcarp1", "up", "")));
    let mut described = iface("em0", "up", "");
    described.description = "Carp uplink".to_string();
    assert!(!is_carp_interface(&described));
    described.description = "CARP uplink VIP".to_string();
    assert!(is_carp_interface(&described));
    let mut grouped = iface("em0", "up", "");
    grouped.groups = vec!["wan".to_string(), "HA-Carp".to_string()];
    assert!(is_carp_interface(&grouped));
    grouped.groups = vec!["wan".to_string(), "vip".to_string()];
    assert!(!is_carp_interface(&grouped));
}

#[test]
fn physical_devices_have_neither_dot_nor_colon() {
    assert!(is_physical_device("em0"));
    assert!(is_physical_device(""));
    assert!(!is_physical_device("em0.100"));
    assert!(!is_physical_device("em0:1"));
}

#[test]
fn interfaces_in_use_come_first() {
    assert_eq!(order_interfaces(&iface("em1", "UP", ""), &iface("em0", "down", "lan")), Order::Less);
    assert_eq!(order_interfaces(&iface("em1", "down", ""), &iface("em0", "Up", "")), Order::Greater);
    assert_eq!(order_interfaces(&iface("em1", "up", ""), &iface("carp0", "up", "lan")), Order::Less);
    assert_eq!(order_interfaces(&iface("a_vip", "up", "lan"), &iface("em0", "up", "")), Order::Greater);
    assert_eq!(order_interfaces(&iface("em1", "up", "opt1"), &iface("em0", "up", "")), Order::Less);
    assert_eq!(order_interfaces(&iface("em0", "up", ""), &iface("em1", "up", "opt1")), Order::Greater);
    assert_eq!(order_interfaces(&iface("em0", "up", "a"), &iface("em1", "up", "b")), Order::Less);
    assert_eq!(order_interfaces(&iface("em1", "no carrier", ""), &iface("em0", "down", "")), Order::Greater);
    assert_eq!(order_interfaces(&iface("em0", "up", "a"), &iface("em0", "up", "b")), Order::Equal);
}

#[test]
fn duplicate_carp_interfaces_are_shown_once_and_the_list_is_ordered() {
    let interfaces = vec![
        iface("em2", "down", ""),
        iface("carp0", "up", ""),
        iface("em1", "up", ""),
        iface("carp0", "up", "lan"),
        iface("em0", "up", "wan"),
        iface("em1", "up", "dup"),
        iface("lo0", "up", "loop"),
    ];
    assert_eq!(arrange_interfaces(&interfaces), vec![4, 5, 6, 2, 1, 0]);
    assert_eq!(arrange_interfaces(&Vec::new()), Vec::<usize>::new());
    let equal = vec![iface("em0", "up", "b"), iface("em0", "up", "a")];
    assert_eq!(arrange_interfaces(&equal), vec![0, 1]);
}

#[test]
fn high_availability_shows_in_carp_interfaces() {
    assert!(!is_ha_setup(&Vec::new()));
    assert!(!is_ha_setup(&vec![iface("em0", "up", ""), iface("em0", "up", "")]));
    assert!(is_ha_setup(&vec![iface("em0", "up", ""), iface("carp0", "up", "")]));
}

#[test]
fn addresses_and_vlans_hold_what_the_firewall_sent() {
    let vlan = VlanInfo { tag: "100".to_string(), proto: "802.1q".to_string(), pcp: "0".to_string(), parent: "em0".to_string() };
    assert_eq!(vlan.parent, "em0");
    assert_eq!(IpAddress { ipaddr: "10.0.0.1/24".to_string() }.ipaddr, "10.0.0.1/24");
}

#[test]
fn alias_content_goes_one_entry_to_a_line() {
    assert_eq!(alias_content("10.0.0.1, 10.0.0.2 ,\t10.0.0.3"), "10.0.0.1\n10.0.0.2\n10.0.0.3");
    assert_eq!(alias_content("single"), "single");
    assert_eq!(alias_content(""), "");
    assert_eq!(alias_content("a,,b,"), "a\n\nb\n");
    assert_eq!(alias_content(" a b "), "a b");
}

#[test]
fn alias_in_use_has_a_message_of_its_own() {
    let in_use = "Cannot delete this alias because it is currently in use by firewall rules. Please remove references to this alias in your firewall rules first.";
    assert_eq!(delete_failure("{\"status\":\"Alias in use\"}"), in_use);
    assert_eq!(delete_failure("Currently in use by rule 3"), in_use);
    assert_eq!(delete_failure("alias in use"), "Server returned error: alias in use");
    assert_eq!(delete_failure(""), "Server returned error: ");
}

#[test]
fn plugin_probe_tells_missing_from_forbidden() {
    assert_eq!(plugin_check(None), PluginCheck { installed: true, permission_error: false, error: None });
    assert_eq!(
        plugin_check(Some("API endpoint not found (HTTP 404): Check your firewall URL and port".to_string())),
        PluginCheck { installed: false, permission_error: false, error: None }
    );
    assert_eq!(
        plugin_check(Some("status 404 and 403".to_string())),
        PluginCheck { installed: false, permission_error: false, error: None }
    );
    assert_eq!(
        plugin_check(Some("Permission denied (HTTP 403)".to_string())),
        PluginCheck { installed: true, permission_error: true, error: Some("Permission denied (HTTP 403)".to_string()) }
    );
    assert_eq!(
        plugin_check(Some("Connection timed out".to_string())),
        PluginCheck { installed: false, permission_error: false, error: Some("Connection timed out".to_string()) }
    );
}

#[test]
fn update_is_over_when_the_firewall_answers_after_a_reboot() {
    let answered = |status: Option<&str>| WatchEvent::Answered(status.map(|s| s.to_string()));
    assert_eq!(watch_step(false, &answered(Some("running"))), (false, WatchAction::Continue));
    assert_eq!(watch_step(false, &answered(Some("done"))), (false, WatchAction::Continue));
    assert_eq!(watch_step(false, &answered(None)), (false, WatchAction::Continue));
    assert_eq!(watch_step(false, &answered(Some("reboot"))), (true, WatchAction::Continue));
    assert_eq!(watch_step(false, &answered(Some("Reboot"))), (false, WatchAction::Continue));
    assert_eq!(watch_step(false, &WatchEvent::Unreachable), (true, WatchAction::Continue));
    assert_eq!(watch_step(true, &WatchEvent::Unreachable), (true, WatchAction::Continue));
    assert_eq!(watch_step(true, &answered(Some("running"))), (true, WatchAction::Finished));
    assert_eq!(watch_step(true, &answered(None)), (true, WatchAction::Finished));
    assert_eq!((UPDATE_TIMEOUT_SECS, UPDATE_POLL_SECS), (1800, 10));
    assert!(still_watching(0));
    assert!(still_watching(1799));
    assert!(!still_watching(1800));
}

fn field(name: &str, value: FieldValue) -> Field {
    Field { name: name.to_string(), value }
}

fn text(value: &str) -> FieldValue {
    FieldValue::Text(value.to_string())
}

#[test]
fn field_values_are_read_in_the_order_of_the_names() {
    let item = vec![
        field("state", text("down")),
        field("status", FieldValue::Other),
        field("up", FieldValue::Flag(true)),
        field("mtu", FieldValue::Unsigned(1500)),
        field("mtu", text("9000")),
    ];
    assert_eq!(get_string_value(&item, &["status", "state", "up"]), Some("down".to_string()));
    assert_eq!(get_string_value(&item, &["up", "state"]), Some("true".to_string()));
    assert_eq!(get_string_value(&item, &["mtu"]), Some("1500".to_string()));
    assert_eq!(get_string_value(&item, &["status"]), None);
    assert_eq!(get_string_value(&item, &["missing", "status"]), None);
    assert_eq!(get_string_value(&item, &[]), None);
    assert_eq!(get_string_value(&vec![field("f", FieldValue::Flag(false))], &["f"]), Some("false".to_string()));
    assert_eq!(get_string_value(&vec![field("n", FieldValue::Unsigned(0))], &["n"]), Some("0".to_string()));
}

#[test]
fn interfaces_are_read_from_the_fields_of_an_item() {
    let item = vec![
        field("if", text("em0.100")),
        field("name", text("ignored")),
        field("state", text("UP")),
        field("ether", text("00:11:22:33:44:55")),
        field("mtu", FieldValue::Unsigned(1500)),
        field("type", text("Ethernet")),
        field("descr", text("LAN")),
    ];
    assert_eq!(
        interface_from_fields(&item),
        Some(BasicInterface {
            device: "em0.100".to_string(),
            status: "UP".to_string(),
            macaddr: "00:11:22:33:44:55".to_string(),
            mtu: "1500".to_string(),
            media: Some("Ethernet".to_string()),
            description: "LAN".to_string(),
            is_physical: false,
            enabled: true,
        })
    );
    assert_eq!(
        interface_from_fields(&vec![field("name", text("lo0"))]),
        Some(BasicInterface {
            device: "lo0".to_string(),
            status: "unknown".to_string(),
            macaddr: String::new(),
            mtu: String::new(),
            media: None,
            description: String::new(),
            is_physical: true,
            enabled: false,
        })
    );
    assert_eq!(interface_from_fields(&Vec::new()), None);
    assert_eq!(interface_from_fields(&vec![field("device", text(""))]), None);
    assert_eq!(
        interface_from_fields(&vec![field("device", FieldValue::Unsigned(3)), field("if", text("em0"))]),
        None
    );
}

#[test]
fn pages_are_fetched_until_the_last() {
    assert_eq!((PAGE_SIZE, MAX_PAGE_RETRIES, FIRST_PAGE_TIMEOUT_SECS), (50, 3, 15));
    let start = PageFetch::new();
    assert_eq!(start, PageFetch { current_page: 1, retry_count: 0, current_timeout: 15 });
    let read = |total: usize, row_count: usize| PageEvent::Read { total, row_count };
    let (second, action) = start.after(read(120, 50), true);
    assert_eq!((second, action), (PageFetch { current_page: 2, retry_count: 0, current_timeout: 15 }, PageAction::NextPage));
    let (third, action) = second.after(read(120, 50), true);
    assert_eq!((third.current_page, action), (3, PageAction::NextPage));
    assert_eq!(third.after(read(120, 50), true), (third, PageAction::Finish { delay_ms: 0 }));
    assert_eq!(second.after(read(100, 50), true).1, PageAction::Finish { delay_ms: 0 });
    assert_eq!(start.after(read(50, 50), true).1, PageAction::Finish { delay_ms: 0 });
    assert_eq!(start.after(read(51, 50), true).1, PageAction::NextPage);
    assert_eq!(start.after(read(0, 50), false).1, PageAction::Finish { delay_ms: 0 });
    assert_eq!(start.after(read(0, 0), false).1, PageAction::Finish { delay_ms: 0 });
    assert_eq!(start.after(read(7, 0), true).1, PageAction::NextPage);
    let worn = PageFetch { current_page: 4, retry_count: 2, current_timeout: 40 };
    assert_eq!(worn.after(read(500, 50), true).0, PageFetch { current_page: 5, retry_count: 0, current_timeout: 15 });
}

#[test]
fn a_page_is_tried_three_times_with_growing_patience() {
    let start = PageFetch::new();
    let (once, action) = start.after(PageEvent::Unreadable, false);
    assert_eq!((once, action), (PageFetch { current_page: 1, retry_count: 1, current_timeout: 20 }, PageAction::Retry { delay_ms: 500 }));
    let (twice, action) = once.after(PageEvent::Failed { timed_out: true }, false);
    assert_eq!((twice, action), (PageFetch { current_page: 1, retry_count: 2, current_timeout: 35 }, PageAction::Retry { delay_ms: 1000 }));
    let (thrice, action) = twice.after(PageEvent::Failed { timed_out: false }, false);
    assert_eq!((thrice, action), (PageFetch { current_page: 1, retry_count: 3, current_timeout: 40 }, PageAction::GiveUp { delay_ms: 1500 }));
    assert_eq!(twice.after(PageEvent::Unreadable, true).1, PageAction::Finish { delay_ms: 1500 });
    let full = PageFetch { current_page: 1, retry_count: u64::MAX, current_timeout: u64::MAX - 3 };
    assert_eq!(
        full.after(PageEvent::Failed { timed_out: true }, true),
        (PageFetch { current_page: 1, retry_count: u64::MAX, current_timeout: u64::MAX }, PageAction::Finish { delay_ms: u64::MAX })
    );
    assert!(mentions_timeout("operation timed out"));
    assert!(mentions_timeout("Connection timeout"));
    assert!(!mentions_timeout("Connection refused"));
    assert!(!mentions_timeout("Timed Out"));
}
