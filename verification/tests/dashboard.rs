use opnsense_client::system_resources::{sensor_from, sensors_from, SensorFields, SystemTemperature, TemperatureSensor};
use opnsense_client::text::{
    bytes_less, bytes_occur_at, contains_bytes, copy_bytes, has_byte, name_less, parse_unsigned,
    chars_of, first_word, is_space_char, position_of, same_bytes, same_text, split_text,
    starts_with_bytes, trim_text,
};
use opnsense_client::update_checker::{core_package, updates_available};
use opnsense_client::traffic::{
    counter_delta, excess_points, parse_counter, read_counters, CounterReading, InterfaceData,
    MAX_DATA_POINTS,
};
use opnsense_client::unbound::{
    active_blocklist_types, find_dnsbl_cron_job, unbound_dnsbl_cron_description, CronJob,
    CronJobsResponse, DnsblTypeEntry, DnsblTypeOption,
};

fn interface(name: &str, received: &str, transmitted: &str) -> InterfaceData {
    InterfaceData {
        name: name.to_string(),
        device: "em0".to_string(),
        bytes_received: received.to_string(),
        bytes_transmitted: transmitted.to_string(),
        driver: "em".to_string(),
        index: None,
        flags: None,
        promiscuous_listeners: None,
        send_queue_length: None,
        send_queue_max_length: None,
        send_queue_drops: None,
        interface_type: None,
        address_length: None,
        header_length: None,
        link_state: None,
        vhid: None,
        datalen: None,
        mtu: Some("1500".to_string()),
        metric: None,
        line_rate: None,
        packets_received: None,
        input_errors: None,
        packets_transmitted: None,
        output_errors: None,
        collisions: None,
        multicasts_received: None,
        multicasts_transmitted: None,
        input_queue_drops: None,
        packets_unknown_protocol: None,
        hw_offload_capabilities: None,
        uptime_at_attach: None,
    }
}

fn job(description: &str, command: &str) -> CronJob {
    CronJob {
        uuid: Some(format!("uuid-{}", command)),
        enabled: "1".to_string(),
        minutes: "0".to_string(),
        hours: "3".to_string(),
        days: "*".to_string(),
        months: "*".to_string(),
        weekdays: "*".to_string(),
        description: description.to_string(),
        command: command.to_string(),
        parameters: None,
        origin: None,
    }
}

fn entry(key: &str, selected: Option<u8>) -> DnsblTypeEntry {
    DnsblTypeEntry {
        key: key.to_string(),
        option: selected.map(|s| DnsblTypeOption { value: key.to_uppercase(), selected: s }),
    }
}

#[test]
fn unsigned_numbers_are_read_as_the_standard_library_reads_them() {
    for text in ["0", "7", "42", "007", "+5", "+0", "4294967295", "18446744073709551615", "", "+", "-1", "1 ", " 1", "1_000", "12a", "++1", "1+", "٣", "18446744073709551616", "99999999999999999999999"] {
        assert_eq!(parse_unsigned(text.as_bytes(), u64::MAX), text.parse::<u64>().ok(), "{:?}", text);
        assert_eq!(parse_unsigned(text.as_bytes(), u32::MAX as u64), text.parse::<u32>().ok().map(u64::from), "{:?}", text);
    }
    assert_eq!(parse_unsigned(b"255", 255), Some(255));
    assert_eq!(parse_unsigned(b"256", 255), None);
    assert_eq!(parse_unsigned(b"9", 8), None);
    assert_eq!(parse_unsigned(b"0", 0), Some(0));
    assert_eq!(parse_unsigned(b"1", 0), None);
}

#[test]
fn text_helpers_compare_and_search_bytes() {
    assert!(same_text("abc", "abc"));
    assert!(!same_text("abc", "abd"));
    assert!(!same_text("abc", "ab"));
    assert!(same_text("", ""));
    assert!(same_text("schlüssel", "schlüssel"));
    assert!(same_bytes(b"\x00\xff", b"\x00\xff"));
    assert!(!same_bytes(b"a", b""));
    assert_eq!(copy_bytes(&vec![1, 2, 3]), vec![1, 2, 3]);
    assert!(bytes_less(b"a", b"b"));
    assert!(bytes_less(b"", b"a"));
    assert!(bytes_less(b"ab", b"abc"));
    assert!(!bytes_less(b"abc", b"abc"));
    assert!(!bytes_less(b"b", b"ab"));
    assert!(name_less("Zeta", "alpha"));
    assert!(name_less("z", "é"));
    assert!(has_byte(b"a:b", b':'));
    assert!(!has_byte(b"", b':'));
    assert!(contains_bytes(b"lan_vip1", b"_vip"));
    assert!(contains_bytes(b"abc", b""));
    assert!(contains_bytes(b"", b""));
    assert!(!contains_bytes(b"ab", b"abc"));
    assert!(!contains_bytes(b"_vi_vp", b"_vip"));
    assert!(starts_with_bytes(b"carp0", b"carp"));
    assert!(!starts_with_bytes(b"xcarp", b"carp"));
    assert!(bytes_occur_at(b"xcarp", b"carp", 1));
    assert!(!bytes_occur_at(b"xcarp", b"carp", 2));
    assert!(bytes_occur_at(b"abc", b"", 3));
    assert!(!bytes_occur_at(b"abc", b"", 4));
}

#[test]
fn counters_are_read_and_subtracted() {
    assert_eq!(parse_counter("1024"), 1024);
    assert_eq!(parse_counter(""), 0);
    assert_eq!(parse_counter("12 kB"), 0);
    assert_eq!(parse_counter("18446744073709551616"), 0);
    assert_eq!(counter_delta(150, 100), 50);
    assert_eq!(counter_delta(100, 100), 0);
    assert_eq!(counter_delta(40, 100), 40);
    assert_eq!(counter_delta(u64::MAX, 0), u64::MAX);
}

#[test]
fn readings_compare_current_and_previous_counters() {
    let previous = interface("LAN", "1000", "500");
    assert_eq!(
        read_counters(&interface("LAN", "1500", "400"), &previous),
        Some(CounterReading { bytes_in: 1500, bytes_out: 400, received_since: 500, transmitted_since: 400 })
    );
    assert_eq!(read_counters(&interface("", "1500", "400"), &previous), None);
    assert_eq!(
        read_counters(&interface("LAN", "n/a", "700"), &previous),
        Some(CounterReading { bytes_in: 0, bytes_out: 700, received_since: 0, transmitted_since: 200 })
    );
}

#[test]
fn graph_keeps_120_points() {
    assert_eq!(MAX_DATA_POINTS, 120);
    assert_eq!(excess_points(0), 0);
    assert_eq!(excess_points(120), 0);
    assert_eq!(excess_points(121), 1);
    assert_eq!(excess_points(300), 180);
}

#[test]
fn sensors_default_missing_fields_to_empty() {
    let full = SensorFields {
        device: Some("cpu0".to_string()),
        device_seq: Some("0".to_string()),
        temperature: Some("45.0".to_string()),
        sensor_type: Some("cpu".to_string()),
        type_translated: Some("CPU".to_string()),
    };
    let sparse = SensorFields { device: Some("acpi".to_string()), device_seq: None, temperature: None, sensor_type: None, type_translated: None };
    assert_eq!(
        sensor_from(SensorFields { device: None, device_seq: None, temperature: Some("30".to_string()), sensor_type: None, type_translated: None }),
        TemperatureSensor {
            device: String::new(),
            device_seq: String::new(),
            temperature: "30".to_string(),
            sensor_type: String::new(),
            type_translated: String::new(),
        }
    );
    let all = sensors_from(vec![full, sparse]);
    assert_eq!(all.sensors.len(), 2);
    assert_eq!(all.sensors[0].device, "cpu0");
    assert_eq!(all.sensors[0].type_translated, "CPU");
    assert_eq!(all.sensors[1].device, "acpi");
    assert_eq!(all.sensors[1].temperature, "");
    assert_eq!(sensors_from(Vec::new()), SystemTemperature { sensors: Vec::new() });
}

#[test]
fn blocklist_job_is_found_by_its_description() {
    assert_eq!(unbound_dnsbl_cron_description(), "OPNManager Unbound DNSBL Update");
    let page = |rows: Vec<CronJob>| CronJobsResponse { row_count: rows.len() as u32, total: rows.len() as u32, current: 1, rows };
    let found = find_dnsbl_cron_job(page(vec![
        job("Nightly backup", "backup"),
        job("OPNManager Unbound DNSBL Update", "first"),
        job("Other", "other"),
        job("OPNManager Unbound DNSBL Update", "second"),
    ]));
    assert_eq!(found, Some(job("OPNManager Unbound DNSBL Update", "first")));
    assert_eq!(find_dnsbl_cron_job(page(vec![job("opnmanager unbound dnsbl update", "x")])), None);
    assert_eq!(find_dnsbl_cron_job(page(Vec::new())), None);
}

#[test]
fn active_blocklist_types_are_joined_by_commas() {
    assert_eq!(active_blocklist_types(&Vec::new()), None);
    assert_eq!(active_blocklist_types(&vec![entry("ads", Some(0)), entry("x", None)]), None);
    assert_eq!(active_blocklist_types(&vec![entry("ads", Some(1))]), Some("ads".to_string()));
    assert_eq!(
        active_blocklist_types(&vec![entry("ads", Some(1)), entry("porn", Some(0)), entry("malware", Some(1)), entry("none", None), entry("two", Some(2)), entry("track", Some(1))]),
        Some("ads,malware,track".to_string())
    );
    assert_eq!(active_blocklist_types(&vec![entry("", Some(1)), entry("b", Some(1))]), Some(",b".to_string()));
}

#[test]
fn first_entry_holding_a_text_is_found() {
    let texts = vec![None, Some("pkg".to_string()), Some("opnsense".to_string()), Some("opnsense".to_string())];
    assert_eq!(position_of(&texts, core_package()), Some(2));
    assert_eq!(position_of(&texts, "pkg"), Some(1));
    assert_eq!(position_of(&texts, "OPNsense"), None);
    assert_eq!(position_of(&Vec::new(), "opnsense"), None);
    assert_eq!(core_package(), "opnsense");
}

#[test]
fn updates_are_available_when_the_status_says_update() {
    assert_eq!(updates_available(Some("update")), Some(true));
    assert_eq!(updates_available(Some("none")), Some(false));
    assert_eq!(updates_available(Some("")), Some(false));
    assert_eq!(updates_available(None), None);
}

#[test]
fn white_space_is_what_the_standard_library_calls_white_space() {
    let mut spaces = 0;
    for code in 0u32..=0x10FFFF {
        if let Some(c) = char::from_u32(code) {
            assert_eq!(is_space_char(c), c.is_whitespace(), "U+{:04X}", code);
            if is_space_char(c) {
                spaces += 1;
            }
        }
    }
    assert_eq!(spaces, 25);
}

#[test]
fn texts_are_split_trimmed_and_read_like_the_standard_library_does() {
    for text in ["", ",", "a", "a,b", ",a,,b,", "é,ü ,\u{3000}x\u{3000}", " a b ", "\t\r\n", "x\n\ny\r\n"] {
        assert_eq!(chars_of(text), text.chars().collect::<Vec<_>>());
        assert_eq!(split_text(text, ','), text.split(',').map(|p| p.to_string()).collect::<Vec<_>>());
        assert_eq!(split_text(text, '\n'), text.split('\n').map(|p| p.to_string()).collect::<Vec<_>>());
        assert_eq!(trim_text(text), text.trim());
        assert_eq!(first_word(text), text.split_whitespace().next().unwrap_or(""));
    }
    assert_eq!(split_text("a,b", ','), vec!["a", "b"]);
    assert_eq!(trim_text("  two words\u{a0}"), "two words");
    assert_eq!(first_word("  two words "), "two");
}
