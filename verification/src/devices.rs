//! The devices the firewall sees on its networks: the ARP and NDP tables
//! merged into one entry per hardware address, with addresses in natural
//! order and the list ordered by interface and address.

use vstd::prelude::*;
use vstd::string::StringExecFns;
use vstd::utf8::encode_utf8;

use crate::order::{
    bytes_order, count_before, lemma_count_before_step, lemma_count_before_stop, order_bytes,
    stable_sorted, Order,
};
use crate::text::{
    contains_bytes, first_word, first_word_text, has_byte, has_part, lowercase, lowercase_of,
    occurs_at, parse_unsigned, parsed_unsigned, same_text, split_on, split_text,
    starts_with_bytes, texts_of,
};

verus! {

/// One entry of the firewall's ARP table.
#[derive(Debug, PartialEq, Eq)]
pub struct Device {
    pub mac: String,
    pub ip: String,
    pub intf: String,
    pub expired: bool,
    pub expires: i32,
    pub permanent: bool,
    pub device_type: String,
    pub manufacturer: String,
    pub hostname: String,
    pub intf_description: String,
}

/// One entry of the firewall's NDP table.
#[derive(Debug, PartialEq, Eq)]
pub struct NdpDevice {
    pub mac: String,
    pub ip: String,
    pub intf: String,
    pub manufacturer: String,
    pub intf_description: String,
}

/// One page of the firewall's NDP table.
#[derive(Debug, PartialEq, Eq)]
pub struct NdpResponse {
    pub total: u32,
    pub row_count: u32,
    pub current: u32,
    pub rows: Vec<NdpDevice>,
}

/// A device with every address it was seen under.
#[derive(Debug, PartialEq, Eq)]
pub struct CombinedDevice {
    pub mac: String,
    pub ipv4_addresses: Vec<String>,
    pub ipv6_addresses: Vec<String>,
    pub intf: String,
    pub expired: Option<bool>,
    pub expires: Option<i32>,
    pub permanent: Option<bool>,
    pub device_type: Option<String>,
    pub manufacturer: String,
    pub hostname: String,
    pub intf_description: String,
}

/// The addresses that flushing the ARP table removed.
#[derive(Debug, PartialEq, Eq)]
pub struct FlushArpResponse {
    pub deleted: Vec<String>,
}

/// A [`CombinedDevice`] as a mathematical value.
pub struct CombinedView {
    pub mac: Seq<char>,
    pub ipv4_addresses: Seq<Seq<char>>,
    pub ipv6_addresses: Seq<Seq<char>>,
    pub intf: Seq<char>,
    pub expired: Option<bool>,
    pub expires: Option<i32>,
    pub permanent: Option<bool>,
    pub device_type: Option<Seq<char>>,
    pub manufacturer: Seq<char>,
    pub hostname: Seq<char>,
    pub intf_description: Seq<char>,
}

/// A list of texts as a mathematical value.
pub open spec fn addresses_view(addresses: Seq<String>) -> Seq<Seq<char>> {
    addresses.map_values(|a: String| a@)
}

impl View for CombinedDevice {
    type V = CombinedView;

    open spec fn view(&self) -> CombinedView {
        CombinedView {
            mac: self.mac@,
            ipv4_addresses: addresses_view(self.ipv4_addresses@),
            ipv6_addresses: addresses_view(self.ipv6_addresses@),
            intf: self.intf@,
            expired: self.expired,
            expires: self.expires,
            permanent: self.permanent,
            device_type: match self.device_type {
                Some(t) => Some(t@),
                None => None,
            },
            manufacturer: self.manufacturer@,
            hostname: self.hostname@,
            intf_description: self.intf_description@,
        }
    }
}

/// The combined devices as mathematical values, in their order.
pub open spec fn combined_view(devices: Seq<CombinedDevice>) -> Seq<CombinedView> {
    devices.map_values(|d: CombinedDevice| d@)
}

/// Whether an address is an IPv6 address: whether it holds a colon.
pub open spec fn is_v6(ip: Seq<char>) -> bool {
    encode_utf8(ip).contains(0x3Au8)
}

/// Whether an address is an IPv6 address.
pub fn is_ipv6(ip: &str) -> (v6: bool)
    ensures
        v6 == is_v6(ip@),
{
    has_byte(ip.as_bytes(), 0x3A)
}

/// The parts of a text between its dots; a text of `n` dots has `n + 1`
/// parts, some of which may be empty.
pub open spec fn dot_parts(text: Seq<u8>) -> Seq<Seq<u8>>
    decreases text.len(),
{
    if text.len() == 0 {
        seq![Seq::empty()]
    } else {
        let front = dot_parts(text.drop_last());
        if text.last() == 0x2Eu8 {
            front.push(Seq::empty())
        } else {
            front.update(front.len() - 1, front.last().push(text.last()))
        }
    }
}

/// The number a part of an address stands for: the one it denotes as an
/// unsigned 32-bit decimal, and 0 where it denotes none.
pub open spec fn part_value(part: Seq<u8>) -> int {
    match parsed_unsigned(part, u32::MAX as int) {
        Some(v) => v,
        None => 0,
    }
}

/// How two lists of parts stand from part `i` on: the first of the first
/// four parts that differs in number decides; where one list ends before
/// that, the shorter one is less.
pub open spec fn parts_order(a: Seq<Seq<u8>>, b: Seq<Seq<u8>>, i: int) -> Order
    decreases 4 - i,
{
    if i >= 4 {
        Order::Equal
    } else if i >= a.len() || i >= b.len() {
        if a.len() < b.len() {
            Order::Less
        } else if a.len() > b.len() {
            Order::Greater
        } else {
            Order::Equal
        }
    } else if part_value(a[i]) < part_value(b[i]) {
        Order::Less
    } else if part_value(a[i]) > part_value(b[i]) {
        Order::Greater
    } else {
        parts_order(a, b, i + 1)
    }
}

/// How two dotted addresses stand in natural order, in which 10.0.0.9
/// comes before 10.0.0.10.
pub open spec fn natural_order(a: Seq<char>, b: Seq<char>) -> Order {
    parts_order(dot_parts(encode_utf8(a)), dot_parts(encode_utf8(b)), 0)
}

/// The conversion of an [`Order`] to the standard library's ordering.
pub open spec fn ordering_of(order: Order) -> std::cmp::Ordering {
    match order {
        Order::Less => std::cmp::Ordering::Less,
        Order::Equal => std::cmp::Ordering::Equal,
        Order::Greater => std::cmp::Ordering::Greater,
    }
}

/// The numbers of the parts of a dotted text.
fn part_numbers(text: &[u8]) -> (numbers: Vec<u64>)
    ensures
        numbers.len() == dot_parts(text@).len(),
        forall|i: int|
            0 <= i < numbers.len() ==> #[trigger] numbers[i] == part_value(dot_parts(text@)[i]),
{
    let mut numbers: Vec<u64> = Vec::new();
    let mut part: Vec<u8> = Vec::new();
    let mut i: usize = 0;
    assert(text@.take(0) =~= Seq::empty());
    while i < text.len()
        invariant
            i <= text.len(),
            numbers.len() + 1 == dot_parts(text@.take(i as int)).len(),
            part@ == dot_parts(text@.take(i as int)).last(),
            forall|j: int|
                0 <= j < numbers.len() ==> #[trigger] numbers[j] == part_value(
                    dot_parts(text@.take(i as int))[j],
                ),
        decreases text.len() - i,
    {
        let ghost before = dot_parts(text@.take(i as int));
        proof {
            assert(text@.take(i + 1).drop_last() =~= text@.take(i as int));
            assert(text@.take(i + 1).last() == text@[i as int]);
        }
        if text[i] == 0x2E {
            let number = match parse_unsigned(part.as_slice(), 0xFFFF_FFFF) {
                Some(v) => v,
                None => 0,
            };
            numbers.push(number);
            part = Vec::new();
            proof {
                let after = dot_parts(text@.take(i + 1));
                assert(after == before.push(Seq::empty()));
                assert forall|j: int| 0 <= j < numbers.len() implies #[trigger] numbers[j]
                    == part_value(after[j]) by {
                    assert(after[j] == before[j]);
                }
            }
        } else {
            part.push(text[i]);
            proof {
                let after = dot_parts(text@.take(i + 1));
                assert(after == before.update(before.len() - 1, before.last().push(text@[i as int])));
                assert forall|j: int| 0 <= j < numbers.len() implies #[trigger] numbers[j]
                    == part_value(after[j]) by {
                    assert(after[j] == before[j]);
                }
            }
        }
        i = i + 1;
    }
    assert(text@.take(text.len() as int) =~= text@);
    let number = match parse_unsigned(part.as_slice(), 0xFFFF_FFFF) {
        Some(v) => v,
        None => 0,
    };
    numbers.push(number);
    numbers
}

/// How two dotted addresses stand in natural order.
pub fn natural_order_of(a: &str, b: &str) -> (order: Order)
    ensures
        order == natural_order(a@, b@),
{
    let left = part_numbers(a.as_bytes());
    let right = part_numbers(b.as_bytes());
    let ghost pa = dot_parts(encode_utf8(a@));
    let ghost pb = dot_parts(encode_utf8(b@));
    let mut i: usize = 0;
    while i < 4
        invariant
            i <= 4,
            pa == dot_parts(encode_utf8(a@)),
            pb == dot_parts(encode_utf8(b@)),
            left.len() == pa.len(),
            right.len() == pb.len(),
            forall|j: int| 0 <= j < left.len() ==> #[trigger] left[j] == part_value(pa[j]),
            forall|j: int| 0 <= j < right.len() ==> #[trigger] right[j] == part_value(pb[j]),
            parts_order(pa, pb, 0) == parts_order(pa, pb, i as int),
        decreases 4 - i,
    {
        if i >= left.len() || i >= right.len() {
            return if left.len() < right.len() {
                Order::Less
            } else if left.len() > right.len() {
                Order::Greater
            } else {
                Order::Equal
            };
        }
        if left[i] < right[i] {
            return Order::Less;
        }
        if left[i] > right[i] {
            return Order::Greater;
        }
        i = i + 1;
    }
    Order::Equal
}

/// How two dotted addresses stand in natural order.
pub fn natural_sort(a: &str, b: &str) -> (ordering: std::cmp::Ordering)
    ensures
        ordering == ordering_of(natural_order(a@, b@)),
{
    match natural_order_of(a, b) {
        Order::Less => std::cmp::Ordering::Less,
        Order::Equal => std::cmp::Ordering::Equal,
        Order::Greater => std::cmp::Ordering::Greater,
    }
}

/// The rows of one page of the NDP table.
pub fn ndp_rows(response: NdpResponse) -> (rows: Vec<NdpDevice>)
    ensures
        rows == response.rows,
{
    response.rows
}

/// The position of the first entry with the hardware address `mac`, or
/// the number of entries when there is none.
pub open spec fn mac_index(entries: Seq<CombinedView>, mac: Seq<char>) -> int
    decreases entries.len(),
{
    if entries.len() == 0 || entries[0].mac == mac {
        0
    } else {
        1 + mac_index(entries.drop_first(), mac)
    }
}

/// The entry with one more address: an address with a colon joins the
/// IPv6 addresses, any other the IPv4 addresses, unless it is among them.
pub open spec fn with_address(entry: CombinedView, ip: Seq<char>) -> CombinedView {
    if is_v6(ip) {
        if entry.ipv6_addresses.contains(ip) {
            entry
        } else {
            CombinedView { ipv6_addresses: entry.ipv6_addresses.push(ip), ..entry }
        }
    } else {
        if entry.ipv4_addresses.contains(ip) {
            entry
        } else {
            CombinedView { ipv4_addresses: entry.ipv4_addresses.push(ip), ..entry }
        }
    }
}

/// The entry a device gets when the ARP table is the first to show it.
pub open spec fn from_arp(device: Device) -> CombinedView {
    CombinedView {
        mac: device.mac@,
        ipv4_addresses: if is_v6(device.ip@) {
            Seq::empty()
        } else {
            seq![device.ip@]
        },
        ipv6_addresses: if is_v6(device.ip@) {
            seq![device.ip@]
        } else {
            Seq::empty()
        },
        intf: device.intf@,
        expired: Some(device.expired),
        expires: Some(device.expires),
        permanent: Some(device.permanent),
        device_type: Some(device.device_type@),
        manufacturer: device.manufacturer@,
        hostname: device.hostname@,
        intf_description: device.intf_description@,
    }
}

/// The entry a device gets when the NDP table is the first to show it.
pub open spec fn from_ndp(device: NdpDevice) -> CombinedView {
    CombinedView {
        mac: device.mac@,
        ipv4_addresses: if is_v6(device.ip@) {
            Seq::empty()
        } else {
            seq![device.ip@]
        },
        ipv6_addresses: if is_v6(device.ip@) {
            seq![device.ip@]
        } else {
            Seq::empty()
        },
        intf: device.intf@,
        expired: None,
        expires: None,
        permanent: None,
        device_type: None,
        manufacturer: device.manufacturer@,
        hostname: Seq::empty(),
        intf_description: device.intf_description@,
    }
}

/// The entries after an ARP entry is taken in: a device already known
/// gains the address, and the host name if it had none; a new device gets
/// an entry of its own at the end.
pub open spec fn absorb_arp(entries: Seq<CombinedView>, device: Device) -> Seq<CombinedView> {
    let at = mac_index(entries, device.mac@);
    if at < entries.len() {
        let known = with_address(entries[at], device.ip@);
        entries.update(
            at,
            if known.hostname.len() == 0 && device.hostname@.len() != 0 {
                CombinedView { hostname: device.hostname@, ..known }
            } else {
                known
            },
        )
    } else {
        entries.push(from_arp(device))
    }
}

/// The entries after an NDP entry is taken in: a device already known
/// gains the address, and the manufacturer if it had none; a new device
/// gets an entry of its own at the end.
pub open spec fn absorb_ndp(entries: Seq<CombinedView>, device: NdpDevice) -> Seq<CombinedView> {
    let at = mac_index(entries, device.mac@);
    if at < entries.len() {
        let known = with_address(entries[at], device.ip@);
        entries.update(
            at,
            if known.manufacturer.len() == 0 && device.manufacturer@.len() != 0 {
                CombinedView { manufacturer: device.manufacturer@, ..known }
            } else {
                known
            },
        )
    } else {
        entries.push(from_ndp(device))
    }
}

/// The entries after the first `n` ARP entries are taken in, in order.
pub open spec fn arp_merged(arp: Seq<Device>, n: int) -> Seq<CombinedView>
    decreases n,
{
    if n <= 0 {
        Seq::empty()
    } else {
        absorb_arp(arp_merged(arp, n - 1), arp[n - 1])
    }
}

/// The entries after all ARP entries and then the first `n` NDP entries
/// are taken in, in order.
pub open spec fn merged(arp: Seq<Device>, ndp: Seq<NdpDevice>, n: int) -> Seq<CombinedView>
    decreases n,
{
    if n <= 0 {
        arp_merged(arp, arp.len() as int)
    } else {
        absorb_ndp(merged(arp, ndp, n - 1), ndp[n - 1])
    }
}

/// Whether a device sits on a CARP interface, the virtual address of a
/// high-availability pair: the interface's name holds `_vip` or begins
/// with `carp`, or its description mentions CARP in any case.
pub open spec fn on_carp(intf: Seq<char>, description: Seq<char>) -> bool {
    ||| has_part(encode_utf8(intf), encode_utf8("_vip"@))
    ||| occurs_at(encode_utf8(intf), encode_utf8("carp"@), 0)
    ||| has_part(encode_utf8(lowercase_of(description)), encode_utf8("carp"@))
}

/// Whether the first address goes before the second in natural order.
pub open spec fn natural_less(a: Seq<char>, b: Seq<char>) -> bool {
    natural_order(a, b) == Order::Less
}

/// Whether the first text goes before the second in byte order.
pub open spec fn text_less(a: Seq<char>, b: Seq<char>) -> bool {
    bytes_order(encode_utf8(a), encode_utf8(b)) == Order::Less
}

/// The entry as the list shows it: IPv4 addresses in natural order, IPv6
/// addresses in byte order, and the description marked for a device on a
/// CARP interface.
pub open spec fn tidied(entry: CombinedView) -> CombinedView {
    CombinedView {
        ipv4_addresses: stable_sorted(
            entry.ipv4_addresses,
            |a: Seq<char>, b: Seq<char>| natural_less(a, b),
        ),
        ipv6_addresses: stable_sorted(
            entry.ipv6_addresses,
            |a: Seq<char>, b: Seq<char>| text_less(a, b),
        ),
        intf_description: if on_carp(entry.intf, entry.intf_description) {
            entry.intf_description + " (CARP VIP)"@
        } else {
            entry.intf_description
        },
        ..entry
    }
}

/// How two devices stand in the list: by interface; then devices with an
/// IPv4 address before those without, by their first IPv4 address in
/// natural order; among devices without, those with an IPv6 address
/// first, by their first IPv6 address; and last by hardware address.
pub open spec fn device_order(a: CombinedView, b: CombinedView) -> Order {
    let by_intf = bytes_order(encode_utf8(a.intf), encode_utf8(b.intf));
    if by_intf != Order::Equal {
        by_intf
    } else if a.ipv4_addresses.len() > 0 && b.ipv4_addresses.len() == 0 {
        Order::Less
    } else if a.ipv4_addresses.len() == 0 && b.ipv4_addresses.len() > 0 {
        Order::Greater
    } else if a.ipv4_addresses.len() > 0 {
        natural_order(a.ipv4_addresses[0], b.ipv4_addresses[0])
    } else if a.ipv6_addresses.len() > 0 && b.ipv6_addresses.len() > 0 {
        bytes_order(encode_utf8(a.ipv6_addresses[0]), encode_utf8(b.ipv6_addresses[0]))
    } else if a.ipv6_addresses.len() == 0 && b.ipv6_addresses.len() > 0 {
        Order::Greater
    } else if a.ipv6_addresses.len() > 0 && b.ipv6_addresses.len() == 0 {
        Order::Less
    } else {
        bytes_order(encode_utf8(a.mac), encode_utf8(b.mac))
    }
}

/// Whether the first device goes before the second in the list.
pub open spec fn device_less(a: CombinedView, b: CombinedView) -> bool {
    device_order(a, b) == Order::Less
}

/// The device list for an ARP and an NDP table: one entry per hardware
/// address, in the order in which the addresses first appear, each entry
/// tidied, and the whole ordered as the list shows it.
pub open spec fn combined(arp: Seq<Device>, ndp: Seq<NdpDevice>) -> Seq<CombinedView> {
    stable_sorted(
        merged(arp, ndp, ndp.len() as int).map_values(|e: CombinedView| tidied(e)),
        |a: CombinedView, b: CombinedView| device_less(a, b),
    )
}

proof fn lemma_mac_index(entries: Seq<CombinedView>, mac: Seq<char>, i: int)
    requires
        0 <= i <= entries.len(),
        forall|j: int| 0 <= j < i ==> (#[trigger] entries[j]).mac != mac,
        i < entries.len() ==> entries[i].mac == mac,
    ensures
        mac_index(entries, mac) == i,
    decreases entries.len(),
{
    if entries.len() > 0 && i > 0 {
        assert(entries[0].mac != mac);
        let rest = entries.drop_first();
        assert forall|j: int| 0 <= j < i - 1 implies (#[trigger] rest[j]).mac != mac by {
            assert(rest[j] == entries[j + 1]);
        }
        if i - 1 < rest.len() {
            assert(rest[i - 1] == entries[i]);
        }
        lemma_mac_index(rest, mac, i - 1);
    }
}

fn find_mac(entries: &Vec<CombinedDevice>, mac: &str) -> (at: usize)
    ensures
        at == mac_index(combined_view(entries@), mac@),
        at <= entries.len(),
{
    let mut i: usize = 0;
    while i < entries.len()
        invariant
            i <= entries.len(),
            forall|j: int| 0 <= j < i ==> (#[trigger] combined_view(entries@)[j]).mac != mac@,
        decreases entries.len() - i,
    {
        if same_text(entries[i].mac.as_str(), mac) {
            proof {
                lemma_mac_index(combined_view(entries@), mac@, i as int);
            }
            return i;
        }
        i = i + 1;
    }
    proof {
        lemma_mac_index(combined_view(entries@), mac@, i as int);
    }
    i
}

fn has_address(addresses: &Vec<String>, ip: &str) -> (yes: bool)
    ensures
        yes == addresses_view(addresses@).contains(ip@),
{
    let mut i: usize = 0;
    while i < addresses.len()
        invariant
            i <= addresses.len(),
            forall|j: int| 0 <= j < i ==> addresses_view(addresses@)[j] != ip@,
        decreases addresses.len() - i,
    {
        if same_text(addresses[i].as_str(), ip) {
            assert(addresses_view(addresses@)[i as int] == ip@);
            return true;
        }
        i = i + 1;
    }
    false
}

fn add_address(entry: CombinedDevice, ip: String) -> (out: CombinedDevice)
    ensures
        out@ == with_address(entry@, ip@),
{
    let mut entry = entry;
    if is_ipv6(ip.as_str()) {
        if !has_address(&entry.ipv6_addresses, ip.as_str()) {
            let ghost before = addresses_view(entry.ipv6_addresses@);
            entry.ipv6_addresses.push(ip);
            assert(addresses_view(entry.ipv6_addresses@) =~= before.push(ip@));
        }
    } else {
        if !has_address(&entry.ipv4_addresses, ip.as_str()) {
            let ghost before = addresses_view(entry.ipv4_addresses@);
            entry.ipv4_addresses.push(ip);
            assert(addresses_view(entry.ipv4_addresses@) =~= before.push(ip@));
        }
    }
    entry
}

fn first_addresses(ip: String) -> (lists: (Vec<String>, Vec<String>))
    ensures
        addresses_view(lists.0@) == if is_v6(ip@) {
            Seq::<Seq<char>>::empty()
        } else {
            seq![ip@]
        },
        addresses_view(lists.1@) == if is_v6(ip@) {
            seq![ip@]
        } else {
            Seq::<Seq<char>>::empty()
        },
{
    let mut v4: Vec<String> = Vec::new();
    let mut v6: Vec<String> = Vec::new();
    if is_ipv6(ip.as_str()) {
        v6.push(ip);
    } else {
        v4.push(ip);
    }
    assert(addresses_view(v4@) =~= if is_v6(ip@) {
        Seq::<Seq<char>>::empty()
    } else {
        seq![ip@]
    });
    assert(addresses_view(v6@) =~= if is_v6(ip@) {
        seq![ip@]
    } else {
        Seq::<Seq<char>>::empty()
    });
    (v4, v6)
}

fn take_arp(entries: &mut Vec<CombinedDevice>, device: Device)
    ensures
        combined_view(final(entries)@) == absorb_arp(combined_view(old(entries)@), device),
{
    let ghost before = combined_view(entries@);
    let at = find_mac(entries, device.mac.as_str());
    if at < entries.len() {
        let entry = entries.remove(at);
        let mut known = add_address(entry, device.ip);
        if known.hostname.as_str().is_empty() && !device.hostname.as_str().is_empty() {
            known.hostname = device.hostname;
        }
        entries.insert(at, known);
        assert(combined_view(entries@) =~= absorb_arp(before, device));
    } else {
        let (v4, v6) = first_addresses(device.ip);
        entries.push(
            CombinedDevice {
                mac: device.mac,
                ipv4_addresses: v4,
                ipv6_addresses: v6,
                intf: device.intf,
                expired: Some(device.expired),
                expires: Some(device.expires),
                permanent: Some(device.permanent),
                device_type: Some(device.device_type),
                manufacturer: device.manufacturer,
                hostname: device.hostname,
                intf_description: device.intf_description,
            },
        );
        assert(combined_view(entries@) =~= absorb_arp(before, device));
    }
}

fn take_ndp(entries: &mut Vec<CombinedDevice>, device: NdpDevice)
    ensures
        combined_view(final(entries)@) == absorb_ndp(combined_view(old(entries)@), device),
{
    let ghost before = combined_view(entries@);
    let at = find_mac(entries, device.mac.as_str());
    if at < entries.len() {
        let entry = entries.remove(at);
        let mut known = add_address(entry, device.ip);
        if known.manufacturer.as_str().is_empty() && !device.manufacturer.as_str().is_empty() {
            known.manufacturer = device.manufacturer;
        }
        entries.insert(at, known);
        assert(combined_view(entries@) =~= absorb_ndp(before, device));
    } else {
        let (v4, v6) = first_addresses(device.ip);
        entries.push(
            CombinedDevice {
                mac: device.mac,
                ipv4_addresses: v4,
                ipv6_addresses: v6,
                intf: device.intf,
                expired: None,
                expires: None,
                permanent: None,
                device_type: None,
                manufacturer: device.manufacturer,
                hostname: String::new(),
                intf_description: device.intf_description,
            },
        );
        assert(combined_view(entries@) =~= absorb_ndp(before, device));
    }
}

/// One entry per hardware address for an ARP and an NDP table, in the
/// order in which the addresses first appear.
pub fn merge_devices(arp: Vec<Device>, ndp: Vec<NdpDevice>) -> (entries: Vec<CombinedDevice>)
    ensures
        combined_view(entries@) == merged(arp@, ndp@, ndp.len() as int),
{
    let ghost all_arp = arp@;
    let ghost all_ndp = ndp@;
    let mut entries: Vec<CombinedDevice> = Vec::new();
    let mut arp_left = reversed_devices(arp);
    assert(combined_view(entries@) =~= arp_merged(all_arp, 0));
    while arp_left.len() > 0
        invariant
            arp_left.len() <= all_arp.len(),
            forall|j: int|
                0 <= j < arp_left.len() ==> #[trigger] arp_left[j] == all_arp[all_arp.len() - 1 - j],
            combined_view(entries@) == arp_merged(all_arp, all_arp.len() - arp_left.len()),
        decreases arp_left.len(),
    {
        let device = arp_left.pop().unwrap();
        take_arp(&mut entries, device);
    }
    let mut ndp_left = reversed_ndp(ndp);
    while ndp_left.len() > 0
        invariant
            ndp_left.len() <= all_ndp.len(),
            forall|j: int|
                0 <= j < ndp_left.len() ==> #[trigger] ndp_left[j] == all_ndp[all_ndp.len() - 1 - j],
            combined_view(entries@) == merged(all_arp, all_ndp, all_ndp.len() - ndp_left.len()),
        decreases ndp_left.len(),
    {
        let device = ndp_left.pop().unwrap();
        take_ndp(&mut entries, device);
    }
    entries
}

fn reversed_devices(devices: Vec<Device>) -> (out: Vec<Device>)
    ensures
        out.len() == devices.len(),
        forall|j: int| 0 <= j < out.len() ==> #[trigger] out[j] == devices[devices.len() - 1 - j],
{
    let ghost all = devices@;
    let mut pending = devices;
    let mut out: Vec<Device> = Vec::new();
    while pending.len() > 0
        invariant
            pending.len() + out.len() == all.len(),
            pending@ == all.take(pending.len() as int),
            forall|j: int| 0 <= j < out.len() ==> #[trigger] out[j] == all[all.len() - 1 - j],
        decreases pending.len(),
    {
        let ghost k = pending.len() - 1;
        let device = pending.pop().unwrap();
        assert(device == all[k]);
        assert(pending@ =~= all.take(k));
        out.push(device);
    }
    out
}

fn reversed_ndp(devices: Vec<NdpDevice>) -> (out: Vec<NdpDevice>)
    ensures
        out.len() == devices.len(),
        forall|j: int| 0 <= j < out.len() ==> #[trigger] out[j] == devices[devices.len() - 1 - j],
{
    let ghost all = devices@;
    let mut pending = devices;
    let mut out: Vec<NdpDevice> = Vec::new();
    while pending.len() > 0
        invariant
            pending.len() + out.len() == all.len(),
            pending@ == all.take(pending.len() as int),
            forall|j: int| 0 <= j < out.len() ==> #[trigger] out[j] == all[all.len() - 1 - j],
        decreases pending.len(),
    {
        let ghost k = pending.len() - 1;
        let device = pending.pop().unwrap();
        assert(device == all[k]);
        assert(pending@ =~= all.take(k));
        out.push(device);
    }
    out
}

fn sort_natural(addresses: Vec<String>) -> (out: Vec<String>)
    ensures
        addresses_view(out@) == stable_sorted(
            addresses_view(addresses@),
            |a: Seq<char>, b: Seq<char>| natural_less(a, b),
        ),
{
    let ghost all = addresses_view(addresses@);
    let ghost less = |a: Seq<char>, b: Seq<char>| natural_less(a, b);
    let mut pending = addresses;
    let mut out: Vec<String> = Vec::new();
    assert(all.skip(all.len() as int) =~= Seq::empty());
    assert(addresses_view(out@) =~= stable_sorted(all.skip(all.len() as int), less));
    while pending.len() > 0
        invariant
            pending.len() <= all.len(),
            less == (|a: Seq<char>, b: Seq<char>| natural_less(a, b)),
            addresses_view(pending@) == all.take(pending.len() as int),
            addresses_view(out@) == stable_sorted(all.skip(pending.len() as int), less),
        decreases pending.len(),
    {
        let ghost before_pending = addresses_view(pending@);
        let ghost k = pending.len() - 1;
        let item = pending.pop().unwrap();
        let ghost sorted = addresses_view(out@);
        proof {
            assert(item@ == before_pending[k]);
            assert(addresses_view(pending@) =~= all.take(k));
            assert(all.skip(k).drop_first() =~= all.skip(k + 1));
            assert(all.skip(k)[0] == all[k]);
            assert(sorted.skip(0) =~= sorted);
        }
        let mut p: usize = 0;
        while p < out.len() && natural_order_of(out[p].as_str(), item.as_str()) == Order::Less
            invariant
                p <= out.len(),
                sorted == addresses_view(out@),
                less == (|a: Seq<char>, b: Seq<char>| natural_less(a, b)),
                count_before(sorted, item@, less) == p + count_before(
                    sorted.skip(p as int),
                    item@,
                    less,
                ),
            decreases out.len() - p,
        {
            proof {
                assert(sorted[p as int] == out[p as int]@);
                lemma_count_before_step(sorted, item@, less, p as int);
            }
            p = p + 1;
        }
        proof {
            if p < out.len() {
                assert(sorted[p as int] == out[p as int]@);
            }
            lemma_count_before_stop(sorted, item@, less, p as int);
        }
        out.insert(p, item);
        assert(addresses_view(out@) =~= sorted.insert(p as int, all[k]));
    }
    assert(all.skip(0) =~= all);
    out
}

fn sort_text(addresses: Vec<String>) -> (out: Vec<String>)
    ensures
        addresses_view(out@) == stable_sorted(
            addresses_view(addresses@),
            |a: Seq<char>, b: Seq<char>| text_less(a, b),
        ),
{
    let ghost all = addresses_view(addresses@);
    let ghost less = |a: Seq<char>, b: Seq<char>| text_less(a, b);
    let mut pending = addresses;
    let mut out: Vec<String> = Vec::new();
    assert(all.skip(all.len() as int) =~= Seq::empty());
    assert(addresses_view(out@) =~= stable_sorted(all.skip(all.len() as int), less));
    while pending.len() > 0
        invariant
            pending.len() <= all.len(),
            less == (|a: Seq<char>, b: Seq<char>| text_less(a, b)),
            addresses_view(pending@) == all.take(pending.len() as int),
            addresses_view(out@) == stable_sorted(all.skip(pending.len() as int), less),
        decreases pending.len(),
    {
        let ghost before_pending = addresses_view(pending@);
        let ghost k = pending.len() - 1;
        let item = pending.pop().unwrap();
        let ghost sorted = addresses_view(out@);
        proof {
            assert(item@ == before_pending[k]);
            assert(addresses_view(pending@) =~= all.take(k));
            assert(all.skip(k).drop_first() =~= all.skip(k + 1));
            assert(all.skip(k)[0] == all[k]);
            assert(sorted.skip(0) =~= sorted);
        }
        let mut p: usize = 0;
        while p < out.len() && order_bytes(out[p].as_str().as_bytes(), item.as_str().as_bytes())
            == Order::Less
            invariant
                p <= out.len(),
                sorted == addresses_view(out@),
                less == (|a: Seq<char>, b: Seq<char>| text_less(a, b)),
                count_before(sorted, item@, less) == p + count_before(
                    sorted.skip(p as int),
                    item@,
                    less,
                ),
            decreases out.len() - p,
        {
            proof {
                assert(sorted[p as int] == out[p as int]@);
                lemma_count_before_step(sorted, item@, less, p as int);
            }
            p = p + 1;
        }
        proof {
            if p < out.len() {
                assert(sorted[p as int] == out[p as int]@);
            }
            lemma_count_before_stop(sorted, item@, less, p as int);
        }
        out.insert(p, item);
        assert(addresses_view(out@) =~= sorted.insert(p as int, all[k]));
    }
    assert(all.skip(0) =~= all);
    out
}

/// Whether a device sits on a CARP interface.
pub fn is_on_carp(intf: &str, description: &str) -> (yes: bool)
    ensures
        yes == on_carp(intf@, description@),
{
    if contains_bytes(intf.as_bytes(), "_vip".as_bytes()) {
        return true;
    }
    if starts_with_bytes(intf.as_bytes(), "carp".as_bytes()) {
        return true;
    }
    let lower = lowercase(description);
    contains_bytes(lower.as_str().as_bytes(), "carp".as_bytes())
}

fn tidy(entry: CombinedDevice) -> (out: CombinedDevice)
    ensures
        out@ == tidied(entry@),
{
    let carp = is_on_carp(entry.intf.as_str(), entry.intf_description.as_str());
    let mut description = entry.intf_description;
    if carp {
        description.append(" (CARP VIP)");
    }
    CombinedDevice {
        mac: entry.mac,
        ipv4_addresses: sort_natural(entry.ipv4_addresses),
        ipv6_addresses: sort_text(entry.ipv6_addresses),
        intf: entry.intf,
        expired: entry.expired,
        expires: entry.expires,
        permanent: entry.permanent,
        device_type: entry.device_type,
        manufacturer: entry.manufacturer,
        hostname: entry.hostname,
        intf_description: description,
    }
}

/// How two devices stand in the list.
pub fn order_devices(a: &CombinedDevice, b: &CombinedDevice) -> (order: Order)
    ensures
        order == device_order(a@, b@),
{
    let by_intf = order_bytes(a.intf.as_str().as_bytes(), b.intf.as_str().as_bytes());
    match by_intf {
        Order::Equal => {},
        _ => {
            return by_intf;
        },
    }
    let a_v4 = a.ipv4_addresses.len() > 0;
    let b_v4 = b.ipv4_addresses.len() > 0;
    let a_v6 = a.ipv6_addresses.len() > 0;
    let b_v6 = b.ipv6_addresses.len() > 0;
    if a_v4 && !b_v4 {
        Order::Less
    } else if !a_v4 && b_v4 {
        Order::Greater
    } else if a_v4 {
        assert(a@.ipv4_addresses[0] == a.ipv4_addresses[0]@);
        assert(b@.ipv4_addresses[0] == b.ipv4_addresses[0]@);
        natural_order_of(a.ipv4_addresses[0].as_str(), b.ipv4_addresses[0].as_str())
    } else if a_v6 && b_v6 {
        assert(a@.ipv6_addresses[0] == a.ipv6_addresses[0]@);
        assert(b@.ipv6_addresses[0] == b.ipv6_addresses[0]@);
        order_bytes(
            a.ipv6_addresses[0].as_str().as_bytes(),
            b.ipv6_addresses[0].as_str().as_bytes(),
        )
    } else if !a_v6 && b_v6 {
        Order::Greater
    } else if a_v6 && !b_v6 {
        Order::Less
    } else {
        order_bytes(a.mac.as_str().as_bytes(), b.mac.as_str().as_bytes())
    }
}

fn sort_devices(devices: Vec<CombinedDevice>) -> (out: Vec<CombinedDevice>)
    ensures
        combined_view(out@) == stable_sorted(
            combined_view(devices@),
            |a: CombinedView, b: CombinedView| device_less(a, b),
        ),
{
    let ghost all = combined_view(devices@);
    let ghost less = |a: CombinedView, b: CombinedView| device_less(a, b);
    let mut pending = devices;
    let mut out: Vec<CombinedDevice> = Vec::new();
    assert(all.skip(all.len() as int) =~= Seq::empty());
    assert(combined_view(out@) =~= stable_sorted(all.skip(all.len() as int), less));
    while pending.len() > 0
        invariant
            pending.len() <= all.len(),
            less == (|a: CombinedView, b: CombinedView| device_less(a, b)),
            combined_view(pending@) == all.take(pending.len() as int),
            combined_view(out@) == stable_sorted(all.skip(pending.len() as int), less),
        decreases pending.len(),
    {
        let ghost before_pending = combined_view(pending@);
        let ghost k = pending.len() - 1;
        let item = pending.pop().unwrap();
        let ghost sorted = combined_view(out@);
        proof {
            assert(item@ == before_pending[k]);
            assert(combined_view(pending@) =~= all.take(k));
            assert(all.skip(k).drop_first() =~= all.skip(k + 1));
            assert(all.skip(k)[0] == all[k]);
            assert(sorted.skip(0) =~= sorted);
        }
        let mut p: usize = 0;
        while p < out.len() && order_devices(&out[p], &item) == Order::Less
            invariant
                p <= out.len(),
                sorted == combined_view(out@),
                less == (|a: CombinedView, b: CombinedView| device_less(a, b)),
                count_before(sorted, item@, less) == p + count_before(
                    sorted.skip(p as int),
                    item@,
                    less,
                ),
            decreases out.len() - p,
        {
            proof {
                assert(sorted[p as int] == out[p as int]@);
                lemma_count_before_step(sorted, item@, less, p as int);
            }
            p = p + 1;
        }
        proof {
            if p < out.len() {
                assert(sorted[p as int] == out[p as int]@);
            }
            lemma_count_before_stop(sorted, item@, less, p as int);
        }
        out.insert(p, item);
        assert(combined_view(out@) =~= sorted.insert(p as int, all[k]));
    }
    assert(all.skip(0) =~= all);
    out
}

/// The device list for an ARP and an NDP table.
pub fn combine_devices(arp: Vec<Device>, ndp: Vec<NdpDevice>) -> (devices: Vec<CombinedDevice>)
    ensures
        combined_view(devices@) == combined(arp@, ndp@),
{
    let entries = merge_devices(arp, ndp);
    let ghost raw = combined_view(entries@);
    let mut pending = entries;
    let mut reversed: Vec<CombinedDevice> = Vec::new();
    while pending.len() > 0
        invariant
            pending.len() + reversed.len() == raw.len(),
            combined_view(pending@) == raw.take(pending.len() as int),
            forall|j: int|
                0 <= j < reversed.len() ==> (#[trigger] reversed[j])@ == tidied(
                    raw[raw.len() - 1 - j],
                ),
        decreases pending.len(),
    {
        let ghost before = combined_view(pending@);
        let ghost k = pending.len() - 1;
        let entry = pending.pop().unwrap();
        assert(entry@ == before[k]);
        assert(combined_view(pending@) =~= raw.take(k));
        reversed.push(tidy(entry));
    }
    let ghost back = combined_view(reversed@);
    let mut tidy_entries: Vec<CombinedDevice> = Vec::new();
    while reversed.len() > 0
        invariant
            reversed.len() + tidy_entries.len() == raw.len(),
            back.len() == raw.len(),
            forall|j: int| 0 <= j < back.len() ==> #[trigger] back[j] == tidied(raw[raw.len() - 1 - j]),
            combined_view(reversed@) == back.take(reversed.len() as int),
            forall|j: int|
                0 <= j < tidy_entries.len() ==> (#[trigger] tidy_entries[j])@ == tidied(raw[j]),
        decreases reversed.len(),
    {
        let ghost before = combined_view(reversed@);
        let ghost k = reversed.len() - 1;
        let entry = reversed.pop().unwrap();
        assert(entry@ == before[k]);
        assert(combined_view(reversed@) =~= back.take(k));
        tidy_entries.push(entry);
    }
    assert(combined_view(tidy_entries@) =~= raw.map_values(|e: CombinedView| tidied(e)));
    sort_devices(tidy_entries)
}

/// The first words of the first `n` lines, lines without a word left out.
pub open spec fn first_words(lines: Seq<Seq<char>>, n: int) -> Seq<Seq<char>>
    decreases n,
{
    if n <= 0 {
        Seq::empty()
    } else if first_word_text(lines[n - 1]).len() > 0 {
        first_words(lines, n - 1).push(first_word_text(lines[n - 1]))
    } else {
        first_words(lines, n - 1)
    }
}

/// Reads what flushing the ARP table printed: the first word of every
/// line that has one is an address that was removed.
pub fn flushed_addresses(body: &str) -> (response: FlushArpResponse)
    ensures
        addresses_view(response.deleted@) == first_words(
            split_on(body@, '\n'),
            split_on(body@, '\n').len() as int,
        ),
{
    let all = split_text(body, '\n');
    let ghost lines = texts_of(all@);
    let mut deleted: Vec<String> = Vec::new();
    let mut i: usize = 0;
    assert(addresses_view(deleted@) =~= first_words(lines, 0));
    while i < all.len()
        invariant
            i <= all.len(),
            lines == texts_of(all@),
            addresses_view(deleted@) == first_words(lines, i as int),
        decreases all.len() - i,
    {
        let ghost before = addresses_view(deleted@);
        assert(lines[i as int] == all[i as int]@);
        let word = first_word(all[i].as_str());
        if !word.as_str().is_empty() {
            deleted.push(word);
            assert(addresses_view(deleted@) =~= before.push(word@));
        }
        i = i + 1;
    }
    FlushArpResponse { deleted }
}

} // verus!
