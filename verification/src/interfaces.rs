//! The interface list as the dashboard shows it: interfaces that a
//! high-availability pair reports twice are shown once, and the list is
//! ordered with the interfaces in use first.

use vstd::prelude::*;
use vstd::utf8::encode_utf8;

use crate::order::{
    bytes_order, count_before, lemma_count_before_step, lemma_count_before_stop, order_bytes,
    stable_sorted, Order,
};
use crate::text::{
    contains_bytes, decimal, decimal_text, has_byte, has_part, lowercase, lowercase_of,
    occurs_at, same_text, starts_with_bytes,
};

verus! {

/// The VLAN an interface belongs to.
#[derive(Debug, PartialEq, Eq)]
pub struct VlanInfo {
    pub tag: String,
    pub proto: String,
    pub pcp: String,
    pub parent: String,
}

/// One address of an interface.
#[derive(Debug, PartialEq, Eq)]
pub struct IpAddress {
    pub ipaddr: String,
}

/// What the arrangement of the list reads of an interface.
#[derive(Debug, PartialEq, Eq)]
pub struct InterfaceSummary {
    pub device: String,
    pub description: String,
    pub groups: Vec<String>,
    pub status: String,
    pub identifier: String,
}

/// An [`InterfaceSummary`] as a mathematical value.
pub struct SummaryView {
    pub device: Seq<char>,
    pub description: Seq<char>,
    pub groups: Seq<Seq<char>>,
    pub status: Seq<char>,
    pub identifier: Seq<char>,
}

/// A list of texts as a mathematical value.
pub open spec fn names_view(names: Seq<String>) -> Seq<Seq<char>> {
    names.map_values(|n: String| n@)
}

impl View for InterfaceSummary {
    type V = SummaryView;

    open spec fn view(&self) -> SummaryView {
        SummaryView {
            device: self.device@,
            description: self.description@,
            groups: names_view(self.groups@),
            status: self.status@,
            identifier: self.identifier@,
        }
    }
}

/// The summaries as mathematical values, in their order.
pub open spec fn summaries_view(summaries: Seq<InterfaceSummary>) -> Seq<SummaryView> {
    summaries.map_values(|s: InterfaceSummary| s@)
}

/// Whether a text, in lower case, mentions `word`.
pub open spec fn mentions_lower(text: Seq<char>, word: Seq<char>) -> bool {
    has_part(encode_utf8(lowercase_of(text)), encode_utf8(word))
}

/// Whether a device is a CARP device by its name: the name holds `_vip`
/// or begins with `carp`.
pub open spec fn carp_named(device: Seq<char>) -> bool {
    has_part(encode_utf8(device), encode_utf8("_vip"@)) || occurs_at(
        encode_utf8(device),
        encode_utf8("carp"@),
        0,
    )
}

/// Whether some group mentions CARP.
pub open spec fn carp_grouped(groups: Seq<Seq<char>>) -> bool {
    exists|i: int| 0 <= i < groups.len() && mentions_lower(#[trigger] groups[i], "carp"@)
}

/// Whether an interface belongs to a high-availability setup: by its
/// device name, by a description that mentions both CARP and VIP, or by a
/// group that mentions CARP.
pub open spec fn is_carp(interface: SummaryView) -> bool {
    ||| carp_named(interface.device)
    ||| mentions_lower(interface.description, "carp"@) && mentions_lower(
        interface.description,
        "vip"@,
    )
    ||| carp_grouped(interface.groups)
}

/// Whether an interface before the one at `i` has the same device.
pub open spec fn seen_before(all: Seq<SummaryView>, i: int) -> bool {
    exists|j: int| 0 <= j < i && (#[trigger] all[j]).device == all[i].device
}

/// Whether the interface at `i` is shown: every interface is, but a CARP
/// interface whose device was seen before.
pub open spec fn is_kept(all: Seq<SummaryView>, i: int) -> bool {
    !is_carp(all[i]) || !seen_before(all, i)
}

/// The positions among the first `n` of the interfaces that are shown.
pub open spec fn kept(all: Seq<SummaryView>, n: int) -> Seq<int>
    decreases n,
{
    if n <= 0 {
        Seq::empty()
    } else if is_kept(all, n - 1) {
        kept(all, n - 1).push(n - 1)
    } else {
        kept(all, n - 1)
    }
}

/// Whether an interface is up.
pub open spec fn is_up(interface: SummaryView) -> bool {
    lowercase_of(interface.status) == "up"@
}

/// How two interfaces stand in the list: those that are up first; then
/// physical interfaces before CARP devices; then assigned interfaces,
/// those with an identifier, before the others; and last by device name.
pub open spec fn interface_order(a: SummaryView, b: SummaryView) -> Order {
    if is_up(a) && !is_up(b) {
        Order::Less
    } else if !is_up(a) && is_up(b) {
        Order::Greater
    } else if !carp_named(a.device) && carp_named(b.device) {
        Order::Less
    } else if carp_named(a.device) && !carp_named(b.device) {
        Order::Greater
    } else if a.identifier.len() > 0 && b.identifier.len() == 0 {
        Order::Less
    } else if a.identifier.len() == 0 && b.identifier.len() > 0 {
        Order::Greater
    } else {
        bytes_order(encode_utf8(a.device), encode_utf8(b.device))
    }
}

/// The positions of the interfaces to show, in the order of the list.
pub open spec fn arranged(all: Seq<SummaryView>) -> Seq<int> {
    stable_sorted(
        kept(all, all.len() as int),
        |i: int, j: int| interface_order(all[i], all[j]) == Order::Less,
    )
}

/// How many of the first `n` interfaces belong to a high-availability setup.
pub open spec fn carp_count(all: Seq<SummaryView>, n: int) -> nat
    decreases n,
{
    if n <= 0 {
        0
    } else if is_carp(all[n - 1]) {
        carp_count(all, n - 1) + 1
    } else {
        carp_count(all, n - 1)
    }
}

/// Whether the interfaces are those of a high-availability setup: one of
/// them belongs to such a setup, or more than a tenth of them is not shown.
pub open spec fn is_ha(all: Seq<SummaryView>) -> bool {
    carp_count(all, all.len() as int) > 0 || all.len() - kept(all, all.len() as int).len()
        > all.len() / 10
}

/// Whether a device is a physical one: its name holds neither a dot nor
/// a colon.
pub open spec fn is_physical(device: Seq<char>) -> bool {
    !encode_utf8(device).contains(0x2Eu8) && !encode_utf8(device).contains(0x3Au8)
}

/// Whether a device is a physical one.
pub fn is_physical_device(device: &str) -> (yes: bool)
    ensures
        yes == is_physical(device@),
{
    !has_byte(device.as_bytes(), 0x2E) && !has_byte(device.as_bytes(), 0x3A)
}

fn lower_has(text: &str, word: &str) -> (yes: bool)
    ensures
        yes == mentions_lower(text@, word@),
{
    let lower = lowercase(text);
    contains_bytes(lower.as_str().as_bytes(), word.as_bytes())
}

fn named_carp(device: &str) -> (yes: bool)
    ensures
        yes == carp_named(device@),
{
    contains_bytes(device.as_bytes(), "_vip".as_bytes()) || starts_with_bytes(
        device.as_bytes(),
        "carp".as_bytes(),
    )
}

fn grouped_carp(groups: &Vec<String>) -> (yes: bool)
    ensures
        yes == carp_grouped(names_view(groups@)),
{
    let mut i: usize = 0;
    while i < groups.len()
        invariant
            i <= groups.len(),
            forall|j: int| 0 <= j < i ==> !mentions_lower(#[trigger] names_view(groups@)[j], "carp"@),
        decreases groups.len() - i,
    {
        assert(names_view(groups@)[i as int] == groups[i as int]@);
        if lower_has(groups[i].as_str(), "carp") {
            return true;
        }
        i = i + 1;
    }
    false
}

/// Whether an interface belongs to a high-availability setup.
pub fn is_carp_interface(interface: &InterfaceSummary) -> (yes: bool)
    ensures
        yes == is_carp(interface@),
{
    if named_carp(interface.device.as_str()) {
        return true;
    }
    if lower_has(interface.description.as_str(), "carp") && lower_has(
        interface.description.as_str(),
        "vip",
    ) {
        return true;
    }
    grouped_carp(&interface.groups)
}

fn device_seen_before(interfaces: &Vec<InterfaceSummary>, i: usize) -> (yes: bool)
    requires
        i < interfaces.len(),
    ensures
        yes == seen_before(summaries_view(interfaces@), i as int),
{
    let ghost all = summaries_view(interfaces@);
    let mut j: usize = 0;
    while j < i
        invariant
            j <= i,
            i < interfaces.len(),
            all == summaries_view(interfaces@),
            forall|k: int| 0 <= k < j ==> (#[trigger] all[k]).device != all[i as int].device,
        decreases i - j,
    {
        if same_text(interfaces[j].device.as_str(), interfaces[i].device.as_str()) {
            assert(all[j as int].device == all[i as int].device);
            return true;
        }
        j = j + 1;
    }
    false
}

/// What the order of the list reads of an interface.
struct Rank {
    up: bool,
    carp: bool,
    assigned: bool,
}

fn rank_of(interface: &InterfaceSummary) -> (rank: Rank)
    ensures
        rank.up == is_up(interface@),
        rank.carp == carp_named(interface@.device),
        rank.assigned == (interface@.identifier.len() > 0),
{
    let lower = lowercase(interface.status.as_str());
    Rank {
        up: same_text(lower.as_str(), "up"),
        carp: named_carp(interface.device.as_str()),
        assigned: !interface.identifier.as_str().is_empty(),
    }
}

/// How two interfaces stand in the list.
pub fn order_interfaces(a: &InterfaceSummary, b: &InterfaceSummary) -> (order: Order)
    ensures
        order == interface_order(a@, b@),
{
    let ra = rank_of(a);
    let rb = rank_of(b);
    if ra.up && !rb.up {
        Order::Less
    } else if !ra.up && rb.up {
        Order::Greater
    } else if !ra.carp && rb.carp {
        Order::Less
    } else if ra.carp && !rb.carp {
        Order::Greater
    } else if ra.assigned && !rb.assigned {
        Order::Less
    } else if !ra.assigned && rb.assigned {
        Order::Greater
    } else {
        order_bytes(a.device.as_str().as_bytes(), b.device.as_str().as_bytes())
    }
}

/// The positions as mathematical integers.
pub open spec fn positions_view(positions: Seq<usize>) -> Seq<int> {
    positions.map_values(|p: usize| p as int)
}

fn kept_positions(interfaces: &Vec<InterfaceSummary>) -> (positions: Vec<usize>)
    ensures
        positions_view(positions@) == kept(
            summaries_view(interfaces@),
            interfaces.len() as int,
        ),
        forall|k: int| 0 <= k < positions.len() ==> #[trigger] positions[k] < interfaces.len(),
{
    let ghost all = summaries_view(interfaces@);
    let mut positions: Vec<usize> = Vec::new();
    let mut i: usize = 0;
    assert(positions_view(positions@) =~= kept(all, 0));
    while i < interfaces.len()
        invariant
            i <= interfaces.len(),
            all == summaries_view(interfaces@),
            positions_view(positions@) == kept(all, i as int),
            forall|k: int| 0 <= k < positions.len() ==> #[trigger] positions[k] < interfaces.len(),
        decreases interfaces.len() - i,
    {
        let ghost before = positions_view(positions@);
        assert(all[i as int] == interfaces[i as int]@);
        if !is_carp_interface(&interfaces[i]) || !device_seen_before(interfaces, i) {
            positions.push(i);
            assert(positions_view(positions@) =~= before.push(i as int));
        }
        i = i + 1;
    }
    positions
}

/// The positions of the interfaces to show, in the order of the list.
pub fn arrange_interfaces(interfaces: &Vec<InterfaceSummary>) -> (positions: Vec<usize>)
    ensures
        positions_view(positions@) == arranged(summaries_view(interfaces@)),
        forall|k: int| 0 <= k < positions.len() ==> #[trigger] positions[k] < interfaces.len(),
{
    let ghost views = summaries_view(interfaces@);
    let ghost less = |i: int, j: int| interface_order(views[i], views[j]) == Order::Less;
    let shown = kept_positions(interfaces);
    let ghost all = positions_view(shown@);
    let mut pending = shown;
    let mut out: Vec<usize> = Vec::new();
    assert(all.skip(all.len() as int) =~= Seq::empty());
    assert(positions_view(out@) =~= stable_sorted(all.skip(all.len() as int), less));
    while pending.len() > 0
        invariant
            pending.len() <= all.len(),
            views == summaries_view(interfaces@),
            less == (|i: int, j: int| interface_order(views[i], views[j]) == Order::Less),
            positions_view(pending@) == all.take(pending.len() as int),
            positions_view(out@) == stable_sorted(all.skip(pending.len() as int), less),
            forall|k: int| 0 <= k < pending.len() ==> #[trigger] pending[k] < interfaces.len(),
            forall|k: int| 0 <= k < out.len() ==> #[trigger] out[k] < interfaces.len(),
        decreases pending.len(),
    {
        let ghost before_pending = positions_view(pending@);
        let ghost k = pending.len() - 1;
        let item = pending.pop().unwrap();
        let ghost sorted = positions_view(out@);
        proof {
            assert(item as int == before_pending[k]);
            assert(positions_view(pending@) =~= all.take(k));
            assert(all.skip(k).drop_first() =~= all.skip(k + 1));
            assert(all.skip(k)[0] == all[k]);
            assert(sorted.skip(0) =~= sorted);
        }
        let mut p: usize = 0;
        while p < out.len() && order_interfaces(&interfaces[out[p]], &interfaces[item])
            == Order::Less
            invariant
                p <= out.len(),
                item < interfaces.len(),
                views == summaries_view(interfaces@),
                sorted == positions_view(out@),
                less == (|i: int, j: int| interface_order(views[i], views[j]) == Order::Less),
                forall|k: int| 0 <= k < out.len() ==> #[trigger] out[k] < interfaces.len(),
                count_before(sorted, item as int, less) == p + count_before(
                    sorted.skip(p as int),
                    item as int,
                    less,
                ),
            decreases out.len() - p,
        {
            proof {
                assert(sorted[p as int] == out[p as int] as int);
                assert(views[out[p as int] as int] == interfaces[out[p as int] as int]@);
                assert(views[item as int] == interfaces[item as int]@);
                lemma_count_before_step(sorted, item as int, less, p as int);
            }
            p = p + 1;
        }
        proof {
            if p < out.len() {
                assert(sorted[p as int] == out[p as int] as int);
                assert(views[out[p as int] as int] == interfaces[out[p as int] as int]@);
                assert(views[item as int] == interfaces[item as int]@);
            }
            lemma_count_before_stop(sorted, item as int, less, p as int);
        }
        out.insert(p, item);
        assert(positions_view(out@) =~= sorted.insert(p as int, all[k]));
    }
    assert(all.skip(0) =~= all);
    out
}

/// Whether the interfaces are those of a high-availability setup.
pub fn is_ha_setup(interfaces: &Vec<InterfaceSummary>) -> (yes: bool)
    ensures
        yes == is_ha(summaries_view(interfaces@)),
{
    let ghost all = summaries_view(interfaces@);
    let mut any_carp = false;
    let mut i: usize = 0;
    while i < interfaces.len()
        invariant
            i <= interfaces.len(),
            all == summaries_view(interfaces@),
            any_carp == (carp_count(all, i as int) > 0),
        decreases interfaces.len() - i,
    {
        assert(all[i as int] == interfaces[i as int]@);
        if is_carp_interface(&interfaces[i]) {
            any_carp = true;
        }
        i = i + 1;
    }
    if any_carp {
        return true;
    }
    let shown = kept_positions(interfaces);
    proof {
        lemma_kept_len(all, all.len() as int);
        assert(positions_view(shown@).len() == shown.len());
    }
    interfaces.len() - shown.len() > interfaces.len() / 10
}

/// No more interfaces are shown than there are.
pub proof fn lemma_kept_len(all: Seq<SummaryView>, n: int)
    requires
        0 <= n,
    ensures
        kept(all, n).len() <= n,
    decreases n,
{
    if n > 0 {
        lemma_kept_len(all, n - 1);
    }
}

/// The value of a field in an answer of the firewall, as far as an
/// interface is read from it.
#[derive(Debug, PartialEq, Eq)]
pub enum FieldValue {
    Text(String),
    Unsigned(u64),
    Flag(bool),
    /// A value of any other form: nothing, a list, an object, a number
    /// that is negative or has a fraction.
    Other,
}

/// One field of an item in an answer of the firewall.
#[derive(Debug, PartialEq, Eq)]
pub struct Field {
    pub name: String,
    pub value: FieldValue,
}

/// What the fallback endpoints tell of an interface.
#[derive(Debug, PartialEq, Eq)]
pub struct BasicInterface {
    pub device: String,
    pub status: String,
    pub macaddr: String,
    pub mtu: String,
    pub media: Option<String>,
    pub description: String,
    pub is_physical: bool,
    pub enabled: bool,
}

/// A [`BasicInterface`] as a mathematical value.
pub struct BasicView {
    pub device: Seq<char>,
    pub status: Seq<char>,
    pub macaddr: Seq<char>,
    pub mtu: Seq<char>,
    pub media: Option<Seq<char>>,
    pub description: Seq<char>,
    pub is_physical: bool,
    pub enabled: bool,
}

impl View for BasicInterface {
    type V = BasicView;

    open spec fn view(&self) -> BasicView {
        BasicView {
            device: self.device@,
            status: self.status@,
            macaddr: self.macaddr@,
            mtu: self.mtu@,
            media: match self.media {
                Some(m) => Some(m@),
                None => None,
            },
            description: self.description@,
            is_physical: self.is_physical,
            enabled: self.enabled,
        }
    }
}

/// The position of the first field named `name`, or the number of fields
/// when there is none.
pub open spec fn field_index(item: Seq<Field>, name: Seq<char>) -> int
    decreases item.len(),
{
    if item.len() == 0 || item[0].name@ == name {
        0
    } else {
        1 + field_index(item.drop_first(), name)
    }
}

/// A value as text: a text as it is, a number in decimal, a flag as
/// `true` or `false`; a value of another form has no text.
pub open spec fn printed(value: FieldValue) -> Option<Seq<char>> {
    match value {
        FieldValue::Text(text) => Some(text@),
        FieldValue::Unsigned(n) => Some(decimal_text(n as nat)),
        FieldValue::Flag(flag) => Some(
            if flag {
                "true"@
            } else {
                "false"@
            },
        ),
        FieldValue::Other => None,
    }
}

/// The text of the first of the fields `names[from..]` that the item has
/// with a value that has a text.
pub open spec fn string_value(item: Seq<Field>, names: Seq<&str>, from: int) -> Option<Seq<char>>
    decreases names.len() - from,
{
    if from < 0 || from >= names.len() {
        None
    } else {
        let at = field_index(item, names[from]@);
        if at < item.len() && printed(item[at].value) is Some {
            printed(item[at].value)
        } else {
            string_value(item, names, from + 1)
        }
    }
}

/// The names a device may go by in an item, in the order they are tried.
pub open spec fn device_fields() -> Seq<&'static str> {
    seq!["device", "if", "interface", "name"]
}

/// The name of the device an item describes: the value of the first of
/// the fields `device`, `if`, `interface` and `name` that the item has,
/// if that value is a text; the empty name otherwise.
pub open spec fn device_of(item: Seq<Field>, from: int) -> Seq<char>
    decreases device_fields().len() - from,
{
    if from < 0 || from >= device_fields().len() {
        Seq::empty()
    } else {
        let at = field_index(item, device_fields()[from]@);
        if at < item.len() {
            match item[at].value {
                FieldValue::Text(text) => text@,
                _ => Seq::empty(),
            }
        } else {
            device_of(item, from + 1)
        }
    }
}

/// A text, or the given one where there is none.
pub open spec fn or_text(text: Option<Seq<char>>, default: Seq<char>) -> Seq<char> {
    match text {
        Some(t) => t,
        None => default,
    }
}

/// The interface an item describes, or `None` for an item without a
/// device name.
pub open spec fn basic_interface(item: Seq<Field>) -> Option<BasicView> {
    let device = device_of(item, 0);
    if device.len() == 0 {
        None
    } else {
        let status = or_text(string_value(item, seq!["status", "state", "up"], 0), "unknown"@);
        Some(
            BasicView {
                device,
                status,
                macaddr: or_text(
                    string_value(item, seq!["macaddr", "mac", "ether"], 0),
                    Seq::empty(),
                ),
                mtu: or_text(string_value(item, seq!["mtu"], 0), Seq::empty()),
                media: string_value(item, seq!["media", "type"], 0),
                description: or_text(
                    string_value(item, seq!["description", "descr", "desc", "comment"], 0),
                    Seq::empty(),
                ),
                is_physical: is_physical(device),
                enabled: lowercase_of(status) == "up"@,
            },
        )
    }
}

proof fn lemma_field_index(item: Seq<Field>, name: Seq<char>, i: int)
    requires
        0 <= i <= item.len(),
        forall|j: int| 0 <= j < i ==> (#[trigger] item[j]).name@ != name,
        i < item.len() ==> item[i].name@ == name,
    ensures
        field_index(item, name) == i,
    decreases item.len(),
{
    if item.len() > 0 && i > 0 {
        assert(item[0].name@ != name);
        let rest = item.drop_first();
        assert forall|j: int| 0 <= j < i - 1 implies (#[trigger] rest[j]).name@ != name by {
            assert(rest[j] == item[j + 1]);
        }
        if i - 1 < rest.len() {
            assert(rest[i - 1] == item[i]);
        }
        lemma_field_index(rest, name, i - 1);
    }
}

fn find_field(item: &Vec<Field>, name: &str) -> (at: usize)
    ensures
        at == field_index(item@, name@),
        at <= item.len(),
{
    let mut i: usize = 0;
    while i < item.len()
        invariant
            i <= item.len(),
            forall|j: int| 0 <= j < i ==> (#[trigger] item@[j]).name@ != name@,
        decreases item.len() - i,
    {
        if same_text(item[i].name.as_str(), name) {
            proof {
                lemma_field_index(item@, name@, i as int);
            }
            return i;
        }
        i = i + 1;
    }
    proof {
        lemma_field_index(item@, name@, i as int);
    }
    i
}

fn print_value(value: &FieldValue) -> (text: Option<String>)
    ensures
        match text {
            Some(t) => printed(*value) == Some(t@),
            None => printed(*value) is None,
        },
{
    match value {
        FieldValue::Text(text) => Some(text.clone()),
        FieldValue::Unsigned(n) => Some(decimal(*n)),
        FieldValue::Flag(flag) => Some(
            if *flag {
                "true".to_owned()
            } else {
                "false".to_owned()
            },
        ),
        FieldValue::Other => None,
    }
}

/// The text of the first of the fields `names` that the item has with a
/// value that has a text.
pub fn get_string_value(item: &Vec<Field>, names: &[&str]) -> (text: Option<String>)
    ensures
        match text {
            Some(t) => string_value(item@, names@, 0) == Some(t@),
            None => string_value(item@, names@, 0) is None,
        },
{
    let mut i: usize = 0;
    while i < names.len()
        invariant
            i <= names.len(),
            string_value(item@, names@, 0) == string_value(item@, names@, i as int),
        decreases names.len() - i,
    {
        let at = find_field(item, names[i]);
        if at < item.len() {
            match print_value(&item[at].value) {
                Some(text) => {
                    return Some(text);
                },
                None => {},
            }
        }
        i = i + 1;
    }
    None
}

fn device_name(item: &Vec<Field>) -> (name: String)
    ensures
        name@ == device_of(item@, 0),
{
    let names = ["device", "if", "interface", "name"];
    assert(names@ =~= device_fields());
    let mut i: usize = 0;
    while i < 4
        invariant
            i <= 4,
            names@ == device_fields(),
            device_of(item@, 0) == device_of(item@, i as int),
        decreases 4 - i,
    {
        let at = find_field(item, names[i]);
        if at < item.len() {
            return match &item[at].value {
                FieldValue::Text(text) => text.clone(),
                _ => String::new(),
            };
        }
        i = i + 1;
    }
    String::new()
}

fn text_or(text: Option<String>, default: &str) -> (out: String)
    ensures
        out@ == or_text(
            match text {
                Some(t) => Some(t@),
                None => None,
            },
            default@,
        ),
{
    match text {
        Some(t) => t,
        None => default.to_owned(),
    }
}

/// The interface an item of an answer describes, or `None` for an item
/// without a device name.
pub fn interface_from_fields(item: &Vec<Field>) -> (interface: Option<BasicInterface>)
    ensures
        match interface {
            Some(i) => basic_interface(item@) == Some(i@),
            None => basic_interface(item@) is None,
        },
{
    let device = device_name(item);
    if device.as_str().is_empty() {
        return None;
    }
    let status_names = ["status", "state", "up"];
    let mac_names = ["macaddr", "mac", "ether"];
    let mtu_names = ["mtu"];
    let media_names = ["media", "type"];
    let description_names = ["description", "descr", "desc", "comment"];
    proof {
        reveal_strlit("");
        assert(status_names@ =~= seq!["status", "state", "up"]);
        assert(mac_names@ =~= seq!["macaddr", "mac", "ether"]);
        assert(mtu_names@ =~= seq!["mtu"]);
        assert(media_names@ =~= seq!["media", "type"]);
        assert(description_names@ =~= seq!["description", "descr", "desc", "comment"]);
    }
    let status = text_or(get_string_value(item, status_names.as_slice()), "unknown");
    let enabled = same_text(lowercase(status.as_str()).as_str(), "up");
    let is_physical = is_physical_device(device.as_str());
    let macaddr = text_or(get_string_value(item, mac_names.as_slice()), "");
    let mtu = text_or(get_string_value(item, mtu_names.as_slice()), "");
    let media = get_string_value(item, media_names.as_slice());
    let description = text_or(get_string_value(item, description_names.as_slice()), "");
    assert(""@ =~= Seq::<char>::empty());
    Some(BasicInterface { status, macaddr, mtu, media, description, is_physical, enabled, device })
}

/// How many interfaces are asked for in one page.
pub const PAGE_SIZE: usize = 50;

/// How often a page is tried before the fetch ends.
pub const MAX_PAGE_RETRIES: u64 = 3;

/// How long the first try of a page may take, in seconds.
pub const FIRST_PAGE_TIMEOUT_SECS: u64 = 15;

/// Where the fetch of the interface pages stands.
#[derive(Clone, Copy, Debug, PartialEq, Eq, Structural)]
pub struct PageFetch {
    /// The page to fetch, counted from 1.
    pub current_page: usize,
    /// How often fetching this page has failed.
    pub retry_count: u64,
    /// How long the next try may take, in seconds.
    pub current_timeout: u64,
}

/// What a try at a page brought.
#[derive(Clone, Copy, Debug, PartialEq, Eq, Structural)]
pub enum PageEvent {
    /// The page was read; the firewall reports so many interfaces in all
    /// and so many to a page.
    Read { total: usize, row_count: usize },
    /// An answer came that could not be read as a page of interfaces.
    Unreadable,
    /// The request failed, with or without mention of a timeout.
    Failed { timed_out: bool },
}

/// What the fetch does next.
#[derive(Clone, Copy, Debug, PartialEq, Eq, Structural)]
pub enum PageAction {
    /// Fetch the next page, at once.
    NextPage,
    /// Wait so many milliseconds, then try the page again.
    Retry { delay_ms: u64 },
    /// Wait so many milliseconds, then end the fetch with the interfaces
    /// collected so far.
    Finish { delay_ms: u64 },
    /// Wait so many milliseconds, then give the fetch up: nothing was
    /// collected.
    GiveUp { delay_ms: u64 },
}

/// How many pages hold `total` interfaces at `row_count` to a page: the
/// quotient rounded up. A firewall that reports no rows to a page has no
/// pages if it has no interfaces, and more than can be counted otherwise.
pub open spec fn page_count(total: usize, row_count: usize) -> int {
    if row_count == 0 {
        if total == 0 {
            0
        } else {
            usize::MAX as int
        }
    } else if total % row_count == 0 {
        total as int / row_count as int
    } else {
        total as int / row_count as int + 1
    }
}

/// `a + b`, or the largest number where the sum does not fit.
pub open spec fn capped_sum(a: u64, b: u64) -> u64 {
    if a + b > u64::MAX {
        u64::MAX
    } else {
        (a + b) as u64
    }
}

/// The wait before the next try after `retry_count` failures: half a
/// second for each.
pub open spec fn retry_delay_ms(retry_count: u64) -> u64 {
    if retry_count * 500 > u64::MAX {
        u64::MAX
    } else {
        (retry_count * 500) as u64
    }
}

/// The state in which the fetch of a page starts.
pub open spec fn page_start(page: usize) -> PageFetch {
    PageFetch { current_page: page, retry_count: 0, current_timeout: FIRST_PAGE_TIMEOUT_SECS }
}

/// The state of the fetch after an event.
///
/// A page that was read leads on to the next page, with a fresh count of
/// retries and the first timeout, unless it was the last. A failure counts
/// as a retry and grants the next try five seconds more, and ten on top
/// where the request timed out.
pub open spec fn page_state(state: PageFetch, event: PageEvent) -> PageFetch {
    match event {
        PageEvent::Read { total, row_count } => if state.current_page >= page_count(
            total,
            row_count,
        ) {
            state
        } else {
            page_start((state.current_page + 1) as usize)
        },
        PageEvent::Unreadable => PageFetch {
            retry_count: capped_sum(state.retry_count, 1),
            current_timeout: capped_sum(state.current_timeout, 5),
            ..state
        },
        PageEvent::Failed { timed_out } => PageFetch {
            retry_count: capped_sum(state.retry_count, 1),
            current_timeout: capped_sum(
                capped_sum(
                    state.current_timeout,
                    if timed_out {
                        10
                    } else {
                        0
                    },
                ),
                5,
            ),
            ..state
        },
    }
}

/// What the fetch does after an event, `have_any` saying whether any
/// interface has been collected.
///
/// After a page that was read: the next page, or the end after the last.
/// After a failure: a wait of half a second for each failure so far, and
/// then another try while fewer than three have failed; after the third
/// the fetch ends with what it has, or is given up if it has nothing.
pub open spec fn page_action(state: PageFetch, event: PageEvent, have_any: bool) -> PageAction {
    let next = page_state(state, event);
    match event {
        PageEvent::Read { total, row_count } => if state.current_page >= page_count(
            total,
            row_count,
        ) {
            PageAction::Finish { delay_ms: 0 }
        } else {
            PageAction::NextPage
        },
        _ => if next.retry_count < MAX_PAGE_RETRIES {
            PageAction::Retry { delay_ms: retry_delay_ms(next.retry_count) }
        } else if have_any {
            PageAction::Finish { delay_ms: retry_delay_ms(next.retry_count) }
        } else {
            PageAction::GiveUp { delay_ms: retry_delay_ms(next.retry_count) }
        },
    }
}

/// Whether a failure speaks of a timeout.
pub open spec fn speaks_of_timeout(failure: Seq<char>) -> bool {
    has_part(encode_utf8(failure), encode_utf8("timeout"@)) || has_part(
        encode_utf8(failure),
        encode_utf8("timed out"@),
    )
}

/// Whether a failure speaks of a timeout.
pub fn mentions_timeout(failure: &str) -> (yes: bool)
    ensures
        yes == speaks_of_timeout(failure@),
{
    contains_bytes(failure.as_bytes(), "timeout".as_bytes()) || contains_bytes(
        failure.as_bytes(),
        "timed out".as_bytes(),
    )
}

fn pages_for(total: usize, row_count: usize) -> (pages: usize)
    ensures
        pages == page_count(total, row_count),
{
    if row_count == 0 {
        if total == 0 {
            0
        } else {
            usize::MAX
        }
    } else if total % row_count == 0 {
        total / row_count
    } else {
        assert(total as int / row_count as int + 1 <= usize::MAX) by (nonlinear_arith)
            requires
                row_count > 0,
                total % row_count != 0,
                total <= usize::MAX,
        {
            // a quotient that leaves a remainder is smaller than the number divided
            assert(total as int / row_count as int * row_count as int + total as int
                % row_count as int == total as int);
        }
        total / row_count + 1
    }
}

impl PageFetch {
    /// The state in which the fetch starts: the first page, no failure
    /// yet, the first timeout.
    pub fn new() -> (state: Self)
        ensures
            state == page_start(1),
    {
        PageFetch { current_page: 1, retry_count: 0, current_timeout: FIRST_PAGE_TIMEOUT_SECS }
    }

    /// Takes in what a try at the current page brought, and says what to
    /// do next.
    pub fn after(self, event: PageEvent, have_any: bool) -> (next: (PageFetch, PageAction))
        ensures
            next.0 == page_state(self, event),
            next.1 == page_action(self, event, have_any),
    {
        match event {
            PageEvent::Read { total, row_count } => {
                if self.current_page >= pages_for(total, row_count) {
                    (self, PageAction::Finish { delay_ms: 0 })
                } else {
                    (
                        PageFetch {
                            current_page: self.current_page + 1,
                            retry_count: 0,
                            current_timeout: FIRST_PAGE_TIMEOUT_SECS,
                        },
                        PageAction::NextPage,
                    )
                }
            },
            _ => {
                let extra: u64 = match event {
                    PageEvent::Failed { timed_out } => if timed_out {
                        10
                    } else {
                        0
                    },
                    _ => 0,
                };
                let retry_count = self.retry_count.saturating_add(1);
                let current_timeout = self.current_timeout.saturating_add(extra).saturating_add(5);
                let delay_ms = if retry_count > u64::MAX / 500 {
                    u64::MAX
                } else {
                    retry_count * 500
                };
                let state = PageFetch {
                    current_page: self.current_page,
                    retry_count,
                    current_timeout,
                };
                let action = if retry_count < MAX_PAGE_RETRIES {
                    PageAction::Retry { delay_ms }
                } else if have_any {
                    PageAction::Finish { delay_ms }
                } else {
                    PageAction::GiveUp { delay_ms }
                };
                (state, action)
            },
        }
    }
}

} // verus!
