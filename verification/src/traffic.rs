//! Interface traffic counters: reading the byte counts the firewall
//! reports as text, and what has passed between two readings.

use vstd::prelude::*;
use vstd::utf8::encode_utf8;

use crate::text::{parse_unsigned, parsed_unsigned};

verus! {

/// How many data points the traffic graph keeps.
pub const MAX_DATA_POINTS: usize = 120;

/// The counters and properties of one interface, every value as the
/// firewall sent it.
#[derive(Debug, PartialEq, Eq)]
pub struct InterfaceData {
    pub name: String,
    pub device: String,
    pub bytes_received: String,
    pub bytes_transmitted: String,
    pub driver: String,
    pub index: Option<String>,
    pub flags: Option<String>,
    pub promiscuous_listeners: Option<String>,
    pub send_queue_length: Option<String>,
    pub send_queue_max_length: Option<String>,
    pub send_queue_drops: Option<String>,
    pub interface_type: Option<String>,
    pub address_length: Option<String>,
    pub header_length: Option<String>,
    pub link_state: Option<String>,
    pub vhid: Option<String>,
    pub datalen: Option<String>,
    pub mtu: Option<String>,
    pub metric: Option<String>,
    pub line_rate: Option<String>,
    pub packets_received: Option<String>,
    pub input_errors: Option<String>,
    pub packets_transmitted: Option<String>,
    pub output_errors: Option<String>,
    pub collisions: Option<String>,
    pub multicasts_received: Option<String>,
    pub multicasts_transmitted: Option<String>,
    pub input_queue_drops: Option<String>,
    pub packets_unknown_protocol: Option<String>,
    pub hw_offload_capabilities: Option<String>,
    pub uptime_at_attach: Option<String>,
}

/// The count that `text` denotes, or 0 when it denotes none: when it is
/// not an unsigned decimal number, or one too large for 64 bits.
pub open spec fn counter_value(text: Seq<u8>) -> u64 {
    match parsed_unsigned(text, u64::MAX as int) {
        Some(v) => v as u64,
        None => 0,
    }
}

/// What has passed since the previous reading of a counter. A counter
/// that reads less than before has been reset, and counts from zero.
pub open spec fn delta(current: u64, previous: u64) -> u64 {
    if current >= previous {
        (current - previous) as u64
    } else {
        current
    }
}

/// What two readings of one interface say about its traffic.
#[derive(Clone, Copy, Debug, PartialEq, Eq, Structural)]
pub struct CounterReading {
    /// Bytes received in all, at the current reading.
    pub bytes_in: u64,
    /// Bytes transmitted in all, at the current reading.
    pub bytes_out: u64,
    /// Bytes received since the previous reading.
    pub received_since: u64,
    /// Bytes transmitted since the previous reading.
    pub transmitted_since: u64,
}

/// Reads a counter from the text the firewall sent.
pub fn parse_counter(text: &str) -> (count: u64)
    ensures
        count == counter_value(encode_utf8(text@)),
{
    match parse_unsigned(text.as_bytes(), u64::MAX) {
        Some(v) => v,
        None => 0,
    }
}

/// What has passed since the previous reading of a counter.
pub fn counter_delta(current: u64, previous: u64) -> (passed: u64)
    ensures
        passed == delta(current, previous),
{
    if current >= previous {
        current - previous
    } else {
        current
    }
}

/// What the current and the previous reading of an interface say about
/// its traffic; nothing for an interface without a name.
pub fn read_counters(current: &InterfaceData, previous: &InterfaceData) -> (reading: Option<
    CounterReading,
>)
    ensures
        reading == if current.name@.len() == 0 {
            None
        } else {
            Some(
                CounterReading {
                    bytes_in: counter_value(encode_utf8(current.bytes_received@)),
                    bytes_out: counter_value(encode_utf8(current.bytes_transmitted@)),
                    received_since: delta(
                        counter_value(encode_utf8(current.bytes_received@)),
                        counter_value(encode_utf8(previous.bytes_received@)),
                    ),
                    transmitted_since: delta(
                        counter_value(encode_utf8(current.bytes_transmitted@)),
                        counter_value(encode_utf8(previous.bytes_transmitted@)),
                    ),
                },
            )
        },
{
    if current.name.as_str().is_empty() {
        return None;
    }
    let bytes_in = parse_counter(current.bytes_received.as_str());
    let bytes_out = parse_counter(current.bytes_transmitted.as_str());
    let previous_in = parse_counter(previous.bytes_received.as_str());
    let previous_out = parse_counter(previous.bytes_transmitted.as_str());
    Some(
        CounterReading {
            bytes_in,
            bytes_out,
            received_since: counter_delta(bytes_in, previous_in),
            transmitted_since: counter_delta(bytes_out, previous_out),
        },
    )
}

/// How many of `len` data points are to be dropped, oldest first, for the
/// graph to keep no more than it shows.
pub fn excess_points(len: usize) -> (excess: usize)
    ensures
        excess == if len > MAX_DATA_POINTS {
            len - MAX_DATA_POINTS
        } else {
            0
        },
{
    if len > MAX_DATA_POINTS {
        len - MAX_DATA_POINTS
    } else {
        0
    }
}

} // verus!
