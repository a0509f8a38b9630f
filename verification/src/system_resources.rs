//! Temperature sensors as the dashboard shows them.

use vstd::prelude::*;

verus! {

/// One temperature sensor of the firewall.
#[derive(Debug, PartialEq, Eq)]
pub struct TemperatureSensor {
    pub device: String,
    pub device_seq: String,
    pub temperature: String,
    pub sensor_type: String,
    pub type_translated: String,
}

/// The temperature sensors of the firewall. A system without sensors has
/// an empty list.
#[derive(Debug, PartialEq, Eq)]
pub struct SystemTemperature {
    pub sensors: Vec<TemperatureSensor>,
}

/// What the firewall's answer holds for one sensor: each field is present
/// only if the answer has it, as text.
#[derive(Debug, PartialEq, Eq)]
pub struct SensorFields {
    pub device: Option<String>,
    pub device_seq: Option<String>,
    pub temperature: Option<String>,
    pub sensor_type: Option<String>,
    pub type_translated: Option<String>,
}

/// A field's text, or the empty text for a field that is missing.
pub open spec fn field_text(field: Option<String>) -> Seq<char> {
    match field {
        Some(text) => text@,
        None => Seq::empty(),
    }
}

/// Whether `sensor` is what `fields` describes.
pub open spec fn describes(fields: SensorFields, sensor: TemperatureSensor) -> bool {
    &&& sensor.device@ == field_text(fields.device)
    &&& sensor.device_seq@ == field_text(fields.device_seq)
    &&& sensor.temperature@ == field_text(fields.temperature)
    &&& sensor.sensor_type@ == field_text(fields.sensor_type)
    &&& sensor.type_translated@ == field_text(fields.type_translated)
}

fn text_or_empty(field: Option<String>) -> (text: String)
    ensures
        text@ == field_text(field),
{
    match field {
        Some(text) => text,
        None => String::new(),
    }
}

/// The sensor that `fields` describes, a missing field read as empty.
pub fn sensor_from(fields: SensorFields) -> (sensor: TemperatureSensor)
    ensures
        describes(fields, sensor),
{
    TemperatureSensor {
        device: text_or_empty(fields.device),
        device_seq: text_or_empty(fields.device_seq),
        temperature: text_or_empty(fields.temperature),
        sensor_type: text_or_empty(fields.sensor_type),
        type_translated: text_or_empty(fields.type_translated),
    }
}

/// The sensors that the items of an answer describe, in the answer's order.
pub fn sensors_from(items: Vec<SensorFields>) -> (res: SystemTemperature)
    ensures
        res.sensors.len() == items.len(),
        forall|i: int| 0 <= i < items.len() ==> describes(items[i], #[trigger] res.sensors[i]),
{
    let ghost all = items@;
    let mut pending = items;
    let mut reversed: Vec<TemperatureSensor> = Vec::new();
    while pending.len() > 0
        invariant
            pending.len() + reversed.len() == all.len(),
            pending@ == all.take(pending.len() as int),
            forall|j: int|
                0 <= j < reversed.len() ==> describes(
                    all[all.len() - 1 - j],
                    #[trigger] reversed[j],
                ),
        decreases pending.len(),
    {
        let ghost k = pending.len() - 1;
        let fields = pending.pop().unwrap();
        assert(fields == all[k]);
        assert(pending@ =~= all.take(k));
        reversed.push(sensor_from(fields));
    }
    let ghost back = reversed@;
    let mut sensors: Vec<TemperatureSensor> = Vec::new();
    while reversed.len() > 0
        invariant
            reversed.len() + sensors.len() == all.len(),
            back.len() == all.len(),
            reversed@ == back.take(reversed.len() as int),
            forall|j: int| 0 <= j < sensors.len() ==> #[trigger] sensors[j] == back[all.len() - 1 - j],
        decreases reversed.len(),
    {
        let ghost k = reversed.len() - 1;
        let sensor = reversed.pop().unwrap();
        assert(sensor == back[k]);
        assert(reversed@ =~= back.take(k));
        sensors.push(sensor);
    }
    SystemTemperature { sensors }
}

} // verus!
