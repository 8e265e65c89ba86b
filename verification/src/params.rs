//! Parameter data of fixed layout: the payloads of the device label, device
//! info, sensor definition and sensor value messages.

use vstd::prelude::*;
use vstd::utf8::{decode_utf8, encode_utf8, valid_utf8};
use crate::text::utf8_text;
use crate::packet::{be16, from_be16};

verus! {

/// The four big-endian bytes of a 32-bit number.
pub open spec fn be32(x: u32) -> Seq<u8> {
    seq![
        (x / 0x100_0000) as u8,
        ((x / 0x1_0000) % 0x100) as u8,
        ((x / 0x100) % 0x100) as u8,
        (x % 0x100) as u8,
    ]
}

/// The 32-bit number that four big-endian bytes spell.
pub open spec fn from_be32(b: Seq<u8>) -> u32
    recommends
        b.len() >= 4,
{
    (b[0] as int * 0x100_0000 + b[1] as int * 0x1_0000 + b[2] as int * 0x100 + b[3] as int) as u32
}

/// The 16-bit pattern of a signed number, in two's complement.
pub open spec fn pattern16(x: i16) -> u16 {
    if x < 0 {
        (x + 0x1_0000) as u16
    } else {
        x as u16
    }
}

/// The signed number of a 16-bit pattern, in two's complement.
pub open spec fn signed16(u: u16) -> i16 {
    if u >= 0x8000 {
        (u - 0x1_0000) as i16
    } else {
        u as i16
    }
}

/// Position of the first zero byte of `data` at or after `from`, or the
/// length of `data` where there is none.
pub open spec fn text_end(data: Seq<u8>, from: int) -> int
    decreases data.len() - from,
{
    if from >= data.len() {
        data.len() as int
    } else if data[from] == 0 {
        from
    } else {
        text_end(data, from + 1)
    }
}

/// The text that bytes spell: their characters where they are UTF-8, and
/// nothing where they are not.
pub open spec fn text_of(bytes: Seq<u8>) -> Seq<char> {
    if valid_utf8(bytes) {
        decode_utf8(bytes)
    } else {
        Seq::<char>::empty()
    }
}

/// A signed number is the signed number of its pattern.
pub proof fn lemma_signed16_of_pattern(x: i16)
    ensures
        signed16(pattern16(x)) == x,
        from_be16(be16(pattern16(x))[0], be16(pattern16(x))[1]) == pattern16(x),
{
}

/// A device info payload reads back from its bytes.
pub proof fn lemma_device_info_round_trip(pd: DeviceInfoPD)
    ensures
        pd.bytes().len() == 19,
        DeviceInfoPD::parse(pd.bytes()) == pd,
{
    let s = pd.bytes();
    let a = be16(pd.rdm_protocol_version) + be16(pd.device_model_id) + be16(pd.product_category);
    let b = a + be32(pd.software_version_id);
    let c = b + be16(pd.dmx_footprint) + be16(pd.dmx_personality);
    let d = c + be16(pd.dmx_start_address) + be16(pd.sub_device_count);
    assert(s == d + seq![pd.sensor_count]);
    assert(a.len() == 6 && b.len() == 10 && c.len() == 14 && d.len() == 18);
    assert(s.subrange(6, 10) =~= be32(pd.software_version_id));
    assert(s[0] == a[0] && s[1] == a[1] && s[2] == a[2] && s[3] == a[3] && s[4] == a[4] && s[5]
        == a[5]);
    assert(s[10] == c[10] && s[11] == c[11] && s[12] == c[12] && s[13] == c[13]);
    assert(s[14] == d[14] && s[15] == d[15] && s[16] == d[16] && s[17] == d[17]);
}

/// A sensor value payload reads back from its bytes.
pub proof fn lemma_sensor_value_round_trip(pd: SensorValuePD)
    ensures
        pd.bytes().len() == 9,
        SensorValuePD::parse(pd.bytes()) == pd,
{
    let s = pd.bytes();
    lemma_signed16_of_pattern(pd.present);
    lemma_signed16_of_pattern(pd.lowest);
    lemma_signed16_of_pattern(pd.highest);
    lemma_signed16_of_pattern(pd.recorded);
    let a = seq![pd.id] + be16(pattern16(pd.present));
    let b = a + be16(pattern16(pd.lowest));
    let c = b + be16(pattern16(pd.highest));
    assert(s == c + be16(pattern16(pd.recorded)));
    assert(a.len() == 3 && b.len() == 5 && c.len() == 7);
    assert(s[0] == a[0] && s[1] == a[1] && s[2] == a[2]);
    assert(s[3] == b[3] && s[4] == b[4]);
    assert(s[5] == c[5] && s[6] == c[6]);
}

/// Finds where the text that starts at `from` ends.
fn find_text_end(data: &Vec<u8>, from: usize) -> (end: usize)
    requires
        from <= data@.len(),
    ensures
        end == text_end(data@, from as int),
        from <= end <= data@.len(),
{
    let mut i: usize = from;
    while i < data.len() && data[i] != 0
        invariant
            from <= i <= data@.len(),
            text_end(data@, from as int) == text_end(data@, i as int),
        decreases data@.len() - i,
    {
        i += 1;
    }
    i
}

/// Reads the text that the bytes `data[from..end]` spell.
fn read_text(data: &Vec<u8>, from: usize, end: usize) -> (text: String)
    requires
        from <= end <= data@.len(),
    ensures
        text@ == text_of(data@.subrange(from as int, end as int)),
{
    match utf8_text(vstd::slice::slice_subrange(data.as_slice(), from, end)) {
        Some(t) => t.to_owned(),
        None => String::new(),
    }
}

/// Appends the two big-endian bytes of `x`.
fn push_be16(out: &mut Vec<u8>, x: u16)
    ensures
        final(out)@ == old(out)@ + be16(x),
{
    out.push((x / 0x100) as u8);
    out.push((x % 0x100) as u8);
    assert(out@ =~= old(out)@ + be16(x));
}

/// Appends the two big-endian bytes of the pattern of `x`.
fn push_signed16(out: &mut Vec<u8>, x: i16)
    ensures
        final(out)@ == old(out)@ + be16(pattern16(x)),
{
    let u: u16 = if x < 0 {
        (x as i32 + 0x1_0000) as u16
    } else {
        x as u16
    };
    push_be16(out, u);
}

/// Appends the UTF-8 bytes of `text`.
fn push_text(out: &mut Vec<u8>, text: &String)
    ensures
        final(out)@ == old(out)@ + encode_utf8(text@),
{
    let bytes = text.as_str().as_bytes();
    let mut i: usize = 0;
    while i < bytes.len()
        invariant
            i <= bytes@.len(),
            bytes@ == encode_utf8(text@),
            out@ == old(out)@ + bytes@.take(i as int),
        decreases bytes@.len() - i,
    {
        out.push(bytes[i]);
        i += 1;
        assert(out@ =~= old(out)@ + bytes@.take(i as int));
    }
    assert(bytes@.take(bytes@.len() as int) =~= bytes@);
}

/// Reads an unsigned 16-bit number at `at`.
fn read_be16(data: &Vec<u8>, at: usize) -> (x: u16)
    requires
        at + 2 <= data@.len(),
    ensures
        x == from_be16(data@[at as int], data@[at + 1]),
{
    let n: usize = data.len();
    assert(at + 2 <= n);
    data[at] as u16 * 0x100 + data[at + 1] as u16
}

/// Reads a signed 16-bit number at `at`.
fn read_signed16(data: &Vec<u8>, at: usize) -> (x: i16)
    requires
        at + 2 <= data@.len(),
    ensures
        x == signed16(from_be16(data@[at as int], data@[at + 1])),
{
    let u = read_be16(data, at);
    if u >= 0x8000 {
        (u as i32 - 0x1_0000) as i16
    } else {
        u as i16
    }
}

/// The payload of a device label message.
#[derive(Debug)]
pub struct DeviceLabelPD {
    pub device_label: String,
}

impl DeviceLabelPD {
    /// An empty label.
    pub fn new() -> (pd: DeviceLabelPD)
        ensures
            pd.device_label@ == Seq::<char>::empty(),
    {
        DeviceLabelPD { device_label: String::new() }
    }

    /// The UTF-8 bytes of the label.
    pub fn serialize(&self) -> (rv: Vec<u8>)
        ensures
            rv@ == encode_utf8(self.device_label@),
    {
        let mut rv: Vec<u8> = Vec::new();
        push_text(&mut rv, &self.device_label);
        assert(rv@ =~= encode_utf8(self.device_label@));
        rv
    }

    /// Reads a label: the text up to the first zero byte, or all of the
    /// data where it holds none. Bytes that are not UTF-8 give an empty
    /// label.
    pub fn deserialize(data: Vec<u8>) -> (parsed: Option<DeviceLabelPD>)
        ensures
            parsed matches Some(pd) && pd.device_label@ == text_of(
                data@.subrange(0, text_end(data@, 0)),
            ),
    {
        let end = find_text_end(&data, 0);
        Some(DeviceLabelPD { device_label: read_text(&data, 0, end) })
    }
}

/// The payload of a device info message.
#[derive(Debug)]
pub struct DeviceInfoPD {
    pub rdm_protocol_version: u16,
    pub device_model_id: u16,
    pub product_category: u16,
    pub software_version_id: u32,
    pub dmx_footprint: u16,
    pub dmx_personality: u16,
    pub dmx_start_address: u16,
    pub sub_device_count: u16,
    pub sensor_count: u8,
}

impl DeviceInfoPD {
    /// The 19 bytes of the payload.
    pub open spec fn bytes(self) -> Seq<u8> {
        be16(self.rdm_protocol_version) + be16(self.device_model_id) + be16(self.product_category)
            + be32(self.software_version_id) + be16(self.dmx_footprint) + be16(
            self.dmx_personality,
        ) + be16(self.dmx_start_address) + be16(self.sub_device_count) + seq![self.sensor_count]
    }

    /// The payload that the first 19 bytes of `s` spell.
    pub open spec fn parse(s: Seq<u8>) -> DeviceInfoPD
        recommends
            s.len() >= 19,
    {
        DeviceInfoPD {
            rdm_protocol_version: from_be16(s[0], s[1]),
            device_model_id: from_be16(s[2], s[3]),
            product_category: from_be16(s[4], s[5]),
            software_version_id: from_be32(s.subrange(6, 10)),
            dmx_footprint: from_be16(s[10], s[11]),
            dmx_personality: from_be16(s[12], s[13]),
            dmx_start_address: from_be16(s[14], s[15]),
            sub_device_count: from_be16(s[16], s[17]),
            sensor_count: s[18],
        }
    }

    /// A payload with every field zero.
    pub fn new() -> (pd: DeviceInfoPD)
        ensures
            pd == (DeviceInfoPD {
                rdm_protocol_version: 0,
                device_model_id: 0,
                product_category: 0,
                software_version_id: 0,
                dmx_footprint: 0,
                dmx_personality: 0,
                dmx_start_address: 0,
                sub_device_count: 0,
                sensor_count: 0,
            }),
    {
        DeviceInfoPD {
            rdm_protocol_version: 0,
            device_model_id: 0,
            product_category: 0,
            software_version_id: 0,
            dmx_footprint: 0,
            dmx_personality: 0,
            dmx_start_address: 0,
            sub_device_count: 0,
            sensor_count: 0,
        }
    }

    /// Writes the payload, every number big-endian.
    pub fn serialize(&self) -> (rv: Vec<u8>)
        ensures
            rv@ == self.bytes(),
    {
        let mut rv: Vec<u8> = Vec::new();
        push_be16(&mut rv, self.rdm_protocol_version);
        push_be16(&mut rv, self.device_model_id);
        push_be16(&mut rv, self.product_category);
        let ghost head = rv@;
        let v = self.software_version_id;
        rv.push((v / 0x100_0000) as u8);
        rv.push(((v / 0x1_0000) % 0x100) as u8);
        rv.push(((v / 0x100) % 0x100) as u8);
        rv.push((v % 0x100) as u8);
        assert(rv@ =~= head + be32(v));
        push_be16(&mut rv, self.dmx_footprint);
        push_be16(&mut rv, self.dmx_personality);
        push_be16(&mut rv, self.dmx_start_address);
        push_be16(&mut rv, self.sub_device_count);
        rv.push(self.sensor_count);
        assert(rv@ =~= self.bytes());
        rv
    }

    /// Reads a payload from the first 19 bytes of `data`; gives nothing
    /// where there are fewer.
    pub fn deserialize(data: Vec<u8>) -> (parsed: Option<DeviceInfoPD>)
        ensures
            parsed == if data@.len() < 19 {
                None
            } else {
                Some(DeviceInfoPD::parse(data@))
            },
    {
        if data.len() < 0x13 {
            return None;
        }
        let software_version_id: u32 = data[6] as u32 * 0x100_0000 + data[7] as u32 * 0x1_0000
            + data[8] as u32 * 0x100 + data[9] as u32;
        Some(
            DeviceInfoPD {
                rdm_protocol_version: read_be16(&data, 0),
                device_model_id: read_be16(&data, 2),
                product_category: read_be16(&data, 4),
                software_version_id,
                dmx_footprint: read_be16(&data, 10),
                dmx_personality: read_be16(&data, 12),
                dmx_start_address: read_be16(&data, 14),
                sub_device_count: read_be16(&data, 16),
                sensor_count: data[18],
            },
        )
    }
}

/// The payload of a sensor definition message.
#[derive(Debug)]
pub struct SensorDefinitionPD {
    pub id: u8,
    pub sensor_type: u8,
    pub unit: u8,
    pub prefix: u8,
    pub range_min: i16,
    pub range_max: i16,
    pub normal_min: i16,
    pub normal_max: i16,
    pub recorded_value: u8,
    pub description: String,
}

impl SensorDefinitionPD {
    /// The 13 bytes that precede the description.
    pub open spec fn fixed_bytes(self) -> Seq<u8> {
        seq![self.id, self.sensor_type, self.unit, self.prefix] + be16(pattern16(self.range_min))
            + be16(pattern16(self.range_max)) + be16(pattern16(self.normal_min)) + be16(
            pattern16(self.normal_max),
        ) + seq![self.recorded_value]
    }

    /// The payload, but for its description, is what the first 13 bytes of
    /// `s` spell.
    pub open spec fn fixed_part_is(self, s: Seq<u8>) -> bool
        recommends
            s.len() >= 13,
    {
        &&& self.id == s[0]
        &&& self.sensor_type == s[1]
        &&& self.unit == s[2]
        &&& self.prefix == s[3]
        &&& self.range_min == signed16(from_be16(s[4], s[5]))
        &&& self.range_max == signed16(from_be16(s[6], s[7]))
        &&& self.normal_min == signed16(from_be16(s[8], s[9]))
        &&& self.normal_max == signed16(from_be16(s[10], s[11]))
        &&& self.recorded_value == s[12]
    }

    /// A payload with every field zero and no description.
    pub fn new() -> (pd: SensorDefinitionPD)
        ensures
            pd.id == 0,
            pd.sensor_type == 0,
            pd.unit == 0,
            pd.prefix == 0,
            pd.range_min == 0,
            pd.range_max == 0,
            pd.normal_min == 0,
            pd.normal_max == 0,
            pd.recorded_value == 0,
            pd.description@ == Seq::<char>::empty(),
    {
        SensorDefinitionPD {
            id: 0,
            sensor_type: 0,
            unit: 0,
            prefix: 0,
            range_min: 0,
            range_max: 0,
            normal_min: 0,
            normal_max: 0,
            recorded_value: 0,
            description: String::new(),
        }
    }

    /// Writes the payload: the fixed part, then the UTF-8 bytes of the
    /// description.
    pub fn serialize(&self) -> (rv: Vec<u8>)
        ensures
            rv@ == self.fixed_bytes() + encode_utf8(self.description@),
    {
        let mut rv: Vec<u8> = Vec::new();
        rv.push(self.id);
        rv.push(self.sensor_type);
        rv.push(self.unit);
        rv.push(self.prefix);
        push_signed16(&mut rv, self.range_min);
        push_signed16(&mut rv, self.range_max);
        push_signed16(&mut rv, self.normal_min);
        push_signed16(&mut rv, self.normal_max);
        rv.push(self.recorded_value);
        assert(rv@ =~= self.fixed_bytes());
        push_text(&mut rv, &self.description);
        rv
    }

    /// Reads a payload; gives nothing where `data` has fewer than 13 bytes.
    /// The description is the text from byte 13 up to the first zero byte
    /// after it, or to the end of the data; bytes that are not UTF-8 give
    /// an empty description.
    pub fn deserialize(data: Vec<u8>) -> (parsed: Option<SensorDefinitionPD>)
        ensures
            parsed.is_none() <==> data@.len() < 13,
            parsed matches Some(pd) ==> pd.fixed_part_is(data@) && pd.description@ == text_of(
                data@.subrange(13, text_end(data@, 13)),
            ),
    {
        if data.len() < 0x0D {
            return None;
        }
        let end = find_text_end(&data, 13);
        Some(
            SensorDefinitionPD {
                id: data[0],
                sensor_type: data[1],
                unit: data[2],
                prefix: data[3],
                range_min: read_signed16(&data, 4),
                range_max: read_signed16(&data, 6),
                normal_min: read_signed16(&data, 8),
                normal_max: read_signed16(&data, 10),
                recorded_value: data[12],
                description: read_text(&data, 13, end),
            },
        )
    }
}

/// The payload of a sensor value message.
#[derive(Debug)]
pub struct SensorValuePD {
    pub id: u8,
    pub present: i16,
    pub lowest: i16,
    pub highest: i16,
    pub recorded: i16,
}

impl SensorValuePD {
    /// The 9 bytes of the payload.
    pub open spec fn bytes(self) -> Seq<u8> {
        seq![self.id] + be16(pattern16(self.present)) + be16(pattern16(self.lowest)) + be16(
            pattern16(self.highest),
        ) + be16(pattern16(self.recorded))
    }

    /// The payload that the first 9 bytes of `s` spell.
    pub open spec fn parse(s: Seq<u8>) -> SensorValuePD
        recommends
            s.len() >= 9,
    {
        SensorValuePD {
            id: s[0],
            present: signed16(from_be16(s[1], s[2])),
            lowest: signed16(from_be16(s[3], s[4])),
            highest: signed16(from_be16(s[5], s[6])),
            recorded: signed16(from_be16(s[7], s[8])),
        }
    }

    /// A payload with every field zero.
    pub fn new() -> (pd: SensorValuePD)
        ensures
            pd == (SensorValuePD { id: 0, present: 0, lowest: 0, highest: 0, recorded: 0 }),
    {
        SensorValuePD { id: 0, present: 0, lowest: 0, highest: 0, recorded: 0 }
    }

    /// Writes the payload, every number big-endian.
    pub fn serialize(&self) -> (rv: Vec<u8>)
        ensures
            rv@ == self.bytes(),
    {
        let mut rv: Vec<u8> = Vec::new();
        rv.push(self.id);
        push_signed16(&mut rv, self.present);
        push_signed16(&mut rv, self.lowest);
        push_signed16(&mut rv, self.highest);
        push_signed16(&mut rv, self.recorded);
        assert(rv@ =~= self.bytes());
        rv
    }

    /// Reads a payload from the first 9 bytes of `data`; gives nothing
    /// where there are fewer.
    pub fn deserialize(data: Vec<u8>) -> (parsed: Option<SensorValuePD>)
        ensures
            parsed == if data@.len() < 9 {
                None
            } else {
                Some(SensorValuePD::parse(data@))
            },
    {
        if data.len() < 9 {
            return None;
        }
        Some(
            SensorValuePD {
                id: data[0],
                present: read_signed16(&data, 1),
                lowest: read_signed16(&data, 3),
                highest: read_signed16(&data, 5),
                recorded: read_signed16(&data, 7),
            },
        )
    }
}

} // verus!
