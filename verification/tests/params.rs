use e1_20::{DeviceInfoPD, DeviceLabelPD, SensorDefinitionPD, SensorValuePD};

#[test]
fn device_label_is_its_bytes() {
    let mut pd = DeviceLabelPD::new();
    assert_eq!(pd.device_label, "");
    assert!(pd.serialize().is_empty());
    pd.device_label = "Spot 1".to_string();
    assert_eq!(pd.serialize(), b"Spot 1".to_vec());
    pd.device_label = "é".to_string();
    assert_eq!(pd.serialize(), vec![0xC3, 0xA9]);
}

#[test]
fn device_label_ends_at_the_first_zero_byte() {
    assert_eq!(DeviceLabelPD::deserialize(Vec::new()).unwrap().device_label, "");
    assert_eq!(DeviceLabelPD::deserialize(b"Spot 1".to_vec()).unwrap().device_label, "Spot 1");
    assert_eq!(DeviceLabelPD::deserialize(b"Spot\0junk\0".to_vec()).unwrap().device_label, "Spot");
    assert_eq!(DeviceLabelPD::deserialize(vec![0, 0x41]).unwrap().device_label, "");
    assert_eq!(DeviceLabelPD::deserialize(vec![0xC3, 0xA9, 0x21]).unwrap().device_label, "é!");
}

#[test]
fn device_label_that_is_not_utf8_reads_as_empty() {
    assert_eq!(DeviceLabelPD::deserialize(vec![0x41, 0xFF, 0x42]).unwrap().device_label, "");
    assert_eq!(DeviceLabelPD::deserialize(vec![0xC3]).unwrap().device_label, "");
    assert_eq!(DeviceLabelPD::deserialize(vec![0x41, 0x00, 0xFF]).unwrap().device_label, "A");
}

#[test]
fn device_info_round_trip() {
    let pd = DeviceInfoPD {
        rdm_protocol_version: 0x0100,
        device_model_id: 0x1234,
        product_category: 0x0508,
        software_version_id: 0xDEADBEEF,
        dmx_footprint: 512,
        dmx_personality: 0x0203,
        dmx_start_address: 1,
        sub_device_count: 0xFFFF,
        sensor_count: 7,
    };
    let bytes = pd.serialize();
    assert_eq!(
        bytes,
        vec![
            0x01, 0x00, 0x12, 0x34, 0x05, 0x08, 0xDE, 0xAD, 0xBE, 0xEF, 0x02, 0x00, 0x02, 0x03,
            0x00, 0x01, 0xFF, 0xFF, 0x07
        ]
    );
    let mut longer = bytes.clone();
    longer.push(0x99);
    for data in [bytes.clone(), longer] {
        let back = DeviceInfoPD::deserialize(data).unwrap();
        assert_eq!(back.rdm_protocol_version, 0x0100);
        assert_eq!(back.device_model_id, 0x1234);
        assert_eq!(back.product_category, 0x0508);
        assert_eq!(back.software_version_id, 0xDEADBEEF);
        assert_eq!(back.dmx_footprint, 512);
        assert_eq!(back.dmx_personality, 0x0203);
        assert_eq!(back.dmx_start_address, 1);
        assert_eq!(back.sub_device_count, 0xFFFF);
        assert_eq!(back.sensor_count, 7);
    }
    assert!(DeviceInfoPD::deserialize(bytes[0..18].to_vec()).is_none());
    assert!(DeviceInfoPD::deserialize(Vec::new()).is_none());
    assert_eq!(DeviceInfoPD::new().serialize(), vec![0u8; 19]);
}

#[test]
fn sensor_value_round_trip_with_negative_numbers() {
    let pd = SensorValuePD { id: 3, present: -1, lowest: -32768, highest: 32767, recorded: 0x0102 };
    let bytes = pd.serialize();
    assert_eq!(bytes, vec![3, 0xFF, 0xFF, 0x80, 0x00, 0x7F, 0xFF, 0x01, 0x02]);
    let back = SensorValuePD::deserialize(bytes.clone()).unwrap();
    assert_eq!(back.id, 3);
    assert_eq!(back.present, -1);
    assert_eq!(back.lowest, -32768);
    assert_eq!(back.highest, 32767);
    assert_eq!(back.recorded, 0x0102);
    assert!(SensorValuePD::deserialize(bytes[0..8].to_vec()).is_none());
    assert_eq!(SensorValuePD::new().serialize(), vec![0u8; 9]);
}

#[test]
fn sensor_definition_round_trip() {
    let mut pd = SensorDefinitionPD::new();
    assert_eq!(pd.serialize(), vec![0u8; 13]);
    pd.id = 1;
    pd.sensor_type = 0x00;
    pd.unit = 0x01;
    pd.prefix = 0x02;
    pd.range_min = -40;
    pd.range_max = 125;
    pd.normal_min = -2;
    pd.normal_max = 0x1234;
    pd.recorded_value = 1;
    pd.description = "Temp".to_string();
    let bytes = pd.serialize();
    assert_eq!(
        bytes,
        vec![
            1, 0x00, 0x01, 0x02, 0xFF, 0xD8, 0x00, 0x7D, 0xFF, 0xFE, 0x12, 0x34, 1, b'T', b'e',
            b'm', b'p'
        ]
    );
    let back = SensorDefinitionPD::deserialize(bytes.clone()).unwrap();
    assert_eq!(back.id, 1);
    assert_eq!(back.sensor_type, 0);
    assert_eq!(back.unit, 1);
    assert_eq!(back.prefix, 2);
    assert_eq!(back.range_min, -40);
    assert_eq!(back.range_max, 125);
    assert_eq!(back.normal_min, -2);
    assert_eq!(back.normal_max, 0x1234);
    assert_eq!(back.recorded_value, 1);
    assert_eq!(back.description, "Temp");
}

#[test]
fn sensor_definition_description_edge_cases() {
    let fixed = vec![9u8; 13];
    assert!(SensorDefinitionPD::deserialize(fixed[0..12].to_vec()).is_none());
    assert_eq!(SensorDefinitionPD::deserialize(fixed.clone()).unwrap().description, "");
    let mut zeroed = fixed.clone();
    zeroed.extend(b"\0abc");
    assert_eq!(SensorDefinitionPD::deserialize(zeroed).unwrap().description, "");
    let mut ended = fixed.clone();
    ended.extend(b"ab\0cd");
    assert_eq!(SensorDefinitionPD::deserialize(ended).unwrap().description, "ab");
    let mut broken = fixed.clone();
    broken.extend([0x61, 0xFF]);
    assert_eq!(SensorDefinitionPD::deserialize(broken).unwrap().description, "");
    let mut zero_in_header = vec![0u8; 13];
    zero_in_header.extend(b"xy");
    assert_eq!(SensorDefinitionPD::deserialize(zero_in_header).unwrap().description, "xy");
}
