use hive_telemetry::device::{decode_class, SensorReading};

#[test]
fn decodes_named_examples() {
    assert_eq!(decode_class(0x00), "TEMPERATURE");
    assert_eq!(decode_class(0x01), "TEMPERATURE_1");
    assert_eq!(decode_class(0x04), "HUMIDITY");
    assert_eq!(decode_class(0x13), "WEIGHT_3");
}

#[test]
fn decodes_every_family_and_index() {
    assert_eq!(decode_class(0x08), "SOUND");
    assert_eq!(decode_class(0x0A), "SOUND_2");
    assert_eq!(decode_class(0x0E), "CO2_2");
    assert_eq!(decode_class(0x0C), "CO2");
    assert_eq!(decode_class(0x0F), "CO2_3");
    assert_eq!(decode_class(0x10), "WEIGHT");
    assert_eq!(decode_class(0xFF), "WEIGHT_3");
    assert_eq!(decode_class(0xFC), "WEIGHT");
}

#[test]
fn decodes_whole_byte_range_by_rule() {
    let families = ["TEMPERATURE", "HUMIDITY", "SOUND", "CO2"];
    for class in 0u16..=255 {
        let c = class as u8;
        let family = if (c >> 2) < 4 { families[(c >> 2) as usize] } else { "WEIGHT" };
        let expected = if c & 3 == 0 {
            family.to_string()
        } else {
            format!("{}_{}", family, c & 3)
        };
        assert_eq!(decode_class(c), expected);
        // the same byte always gives the same name
        assert_eq!(decode_class(c), decode_class(c));
    }
}

#[test]
fn reading_name_depends_on_class_alone() {
    let a = SensorReading { class: 0x05, value_bits: 21.5f64.to_bits() };
    let b = SensorReading { class: 0x05, value_bits: (-3.0f64).to_bits() };
    assert_eq!(a.to_string(), "HUMIDITY_1");
    assert_eq!(a.to_string(), b.to_string());
}
