use base64::engine::general_purpose::URL_SAFE_NO_PAD;
use base64::Engine;
use hirodrop_core::quick_share::{QuickShareAdvertisementData, QuickShareDeviceType, QuickShareEndpointId, QuickShareError};
use hirodrop_core::quick_share_discovery::decode_visible_endpoint_info;

#[test]
fn instance_label_has_the_expected_nearby_connections_bytes() {
    let endpoint_id = QuickShareEndpointId::new(*b"Ab1Z").unwrap();
    let data = QuickShareAdvertisementData::from_parts(
        endpoint_id,
        [0x11; 16],
        QuickShareDeviceType::Laptop,
        "HiRodrop",
    )
    .unwrap();

    let decoded = URL_SAFE_NO_PAD.decode(data.instance_name).unwrap();
    assert_eq!(decoded, [0x23, b'A', b'b', b'1', b'Z', 0xFC, 0x9F, 0x5E, 0, 0]);
}

#[test]
fn endpoint_info_identifies_a_laptop_and_preserves_utf8_name() {
    let endpoint_id = QuickShareEndpointId::new(*b"aB19").unwrap();
    let metadata = [0xA5; 16];
    let name = "HiRodrop 工作站";
    let data = QuickShareAdvertisementData::from_parts(
        endpoint_id,
        metadata,
        QuickShareDeviceType::Laptop,
        name,
    )
    .unwrap();

    let decoded = URL_SAFE_NO_PAD.decode(data.endpoint_info).unwrap();
    assert_eq!(decoded[0], 6);
    assert_eq!(&decoded[1..17], &metadata);
    assert_eq!(decoded[17] as usize, name.len());
    assert_eq!(&decoded[18..], name.as_bytes());
}

#[test]
fn rejects_names_that_cannot_fit_in_the_wire_length_byte() {
    let endpoint_id = QuickShareEndpointId::new(*b"Ab1Z").unwrap();
    let oversized = "界".repeat(86);
    let result = QuickShareAdvertisementData::from_parts(
        endpoint_id,
        [0; 16],
        QuickShareDeviceType::Laptop,
        &oversized,
    );

    assert!(matches!(result, Err(QuickShareError::InvalidDeviceName)));
}

#[test]
fn endpoint_id_rejects_punctuation() {
    assert!(matches!(
        QuickShareEndpointId::new(*b"A-1Z"),
        Err(QuickShareError::InvalidEndpointId)
    ));
}

#[test]
fn decodes_a_visible_windows_or_mac_laptop() {
    let advertisement = QuickShareAdvertisementData::from_parts(
        QuickShareEndpointId::new(*b"W1n9").unwrap(),
        [0x55; 16],
        QuickShareDeviceType::Laptop,
        "OFFICE-LAPTOP",
    )
    .unwrap();
    assert_eq!(
        decode_visible_endpoint_info(&advertisement.endpoint_info),
        Some(("OFFICE-LAPTOP".into(), QuickShareDeviceType::Laptop))
    );
}

#[test]
fn ignores_hidden_non_qr_advertisements() {
    let encoded = URL_SAFE_NO_PAD.encode([0x10; 18]);
    assert_eq!(decode_visible_endpoint_info(&encoded), None);
}

#[test]
fn empty_device_name_is_refused() {
    let endpoint_id = QuickShareEndpointId::new(*b"Ab1Z").unwrap();
    let result = QuickShareAdvertisementData::from_parts(endpoint_id, [0; 16], QuickShareDeviceType::Phone, "");
    assert!(matches!(result, Err(QuickShareError::InvalidDeviceName)));
}

#[test]
fn a_255_byte_name_still_fits() {
    let endpoint_id = QuickShareEndpointId::new(*b"Ab1Z").unwrap();
    let name = "a".repeat(255);
    let data = QuickShareAdvertisementData::from_parts(endpoint_id, [0; 16], QuickShareDeviceType::Tablet, &name).unwrap();
    let decoded = URL_SAFE_NO_PAD.decode(data.endpoint_info).unwrap();
    assert_eq!(decoded[0], 4);
    assert_eq!(decoded[17], 255);
    assert_eq!(decoded.len(), 18 + 255);
}

#[test]
fn endpoint_id_text_is_its_four_bytes() {
    let id = QuickShareEndpointId::new(*b"z9Q0").unwrap();
    assert_eq!(id.as_str(), "z9Q0");
    assert_eq!(id.as_bytes(), b"z9Q0");
}

#[test]
fn entropy_picks_letters_and_digits_modulo_62() {
    let id = QuickShareEndpointId::from_entropy([0, 26, 52, 62 + 61]);
    assert_eq!(id.as_bytes(), b"Aa09");
    let id = QuickShareEndpointId::from_entropy([255, 124, 61, 25]);
    assert_eq!(id.as_bytes(), b"HA9Z");
}

#[test]
fn generated_ids_are_ascii_alphanumeric() {
    for _ in 0..32 {
        let id = QuickShareEndpointId::generate();
        assert!(id.as_bytes().iter().all(u8::is_ascii_alphanumeric));
    }
}

#[test]
fn generated_advertisement_is_a_laptop_with_the_name() {
    let data = QuickShareAdvertisementData::generate("Desk").unwrap();
    let info = URL_SAFE_NO_PAD.decode(&data.endpoint_info).unwrap();
    assert_eq!(info[0], 6);
    assert_eq!(&info[18..], b"Desk");
    let instance = URL_SAFE_NO_PAD.decode(&data.instance_name).unwrap();
    assert_eq!(&instance[1..5], data.endpoint_id.as_bytes());
}

#[test]
fn device_type_bits_decode_phone_and_tablet() {
    for (bits, expected) in [(1u8, QuickShareDeviceType::Phone), (2, QuickShareDeviceType::Tablet), (0, QuickShareDeviceType::Unknown), (7, QuickShareDeviceType::Unknown)] {
        let mut info = vec![bits << 1; 17];
        info.push(1);
        info.push(b'x');
        let encoded = URL_SAFE_NO_PAD.encode(&info);
        assert_eq!(decode_visible_endpoint_info(&encoded), Some(("x".into(), expected)));
    }
}

#[test]
fn discovery_refuses_bad_base64_truncated_names_and_invalid_utf8() {
    assert_eq!(decode_visible_endpoint_info("!!!"), None);
    let mut info = vec![6u8; 17];
    info.push(5);
    info.extend_from_slice(b"ab");
    assert_eq!(decode_visible_endpoint_info(&URL_SAFE_NO_PAD.encode(&info)), None);
    let mut info = vec![6u8; 17];
    info.push(2);
    info.extend_from_slice(&[0xff, 0xfe]);
    assert_eq!(decode_visible_endpoint_info(&URL_SAFE_NO_PAD.encode(&info)), None);
}
