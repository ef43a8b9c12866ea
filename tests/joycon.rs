use musical_joycons::joycon::{
    build_rumble_packet, encode_rumble, DeviceInfo, JoyCon, JoyConError, JoyConType, LinkState, JOYCON_CHARGING_GRIP,
    JOYCON_L_BT, JOYCON_R_BT, PRO_CONTROLLER,
};

fn create_test_device_info(product_id: u16) -> DeviceInfo {
    DeviceInfo { product_id, interface_number: 0, serial: String::new() }
}

#[test]
fn test_joycon_creation() {
    let left_info = create_test_device_info(JOYCON_L_BT);
    let right_info = create_test_device_info(JOYCON_R_BT);
    let pro_info = create_test_device_info(PRO_CONTROLLER);

    assert!(matches!(JoyCon::new(&left_info).unwrap().get_type(), JoyConType::Left));
    assert!(matches!(JoyCon::new(&right_info).unwrap().get_type(), JoyConType::Right));
    assert!(matches!(JoyCon::new(&pro_info).unwrap().get_type(), JoyConType::ProController));
}

#[test]
fn test_timing_byte() {
    let mut joycon = JoyCon::new(&create_test_device_info(JOYCON_L_BT)).unwrap();

    assert_eq!(joycon.get_timing_byte(), 0);
    joycon.increment_timing_byte();
    assert_eq!(joycon.get_timing_byte(), 1);

    joycon.timing_byte = 255;
    joycon.increment_timing_byte();
    assert_eq!(joycon.get_timing_byte(), 0);
}

#[test]
fn joycon_test_rumble_parameters() {
    let joycon = JoyCon::new(&create_test_device_info(JOYCON_L_BT)).unwrap();

    // 440 Hz at amplitude 1.5, 2504 Hz at 0.5, 0.25 Hz at 0.5: no device.
    assert!(joycon.rumble(440_000, 1_500_000).is_err());
    assert!(joycon.rumble(2_504_000, 500_000).is_err());
    assert!(joycon.rumble(250, 500_000).is_err());
}

#[test]
fn test_timing_byte_increment() {
    let device_info = DeviceInfo { product_id: JOYCON_L_BT, interface_number: 0, serial: String::from("TEST") };

    let mut joycon = JoyCon::new(&device_info).unwrap();
    assert_eq!(joycon.get_timing_byte(), 0);
    joycon.increment_timing_byte();
    assert_eq!(joycon.get_timing_byte(), 1);
}

#[test]
fn test_joycon_new() {
    let device_info = DeviceInfo { product_id: JOYCON_L_BT, interface_number: 0, serial: "TEST001".to_string() };
    let joycon = JoyCon::new(&device_info).unwrap();
    assert_eq!(joycon.get_type(), JoyConType::Left);

    let device_info = DeviceInfo { product_id: JOYCON_R_BT, interface_number: 0, serial: "TEST002".to_string() };
    let joycon = JoyCon::new(&device_info).unwrap();
    assert_eq!(joycon.get_type(), JoyConType::Right);
}

#[test]
fn test_invalid_device() {
    let device_info = DeviceInfo { product_id: 0x0000, interface_number: 0, serial: "TEST003".to_string() };
    let result = JoyCon::new(&device_info);
    assert!(matches!(result, Err(JoyConError::InvalidDevice(_))));
}

#[test]
fn joycon_tests_test_rumble_parameters() {
    let device_info = DeviceInfo { product_id: JOYCON_L_BT, interface_number: 0, serial: "TEST005".to_string() };
    let joycon = JoyCon::new(&device_info).unwrap();

    let result = joycon.rumble(440_000, 1_500_000);
    assert!(matches!(result, Err(JoyConError::InvalidRumble(_))));
}

#[test]
fn charging_grip_sides() {
    let mut info = create_test_device_info(JOYCON_CHARGING_GRIP);
    assert_eq!(JoyCon::new(&info).unwrap().get_type(), JoyConType::Right);
    info.interface_number = -1;
    assert_eq!(JoyCon::new(&info).unwrap().get_type(), JoyConType::Right);
    info.interface_number = 1;
    assert_eq!(JoyCon::new(&info).unwrap().get_type(), JoyConType::Left);
    info.interface_number = 2;
    assert!(matches!(JoyCon::new(&info), Err(JoyConError::InvalidDevice(_))));
}

#[test]
fn encoder_codes() {
    // 440 Hz: code 175; full amplitude: code 100.
    assert_eq!(encode_rumble(440_000, 1_000_000), (255, 200, 175 - 0x40, 100 / 2 + 0x40));
    // 200 Hz: code 138, high byte (138 - 0x60) * 4.
    assert_eq!(encode_rumble(200_000, 1_000_000).0, 0xa8);
    // The top of the range: code 223, the high byte saturates.
    assert_eq!(encode_rumble(1_252_000, 500_000), (255, 136, 223 - 0x40, 68 / 2 + 0x40));
    // 2504 Hz wraps one octave down to 1252 Hz; 0.25 Hz wraps up to 1 Hz (code 0).
    assert_eq!(encode_rumble(2_504_000, 500_000), encode_rumble(1_252_000, 500_000));
    assert_eq!(encode_rumble(250, 0), (0, 0, 0, 0x40));
    // Low amplitudes use the 16 * log2(17 a) curve.
    assert_eq!(encode_rumble(0, 120_000), (0, 32, 0, 8 + 0x40));
    assert_eq!(encode_rumble(0, 230_000).1, 62);
    // Amplitudes above 1.0 are clamped by the encoder.
    assert_eq!(encode_rumble(440_000, 3_000_000), encode_rumble(440_000, 1_000_000));
}

#[test]
fn rumble_packet_layout() {
    let left = build_rumble_packet(JoyConType::Left, 7, 440_000, 1_000_000);
    assert_eq!(left.len(), 49);
    assert_eq!(&left[0..10], &[0x10, 7, 0xff, 200, 0x6f, 0x72, 0x00, 0x01, 0x40, 0x40]);
    assert!(left[10..].iter().all(|b| *b == 0));
    let right = build_rumble_packet(JoyConType::Right, 7, 440_000, 1_000_000);
    assert_eq!(&right[0..10], &[0x10, 7, 0x00, 0x01, 0x40, 0x40, 0xff, 200, 0x6f, 0x72]);
}

#[test]
fn open_channel_writes_and_counts() {
    let mut joycon = JoyCon::new(&create_test_device_info(JOYCON_R_BT)).unwrap();
    assert!(matches!(joycon.rumble(440_000, 500_000), Err(JoyConError::NotConnected)));
    assert!(matches!(joycon.enable_rumble(), Err(JoyConError::NotConnected)));
    joycon.mark_opened();
    assert_eq!(joycon.state, LinkState::Opened);
    let enable = joycon.enable_rumble().unwrap();
    assert_eq!(&enable[0..12], &[0x10, 0, 0x00, 0x01, 0x40, 0x40, 0x00, 0x01, 0x40, 0x40, 0x48, 0x01]);
    let packet = joycon.rumble(440_000, 500_000).unwrap();
    assert_eq!(packet, build_rumble_packet(JoyConType::Right, 0, 440_000, 500_000));
    assert!(joycon.finish_write(Ok(49)).is_ok());
    assert_eq!(joycon.get_timing_byte(), 1);
    assert!(matches!(joycon.finish_write(Ok(10)), Err(JoyConError::HidError(_))));
    assert!(matches!(joycon.finish_write(Err("gone".to_string())), Err(JoyConError::HidError(_))));
    assert_eq!(joycon.get_timing_byte(), 1);
    joycon.mark_closed();
    assert!(matches!(joycon.rumble(440_000, 500_000), Err(JoyConError::NotConnected)));
}
