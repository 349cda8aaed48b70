use sensor_logic::registration::{
    announce_payload, config_payload, rng_from_adc, stagger_delay_ms, JoinAction, JoinPhase,
    JoinSession,
};

#[test]
fn seed_is_product_of_readings() {
    assert_eq!(rng_from_adc(3, 7), 21);
    assert_eq!(rng_from_adc(65535, 65535), 4294836225);
    assert_eq!(rng_from_adc(0, 1234), 0);
}

#[test]
fn stagger_is_low_byte() {
    assert_eq!(stagger_delay_ms(0x1234), 0x34);
    assert_eq!(stagger_delay_ms(255), 255);
    assert_eq!(stagger_delay_ms(256), 0);
}

#[test]
fn announce_is_zero_padded_to_seven_digits() {
    assert_eq!(announce_payload(42), b"0000042".to_vec());
    assert_eq!(announce_payload(0), b"0000000".to_vec());
    assert_eq!(announce_payload(1234567), b"1234567".to_vec());
    assert_eq!(announce_payload(4294967295), b"4294967295".to_vec());
}

#[test]
fn announce_matches_std_formatting() {
    for seed in [1u32, 9, 10, 99, 100, 65535, 9999999, 10000000, 123456789] {
        assert_eq!(announce_payload(seed), format!("{:07}", seed).into_bytes());
    }
}

#[test]
fn config_message_layout() {
    assert_eq!(config_payload("TEST", "TEST"), b"ID:TEST,TYPE:TEST\n".to_vec());
    assert_eq!(
        config_payload("ACCELEROMETER", "ACC_MPU9250"),
        b"ID:ACCELEROMETER,TYPE:ACC_MPU9250\n".to_vec()
    );
    assert_eq!(config_payload("", ""), b"ID:,TYPE:\n".to_vec());
}

#[test]
fn join_handshake() {
    let mut s = JoinSession::new(4321);
    assert_eq!(s.announce(), b"0004321");
    assert_eq!(s.phase(), JoinPhase::Listening);
    assert_eq!(s.on_inbox_frame(b"0004320"), JoinAction::PollInbox);
    assert_eq!(s.on_inbox_frame(b"000432"), JoinAction::PollInbox);
    assert_eq!(s.phase(), JoinPhase::Listening);
    assert_eq!(s.on_inbox_frame(b"0004321"), JoinAction::ReadAssignment);
    assert_eq!(s.phase(), JoinPhase::Assigning);
    assert_eq!(s.on_assignment(&[0x17, 0x99]), JoinAction::SendConfig(0x17));
    assert_eq!(s.phase(), JoinPhase::Joined(0x17));
    assert_eq!(s.announce(), b"0004321");
}

#[test]
fn long_announce_is_never_echoed_in_one_frame() {
    let mut s = JoinSession::new(123456789);
    assert_eq!(s.announce(), b"123456789");
    assert_eq!(s.on_inbox_frame(b"12345678"), JoinAction::PollInbox);
    assert_eq!(s.phase(), JoinPhase::Listening);
}

#[test]
fn announce_reads_back_as_the_seed() {
    for seed in [0u32, 7, 4321, 1234567, 98765432, 4294967295] {
        let text = announce_payload(seed);
        assert!(text.len() >= 7 && text.len() <= 10);
        assert!(text.iter().all(|b| b.is_ascii_digit()));
        let value: u32 = String::from_utf8(text).unwrap().parse().unwrap();
        assert_eq!(value, seed);
    }
}
