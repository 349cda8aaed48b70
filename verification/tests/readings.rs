use sensor_logic::readings::{
    gnss_bytes_available, gnss_next_read, reading_payload, thermocouple_quarter_degrees,
};

#[test]
fn reading_layout() {
    let p = reading_payload('a', [0x3c00, 0xbc00, 0x1234]);
    assert_eq!(p, [b'a', 0x00, 0x3c, 0x00, 0xbc, 0x34, 0x12]);
    let p = reading_payload('g', [0, 0xffff, 1]);
    assert_eq!(p, [b'g', 0, 0, 0xff, 0xff, 1, 0]);
}

#[test]
fn reading_label_is_cut_to_its_low_byte() {
    let p = reading_payload('\u{141}', [0, 0, 0]);
    assert_eq!(p[0], 0x41);
}

#[test]
fn reading_values_decode_back() {
    let bits = [0x4248u16, 0x0001, 0xfffe];
    let p = reading_payload('m', bits);
    for i in 0..3 {
        assert_eq!(u16::from_le_bytes([p[1 + 2 * i], p[2 + 2 * i]]), bits[i]);
    }
}

#[test]
fn gnss_count_is_big_endian() {
    assert_eq!(gnss_bytes_available([0x01, 0x02]), 0x0102);
    assert_eq!(gnss_bytes_available([0, 0]), 0);
    assert_eq!(gnss_bytes_available([0xff, 0xff]), 65535);
}

#[test]
fn gnss_reads_drain_the_stream() {
    assert_eq!(gnss_next_read(0), None);
    assert_eq!(gnss_next_read(256), Some((256, 0)));
    assert_eq!(gnss_next_read(257), Some((256, 1)));
    let mut remaining = 600usize;
    let mut reads = Vec::new();
    while let Some((n, rest)) = gnss_next_read(remaining) {
        reads.push(n);
        remaining = rest;
    }
    assert_eq!(reads, vec![256, 256, 88]);
}

#[test]
fn thermocouple_drops_status_bits() {
    assert_eq!(thermocouple_quarter_degrees([0x01, 0x90]), 50);
    assert_eq!(thermocouple_quarter_degrees([0x01, 0x97]), 50);
    assert_eq!(thermocouple_quarter_degrees([0x00, 0x00]), 0);
    assert_eq!(thermocouple_quarter_degrees([0xff, 0xff]), 0x1fff);
}
