use network_simulator::calculate_crc;
use network_simulator::ErrorControl;
use network_simulator::EndDevice;

#[test]
fn test_crc() {
    let data = vec![0x31, 0x32, 0x33, 0x34, 0x35, 0x36, 0x37, 0x38, 0x39];
    let crc = calculate_crc(&data);
    assert_eq!(crc, 0xd2c22f51);
}

#[test]
fn validate_crc() {
    let mut data = vec![0x31, 0x32, 0x33, 0x34, 0x35, 0x36, 0x37, 0x38, 0x39];
    let crc = calculate_crc(&data);
    data.extend_from_slice(&crc.to_le_bytes());
    assert_eq!(calculate_crc(&data), 0);
}

#[test]
fn crc_of_empty_input_is_reflected_initial_register() {
    assert_eq!(calculate_crc(&[]), 0xffff_ffff);
}

#[test]
fn crc_trailer_zeroes_other_messages() {
    for message in [vec![0u8], vec![0xab, 0xcd, 0xef], (0..=255u8).collect::<Vec<u8>>()] {
        let mut data = message.clone();
        let crc = calculate_crc(&data);
        data.extend_from_slice(&crc.to_le_bytes());
        assert_eq!(calculate_crc(&data), 0);
    }
}

#[test]
fn crc_detects_a_flipped_bit() {
    let mut data = vec![0x31, 0x32, 0x33, 0x34, 0x35, 0x36, 0x37, 0x38, 0x39];
    let crc = calculate_crc(&data);
    data.extend_from_slice(&crc.to_le_bytes());
    data[3] ^= 0x10;
    assert_ne!(calculate_crc(&data), 0);
}

#[test]
fn fcs_of_error_control_is_the_crc() {
    let data = vec![0x31, 0x32, 0x33, 0x34, 0x35, 0x36, 0x37, 0x38, 0x39];
    assert_eq!(<EndDevice as ErrorControl>::fcs(&data), 0xd2c22f51);
}
