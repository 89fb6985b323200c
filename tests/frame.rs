use network_simulator::access_control::{backoff_slots, MAX_ATTEMPTS};
use network_simulator::frame::{decapsulate_frame, encapsulate_frame, FLAG, PAD_BYTE};
use network_simulator::{calculate_crc, EtherType, EthernetHeader, MacAddr, ReceiveStatus};
use network_simulator::bus::Bus;
use network_simulator::PortNumber;

fn d() -> MacAddr {
    MacAddr::from([0x02, 0, 0, 0, 0, 0x02])
}

fn s() -> MacAddr {
    MacAddr::from([0x02, 0, 0, 0, 0, 0x01])
}

#[test]
fn encapsulated_frame_layout() {
    let payload = b"Hello".to_vec();
    let frame = encapsulate_frame(&d(), &s(), 5, &payload);
    assert_eq!(frame.len(), 65);
    assert_eq!(frame[0], FLAG);
    assert_eq!(&frame[1..7], &d().octets());
    assert_eq!(&frame[7..13], &s().octets());
    assert_eq!(&frame[13..15], &[0, 5]);
    assert_eq!(&frame[15..20], b"Hello");
    assert!(frame[20..61].iter().all(|&b| b == PAD_BYTE));
    let fcs = calculate_crc(&frame[..61]);
    assert_eq!(&frame[61..], &fcs.to_le_bytes());
    assert_eq!(calculate_crc(&frame), 0);
}

#[test]
fn long_payload_needs_no_padding() {
    let payload = vec![7u8; 100];
    let frame = encapsulate_frame(&d(), &s(), 100, &payload);
    assert_eq!(frame.len(), 1 + 14 + 100 + 4);
    assert_eq!(calculate_crc(&frame), 0);
}

#[test]
fn decapsulate_round_trip() {
    let payload = b"Hello".to_vec();
    let frame = encapsulate_frame(&d(), &s(), 5, &payload);
    assert_eq!(
        decapsulate_frame(&frame, &d(), false),
        Ok(ReceiveStatus::Received(d(), s(), 5, payload))
    );
}

#[test]
fn decapsulate_takes_broadcast() {
    let frame = encapsulate_frame(&MacAddr::broadcast(), &s(), 1, &vec![9]);
    assert_eq!(
        decapsulate_frame(&frame, &d(), false),
        Ok(ReceiveStatus::Received(MacAddr::broadcast(), s(), 1, vec![9]))
    );
}

#[test]
fn decapsulate_keeps_everything_after_a_type_value() {
    let frame = encapsulate_frame(&d(), &s(), 0x0800, &vec![1, 2, 3]);
    match decapsulate_frame(&frame, &d(), false) {
        Ok(ReceiveStatus::Received(_, _, t, data)) => {
            assert_eq!(t, 0x0800);
            assert_eq!(data, frame[15..].to_vec());
        }
        other => panic!("unexpected {:?}", other),
    }
}

#[test]
fn decapsulate_rejects_a_foreign_destination() {
    let frame = encapsulate_frame(&d(), &s(), 5, &b"Hello".to_vec());
    assert_eq!(decapsulate_frame(&frame, &s(), false), Err(ReceiveStatus::FrameCheckError));
    assert!(decapsulate_frame(&frame, &s(), true).is_ok());
}

#[test]
fn decapsulate_rejects_a_corrupt_frame() {
    let mut frame = encapsulate_frame(&d(), &s(), 5, &b"Hello".to_vec());
    frame[16] ^= 1;
    assert_eq!(decapsulate_frame(&frame, &d(), false), Err(ReceiveStatus::FrameCheckError));
}

#[test]
fn decapsulate_rejects_an_undersized_frame() {
    let mut frame = vec![FLAG, 1, 2, 3];
    let fcs = calculate_crc(&frame);
    frame.extend_from_slice(&fcs.to_le_bytes());
    assert_eq!(calculate_crc(&frame), 0);
    assert_eq!(decapsulate_frame(&frame, &d(), true), Err(ReceiveStatus::FrameCheckError));
}

#[test]
fn decapsulate_reports_frame_too_long() {
    let frame = encapsulate_frame(&d(), &s(), 0x0800, &vec![0u8; 1997]);
    assert_eq!(decapsulate_frame(&frame, &d(), false), Err(ReceiveStatus::FrameTooLong));
    let frame = encapsulate_frame(&d(), &s(), 0x0800, &vec![0u8; 1996]);
    assert!(decapsulate_frame(&frame, &d(), false).is_ok());
}

#[test]
fn header_round_trip() {
    let header = EthernetHeader::new(&s(), &d(), 0x86dd);
    assert_eq!(*header.src(), s());
    assert_eq!(*header.dest(), d());
    let bytes = header.to_be_bytes();
    assert_eq!(bytes, [0x02, 0, 0, 0, 0, 0x02, 0x02, 0, 0, 0, 0, 0x01, 0x86, 0xdd]);
    let back = EthernetHeader::from_be_bytes(&bytes).unwrap();
    assert_eq!(*back.dest(), d());
    assert_eq!(*back.src(), s());
    assert_eq!(back.type_len(), 0x86dd);
}

#[test]
fn ether_type_codes() {
    assert_eq!(EtherType::IPv4.code(), 0x0800);
    assert_eq!(EtherType::Arp.code(), 0x0806);
    assert_eq!(EtherType::IPv6.code(), 0x86dd);
    assert_eq!(EtherType::from_code(0x0806), Some(EtherType::Arp));
    assert_eq!(EtherType::from_code(0x1234), None);
}

#[test]
fn mac_addresses() {
    assert!(MacAddr::broadcast().is_broadcast());
    assert!(!d().is_broadcast());
    assert_eq!(d().key(), 0x0200_0000_0002);
    assert_ne!(d(), s());
}

#[test]
fn backoff_stays_below_its_bound() {
    for attempts in 0..=MAX_ATTEMPTS {
        let exp = attempts.min(10) as u32;
        for _ in 0..50 {
            assert!(backoff_slots(attempts) < 2u64.pow(exp));
        }
    }
    assert_eq!(backoff_slots(0), 0);
}

#[test]
fn backoff_draws_more_than_one_value() {
    let draws: Vec<u64> = (0..200).map(|_| backoff_slots(10)).collect();
    assert!(draws.iter().any(|&k| k != draws[0]));
}

#[test]
fn bus_port_numbers() {
    assert_eq!(Bus::index(0x0003_0005), (3, 5));
    assert_eq!(Bus::index(7), (0, 7));
}

#[test]
fn port_numbers() {
    assert_eq!(PortNumber::from(5usize).index(), 5);
    assert_eq!(PortNumber::from(0x105usize), PortNumber(5));
}
