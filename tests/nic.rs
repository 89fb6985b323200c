use network_simulator::{Link, MacAddr, Medium, NIC};

#[test]
fn test_nic_set_transmit() {
    let mut nic = NIC::default();
    assert!(!nic.transmitting());
    nic.set_transmitting(true);
    assert!(nic.transmitting());
}

#[test]
fn test_auto_disconnect() {
    let mut medium = Medium::new();
    let mut nic1 = NIC::default();
    let mut nic2 = NIC::default();

    let (one, two) = Link::connection(&mut medium);
    nic1.set_connection(&mut medium, Some(one));
    nic2.set_connection(&mut medium, Some(two));
    assert!(nic1.is_connected());
    assert!(nic2.is_connected());
    nic1.set_connection(&mut medium, None);

    assert_eq!(nic2.recieve(&mut medium), None);
    assert!(!nic1.is_connected());
    assert!(!nic2.is_connected());
}

#[test]
fn test_transmit_recieve() {
    let mut medium = Medium::new();
    let mut nic1 = NIC::default();
    let mut nic2 = NIC::default();

    let (one, two) = Link::connection(&mut medium);
    nic1.set_connection(&mut medium, Some(one));
    nic2.set_connection(&mut medium, Some(two));

    nic1.transmit(&mut medium, 0x42);
    assert_eq!(nic2.recieve(&mut medium), Some(0x42));
}

#[test]
fn receiving_only_while_a_byte_waits() {
    let mut medium = Medium::new();
    let mut nic1 = NIC::default();
    let mut nic2 = NIC::default();
    assert!(!nic1.is_receiving(&medium));
    assert!(nic1.connect(&mut medium, &mut nic2));
    assert!(!nic2.is_receiving(&medium));
    nic1.transmit(&mut medium, 1);
    assert!(nic2.is_receiving(&medium));
    assert!(nic2.is_connected());
    nic1.set_transmitting(true);
    nic2.set_transmitting(true);
    assert!(nic2.collision_detect(&medium));
    assert!(!nic1.collision_detect(&medium));
    assert_eq!(nic2.recieve(&mut medium), Some(1));
    assert!(!nic2.is_receiving(&medium));
}

#[test]
fn connect_refuses_a_connected_nic() {
    let mut medium = Medium::new();
    let mut nic1 = NIC::default();
    let mut nic2 = NIC::default();
    let mut nic3 = NIC::default();
    assert!(nic1.connect(&mut medium, &mut nic2));
    assert!(!nic3.connect(&mut medium, &mut nic1));
    assert!(!nic3.is_connected());
}

#[test]
fn disconnect_twice_is_harmless() {
    let mut medium = Medium::new();
    let mut nic1 = NIC::default();
    let mut nic2 = NIC::default();
    assert!(nic1.connect(&mut medium, &mut nic2));
    nic1.disconnect(&mut medium);
    assert!(!nic1.is_connected());
    nic1.disconnect(&mut medium);
    assert!(!nic1.is_connected());
    nic1.set_connection(&mut medium, None);
    nic1.set_connection(&mut medium, None);
    assert!(!nic1.is_connected());
}

#[test]
fn transmit_to_a_closed_peer_disconnects() {
    let mut medium = Medium::new();
    let mut nic1 = NIC::default();
    let mut nic2 = NIC::default();
    assert!(nic1.connect(&mut medium, &mut nic2));
    nic2.disconnect(&mut medium);
    nic1.transmit(&mut medium, 9);
    assert!(!nic1.is_connected());
}

#[test]
fn nic_keeps_its_address() {
    let mac = MacAddr::from([1, 2, 3, 4, 5, 6]);
    let nic = NIC::new(mac);
    assert_eq!(nic.mac(), mac);
    assert_eq!(nic.mac().octets(), [1, 2, 3, 4, 5, 6]);
}
