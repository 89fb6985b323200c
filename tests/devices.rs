use network_simulator::access_control::TransmitAction;
use network_simulator::{Bus, EndDevice, Hub, MacAddr, Medium, ReceiveStatus, Switch, TransmitStatus};

/// Runs a station's transmitter, one byte time per step, until it is done.
fn send(
    device: &mut EndDevice,
    medium: &mut Medium,
    dest: &MacAddr,
    src: &MacAddr,
    type_len: u16,
    payload: Vec<u8>,
) -> Result<TransmitStatus, TransmitStatus> {
    device.transmit_frame(dest, src, type_len, payload);
    loop {
        if let TransmitAction::Done(r) = device.transmit_step(medium) {
            return r;
        }
    }
}

#[test]
fn test_access_control() {
    let mut medium = Medium::new();
    let mut dev1 = EndDevice::new();
    let mut dev2 = EndDevice::new();
    assert!(dev1.connect(&mut medium, &mut dev2.nic));

    let message = "Hello".bytes().collect::<Vec<u8>>();
    let len = message.len() as u16;
    let (dest, src) = (dev2.mac(), dev1.mac());
    let status = send(&mut dev1, &mut medium, &dest, &src, len, message.clone());
    assert!(status.is_ok());
    let status = dev2.receive_frame(&mut medium);
    assert!(status.is_ok());
    match status {
        Ok(ReceiveStatus::Received(_, _, _, data)) => {
            assert_eq!(data, message);
        }
        _ => panic!("Error receiving frame"),
    }
}

#[test]
fn direct_mac_delivery() {
    let mut medium = Medium::new();
    let mut d1 = EndDevice::new();
    let mut d2 = EndDevice::new();
    assert!(d1.connect(&mut medium, &mut d2.nic));
    let (dest, src) = (d2.mac(), d1.mac());
    let status = send(&mut d1, &mut medium, &dest, &src, 5, b"Hello".to_vec());
    assert_eq!(status, Ok(TransmitStatus::Success));
    assert_eq!(d1.transmit_state().attempts, 1);
    assert_eq!(
        d2.receive_frame(&mut medium),
        Ok(ReceiveStatus::Received(d2.mac(), d1.mac(), 5, vec![72, 101, 108, 108, 111]))
    );
}

#[test]
fn carrier_on_the_wire_gives_excessive_collisions() {
    let mut medium = Medium::new();
    let mut d1 = EndDevice::new();
    let mut d2 = EndDevice::new();
    assert!(d1.connect(&mut medium, &mut d2.nic));
    d2.transmit(&mut medium, 0x55);
    assert!(d1.carrier_sense(&medium));
    let (dest, src) = (d2.mac(), d1.mac());
    let status = send(&mut d1, &mut medium, &dest, &src, 1, vec![1]);
    assert_eq!(status, Err(TransmitStatus::ExcessiveCollisions));
    assert_eq!(d1.transmit_state().attempts, 16);
    assert!(!d1.transmitting());
    let mut jam = Vec::new();
    while let Some(byte) = d2.receive(&mut medium) {
        jam.push(byte);
    }
    assert_eq!(jam, vec![0xab; 16]);
}

#[test]
fn backoff_waits_before_the_next_attempt() {
    let mut medium = Medium::new();
    let mut d1 = EndDevice::new();
    let mut d2 = EndDevice::new();
    assert!(d1.connect(&mut medium, &mut d2.nic));
    d2.transmit(&mut medium, 0x55);
    let (dest, src) = (d2.mac(), d1.mac());
    d1.transmit_frame(&dest, &src, 5, b"Hello".to_vec());
    let wait = match d1.transmit_step(&mut medium) {
        TransmitAction::Backoff(w) => w,
        other => panic!("expected a backoff, got {:?}", other),
    };
    assert!(wait == 0 || wait == 512);
    assert_eq!(d1.receive(&mut medium), Some(0x55));
    assert_eq!(d2.receive(&mut medium), Some(0xab));
    for _ in 0..wait {
        assert_eq!(d1.transmit_step(&mut medium), TransmitAction::Waiting);
        assert_eq!(d2.receive(&mut medium), None);
    }
    let status = loop {
        match d1.transmit_step(&mut medium) {
            TransmitAction::Done(r) => break r,
            TransmitAction::Sending => {}
            other => panic!("unexpected {:?}", other),
        }
    };
    assert_eq!(status, Ok(TransmitStatus::Success));
    assert_eq!(d1.transmit_state().attempts, 2);
    assert_eq!(
        d2.receive_frame(&mut medium),
        Ok(ReceiveStatus::Received(dest, src, 5, b"Hello".to_vec()))
    );
    assert_eq!(d1.transmit_step(&mut medium), TransmitAction::Idle);
}

#[test]
fn stations_on_a_hub_detect_each_other() {
    let mut medium = Medium::new();
    let mut hub = Hub::new();
    let mut d: Vec<EndDevice> = (0..3).map(|_| EndDevice::new()).collect();
    for device in d.iter_mut() {
        assert!(hub.connect(&mut medium, &mut device.nic));
    }
    let (m0, m1, m2) = (d[0].mac(), d[1].mac(), d[2].mac());
    d[0].transmit_frame(&m2, &m0, 1, vec![1]);
    d[1].transmit_frame(&m2, &m1, 1, vec![2]);
    let mut results = [None, None];
    let mut backoffs = 0;
    for _ in 0..10_000_000 {
        for i in 0..2 {
            if results[i].is_none() {
                match d[i].transmit_step(&mut medium) {
                    TransmitAction::Done(r) => results[i] = Some(r),
                    TransmitAction::Backoff(_) => backoffs += 1,
                    _ => {}
                }
            }
            while d[i].receive(&mut medium).is_some() {}
        }
        hub.tick(&mut medium);
        if results.iter().all(|r| r.is_some()) {
            break;
        }
    }
    assert!(backoffs >= 1);
    assert!(results.iter().all(|r| r.is_some()));
}

#[test]
fn receive_without_a_frame_is_a_check_error() {
    let mut medium = Medium::new();
    let mut d1 = EndDevice::new();
    let mut d2 = EndDevice::new();
    assert!(d1.connect(&mut medium, &mut d2.nic));
    assert_eq!(d2.receive_frame(&mut medium), Err(ReceiveStatus::FrameCheckError));
    d1.transmit(&mut medium, 1);
    d1.transmit(&mut medium, 2);
    assert_eq!(d2.receive_frame(&mut medium), Err(ReceiveStatus::FrameCheckError));
    assert_eq!(d2.receive_state().incoming_frame, vec![1, 2]);
}

#[test]
fn frame_for_another_station_is_not_delivered() {
    let mut medium = Medium::new();
    let mut d1 = EndDevice::new();
    let mut d2 = EndDevice::new();
    assert!(d1.connect(&mut medium, &mut d2.nic));
    let other = MacAddr::from([0x02, 9, 9, 9, 9, 9]);
    let (dest, src) = (other, d1.mac());
    assert!(send(&mut d1, &mut medium, &dest, &src, 1, vec![1]).is_ok());
    assert_eq!(d2.receive_frame(&mut medium), Err(ReceiveStatus::FrameCheckError));
    assert!(!d2.recognize_address(&other));
    assert!(d2.recognize_address(&MacAddr::broadcast()));
}

#[test]
fn test_hub() {
    let mut medium = Medium::new();
    let mut hub = Hub::default();
    let mut dev1 = EndDevice::new();
    let mut dev2 = EndDevice::new();

    assert!(hub.connect(&mut medium, &mut dev1.nic));
    assert!(hub.connect(&mut medium, &mut dev2.nic));

    dev1.transmit(&mut medium, 0x09);
    hub.tick(&mut medium);
    assert_eq!(dev2.receive(&mut medium), Some(0x09));
    assert_eq!(dev1.receive(&mut medium), None);
}

#[test]
fn hub_broadcast() {
    let mut medium = Medium::new();
    let mut hub = Hub::new();
    let mut d1 = EndDevice::new();
    let mut d2 = EndDevice::new();
    let mut d3 = EndDevice::new();
    assert!(hub.connect(&mut medium, &mut d1.nic));
    assert!(hub.connect(&mut medium, &mut d2.nic));
    assert!(hub.connect(&mut medium, &mut d3.nic));
    assert_eq!(hub.available_interface(), Some(3));
    let (dest, src) = (d2.mac(), d1.mac());
    d1.transmit_frame(&dest, &src, 5, b"Hello".to_vec());
    assert_eq!(d1.transmit_step(&mut medium), TransmitAction::Sending);
    hub.tick(&mut medium);
    assert!(d2.carrier_sense(&medium));
    assert!(d3.carrier_sense(&medium));
    let status = loop {
        let action = d1.transmit_step(&mut medium);
        hub.tick(&mut medium);
        if let TransmitAction::Done(r) = action {
            break r;
        }
    };
    assert_eq!(status, Ok(TransmitStatus::Success));
    assert_eq!(d1.transmit_state().attempts, 1);
    for _ in 0..100 {
        hub.tick(&mut medium);
    }
    assert_eq!(
        d2.receive_frame(&mut medium),
        Ok(ReceiveStatus::Received(d2.mac(), d1.mac(), 5, b"Hello".to_vec()))
    );
    assert!(d3.carrier_sense(&medium));
    assert_eq!(d3.receive_frame(&mut medium), Err(ReceiveStatus::FrameCheckError));
    assert_eq!(d3.receive_state().incoming_frame.len(), 65);
}

#[test]
fn hub_runs_out_of_ports() {
    let mut medium = Medium::new();
    let mut hub = Hub::new();
    let mut devices: Vec<EndDevice> = (0..9).map(|_| EndDevice::new()).collect();
    for device in devices.iter_mut().take(8) {
        assert!(hub.connect(&mut medium, &mut device.nic));
    }
    assert_eq!(hub.available_interface(), None);
    assert!(!hub.connect(&mut medium, &mut devices[8].nic));
    assert!(!devices[8].nic.is_connected());
    hub.disconnect(&mut medium);
    assert_eq!(hub.available_interface(), Some(0));
}

#[test]
fn test_bus() {
    let mut medium = Medium::new();
    let mut bus = Bus::new(&mut medium);
    let mut devices: Vec<EndDevice> = (0..32).map(|_| EndDevice::new()).collect();

    for device in devices.iter_mut() {
        assert!(bus.connect(&mut medium, &mut device.nic));
    }

    devices[0].transmit(&mut medium, 0x09);
    for _ in 0..1 {
        bus.tick(&mut medium);
    }

    assert_eq!(devices[31].receive(&mut medium), Some(0x09));
}

#[test]
fn bus_has_thirty_two_free_ports() {
    let mut medium = Medium::new();
    let mut bus = Bus::new(&mut medium);
    assert_eq!(bus.available_interface(), Some(1));
    let mut devices: Vec<EndDevice> = (0..33).map(|_| EndDevice::new()).collect();
    for device in devices.iter_mut().take(32) {
        assert!(bus.connect(&mut medium, &mut device.nic));
    }
    assert_eq!(bus.available_interface(), None);
    assert!(!bus.connect(&mut medium, &mut devices[32].nic));
}

#[test]
fn bus_chain_delivers_a_frame() {
    let mut medium = Medium::new();
    let mut bus = Bus::new(&mut medium);
    let mut devices: Vec<EndDevice> = (0..32).map(|_| EndDevice::new()).collect();
    for device in devices.iter_mut() {
        assert!(bus.connect(&mut medium, &mut device.nic));
    }
    let dest = devices[31].mac();
    let src = devices[0].mac();
    devices[0].transmit_frame(&dest, &src, 1, vec![9]);
    let status = loop {
        let action = devices[0].transmit_step(&mut medium);
        bus.tick(&mut medium);
        if let TransmitAction::Done(r) = action {
            break r;
        }
    };
    assert_eq!(status, Ok(TransmitStatus::Success));
    for _ in 0..10 {
        bus.tick(&mut medium);
    }
    assert_eq!(
        devices[31].receive_frame(&mut medium),
        Ok(ReceiveStatus::Received(dest, src, 1, vec![9]))
    );
}

#[test]
fn test_switch() {
    let mut medium = Medium::new();
    let mut switch = Switch::new(MacAddr::random());
    let mut dev1 = EndDevice::new();
    let mut dev2 = EndDevice::new();
    let mut dev3 = EndDevice::new();

    assert!(switch.connect(&mut medium, &mut dev1.nic));
    assert!(switch.connect(&mut medium, &mut dev2.nic));
    assert!(switch.connect(&mut medium, &mut dev3.nic));

    let message = "Hello".bytes().collect::<Vec<u8>>();
    let len = message.len() as u16;
    let (dest, src) = (dev2.mac(), dev1.mac());
    let status = send(&mut dev1, &mut medium, &dest, &src, len, message.clone());
    assert_eq!(status, Ok(TransmitStatus::Success));
    for _ in 0..50 {
        switch.tick(&mut medium);
    }
    assert_eq!(switch.learned_port(&dev1.mac()), Some(0));
    assert_eq!(switch.learned_port(&dev2.mac()), None);
    assert!(dev3.carrier_sense(&medium));
    assert_eq!(
        dev2.receive_frame(&mut medium),
        Ok(ReceiveStatus::Received(dev2.mac(), dev1.mac(), len, message.clone()))
    );
    assert_eq!(dev3.receive_frame(&mut medium), Err(ReceiveStatus::FrameCheckError));

    let (dest, src) = (dev1.mac(), dev2.mac());
    let status = send(&mut dev2, &mut medium, &dest, &src, len, message.clone());
    assert_eq!(status, Ok(TransmitStatus::Success));
    for _ in 0..50 {
        switch.tick(&mut medium);
    }
    assert_eq!(switch.learned_port(&dev2.mac()), Some(1));
    assert!(!dev3.carrier_sense(&medium));
    assert_eq!(
        dev1.receive_frame(&mut medium),
        Ok(ReceiveStatus::Received(dev1.mac(), dev2.mac(), len, message))
    );
}

#[test]
fn switch_floods_unknown_and_targets_learned() {
    let mut medium = Medium::new();
    let mut switch = Switch::new(MacAddr::from([0x02, 0, 0, 0, 0, 0xee]));
    let mut d: Vec<EndDevice> = (0..3).map(|_| EndDevice::new()).collect();
    for device in d.iter_mut() {
        assert!(switch.connect(&mut medium, &mut device.nic));
    }
    assert!(switch.recognize_address(&d[0].mac()));
    assert_eq!(switch.egress_ports(0, &d[1].mac()), vec![1, 2]);
    let (m0, m1) = (d[0].mac(), d[1].mac());
    assert!(send(&mut d[0], &mut medium, &m1, &m0, 1, vec![3]).is_ok());
    assert_eq!(switch.switch_frame(&mut medium, 0), vec![1, 2]);
    assert!(d[1].carrier_sense(&medium));
    assert!(d[1].receive_frame(&mut medium).is_ok());
    assert_eq!(switch.egress_ports(1, &m0), vec![0]);
    assert!(send(&mut d[1], &mut medium, &m0, &m1, 1, vec![4]).is_ok());
    assert_eq!(switch.switch_frame(&mut medium, 1), vec![0]);
}

#[test]
fn switch_drops_a_bad_frame() {
    let mut medium = Medium::new();
    let mut switch = Switch::new(MacAddr::random());
    let mut d1 = EndDevice::new();
    assert!(switch.connect(&mut medium, &mut d1.nic));
    d1.transmit(&mut medium, 1);
    assert_eq!(switch.switch_frame(&mut medium, 0), Vec::<usize>::new());
    assert_eq!(switch.learned_port(&d1.mac()), None);
}

#[test]
fn auto_disconnect_on_peer_close() {
    let mut medium = Medium::new();
    let mut d1 = EndDevice::new();
    let mut d2 = EndDevice::new();
    assert!(d1.connect(&mut medium, &mut d2.nic));
    d1.disconnect(&mut medium);
    assert_eq!(d2.receive(&mut medium), None);
    assert!(!d2.nic().is_connected());
}

#[test]
fn hub_repeats_each_sender_to_the_others() {
    let mut medium = Medium::new();
    let mut hub = Hub::new();
    let mut d: Vec<EndDevice> = (0..3).map(|_| EndDevice::new()).collect();
    for device in d.iter_mut() {
        assert!(hub.connect(&mut medium, &mut device.nic));
    }
    d[0].transmit(&mut medium, 1);
    d[1].transmit(&mut medium, 2);
    hub.tick(&mut medium);
    hub.tick(&mut medium);
    let mut at_third = vec![d[2].receive(&mut medium).unwrap(), d[2].receive(&mut medium).unwrap()];
    at_third.sort();
    assert_eq!(at_third, vec![1, 2]);
    assert_eq!(d[0].receive(&mut medium), Some(2));
    assert_eq!(d[0].receive(&mut medium), None);
    assert_eq!(d[1].receive(&mut medium), Some(1));
    hub.tick(&mut medium);
    assert!(!d[2].carrier_sense(&medium));
}
