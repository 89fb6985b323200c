use network_simulator::medium::{RecvError, SendError, LINK_CAPACITY};
use network_simulator::{Link, Medium};

#[test]
fn test_link() {
    let mut medium = Medium::new();
    let (a, b) = Link::connection(&mut medium);
    a.send(&mut medium, 42).ok();
    assert_eq!(a.recv(&mut medium).is_err(), true);
    assert_eq!(b.recv(&mut medium).unwrap(), 42);
}

#[test]
fn link_round_trip_both_directions() {
    let mut medium = Medium::new();
    let (a, b) = Link::connection(&mut medium);
    assert_eq!(a.send(&mut medium, 42), Ok(()));
    assert_eq!(b.recv(&mut medium), Ok(42));
    assert_eq!(a.recv(&mut medium), Err(RecvError::Empty));
    assert_eq!(b.send(&mut medium, 7), Ok(()));
    assert_eq!(a.recv(&mut medium), Ok(7));
}

#[test]
fn link_delivers_in_order() {
    let mut medium = Medium::new();
    let (a, b) = Link::connection(&mut medium);
    for byte in 0..10u8 {
        a.send(&mut medium, byte).unwrap();
    }
    assert!(b.is_recieving(&medium));
    let mut got = Vec::new();
    while let Ok(byte) = b.recv(&mut medium) {
        got.push(byte);
    }
    assert_eq!(got, (0..10u8).collect::<Vec<u8>>());
    assert!(!b.is_recieving(&medium));
}

#[test]
fn link_refuses_sends_past_capacity() {
    let mut medium = Medium::new();
    let (a, _b) = Link::connection(&mut medium);
    for i in 0..LINK_CAPACITY {
        assert_eq!(a.send(&mut medium, (i % 256) as u8), Ok(()));
    }
    assert_eq!(a.send(&mut medium, 1), Err(SendError::Full));
}

#[test]
fn link_reports_a_closed_peer() {
    let mut medium = Medium::new();
    let (a, b) = Link::connection(&mut medium);
    a.send(&mut medium, 5).unwrap();
    a.close(&mut medium);
    assert_eq!(b.recv(&mut medium), Ok(5));
    assert_eq!(b.recv(&mut medium), Err(RecvError::Disconnected));
    assert_eq!(b.send(&mut medium, 1), Err(SendError::Closed));
}
