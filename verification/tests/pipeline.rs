use pong_multi_server::network::endpoint::Endpoint;
use pong_multi_server::network::pipeline::{
    Packet, Pipeline, CHANNEL_CAPACITY, MAX_DATAGRAM, MAX_IN_FLIGHT,
};

fn client(n: u16) -> Endpoint {
    Endpoint::v4(172, 16, 0, 9, 7000 + n)
}

fn packet(n: u16) -> Packet {
    Packet { len: 2, addr: client(n), bytes: vec![n as u8, (n >> 8) as u8] }
}

#[test]
fn limits_of_the_server() {
    assert_eq!(CHANNEL_CAPACITY, 1000);
    assert_eq!(MAX_IN_FLIGHT, 1000);
    assert_eq!(MAX_DATAGRAM, 1024);
}

#[test]
fn capture_copies_exactly_the_bytes_received() {
    let mut buf = [0u8; 16];
    buf[..5].copy_from_slice(b"hello");
    buf[5] = 0xAA;
    let p = Packet::capture(&buf, 5, client(1));
    assert_eq!(p.len, 5);
    assert_eq!(p.addr, client(1));
    assert_eq!(p.bytes, b"hello".to_vec());
}

#[test]
fn capture_of_an_empty_read_is_empty() {
    let buf = [7u8; 4];
    let p = Packet::capture(&buf, 0, client(1));
    assert_eq!(p.len, 0);
    assert!(p.bytes.is_empty());
}

#[test]
fn capture_of_a_full_buffer_takes_all_of_it() {
    let buf = [7u8; MAX_DATAGRAM];
    let p = Packet::capture(&buf, MAX_DATAGRAM, client(1));
    assert_eq!(p.bytes.len(), 1024);
}

#[test]
fn new_pipeline_is_empty() {
    let p = Pipeline::new();
    assert_eq!(p.pending(), 0);
    assert_eq!(p.in_flight(), 0);
    assert_eq!(p.available_permits(), 1000);
}

#[test]
fn packets_come_out_in_the_order_they_went_in() {
    let mut p = Pipeline::new();
    assert!(p.offer(packet(1)));
    assert!(p.offer(packet(2)));
    assert!(p.offer(packet(3)));
    assert_eq!(p.pending(), 3);
    assert_eq!(p.start_next().unwrap().addr, client(1));
    assert_eq!(p.start_next().unwrap().addr, client(2));
    assert_eq!(p.start_next().unwrap().addr, client(3));
    assert!(p.start_next().is_none());
    assert_eq!(p.in_flight(), 3);
    assert_eq!(p.pending(), 0);
}

#[test]
fn a_full_queue_drops_the_packet() {
    let mut p = Pipeline::with_limits(2, 5);
    assert!(p.offer(packet(1)));
    assert!(p.offer(packet(2)));
    assert!(!p.offer(packet(3)));
    assert_eq!(p.pending(), 2);
    assert_eq!(p.start_next().unwrap().addr, client(1));
    assert!(p.offer(packet(4)));
    assert_eq!(p.start_next().unwrap().addr, client(2));
    assert_eq!(p.start_next().unwrap().addr, client(4));
}

#[test]
fn no_permit_no_start() {
    let mut p = Pipeline::with_limits(10, 2);
    for n in 0..5 {
        assert!(p.offer(packet(n)));
    }
    assert!(p.start_next().is_some());
    assert!(p.start_next().is_some());
    assert_eq!(p.available_permits(), 0);
    assert!(p.start_next().is_none());
    assert_eq!(p.pending(), 3);
    assert_eq!(p.in_flight(), 2);

    p.release();
    assert_eq!(p.available_permits(), 1);
    assert_eq!(p.start_next().unwrap().addr, client(2));
    assert!(p.start_next().is_none());
}

#[test]
fn release_with_nothing_in_flight_changes_nothing() {
    let mut p = Pipeline::with_limits(3, 3);
    p.release();
    assert_eq!(p.in_flight(), 0);
    assert_eq!(p.available_permits(), 3);
}

#[test]
fn receive_queues_a_copy_of_the_read() {
    let mut p = Pipeline::with_limits(1, 1);
    let buf = *b"{\"action\":\"enter\"}......";
    assert!(p.receive(&buf, 18, client(1)));
    assert!(!p.receive(&buf, 18, client(2)));
    let got = p.start_next().unwrap();
    assert_eq!(got.len, 18);
    assert_eq!(got.addr, client(1));
    assert_eq!(got.bytes, b"{\"action\":\"enter\"}".to_vec());
}

#[test]
fn admission_bound_under_a_burst() {
    let mut p = Pipeline::new();
    let mut queued = 0;
    let mut dropped = 0;
    for n in 0..5000u16 {
        if p.offer(packet(n)) {
            queued += 1;
        } else {
            dropped += 1;
        }
        assert!(p.pending() <= 1000);
    }
    assert_eq!(queued, 1000);
    assert_eq!(dropped, 4000);

    // The worker starts what it can; a burst behind it refills the queue.
    let mut started = 0;
    while p.start_next().is_some() {
        started += 1;
        assert!(p.in_flight() <= 1000);
    }
    assert_eq!(started, 1000);
    assert_eq!(p.in_flight(), 1000);
    for n in 0..5000u16 {
        p.offer(packet(n));
    }
    assert_eq!(p.pending(), 1000);
    assert!(p.start_next().is_none());
    assert_eq!(p.in_flight(), 1000);
    assert_eq!(p.pending(), 1000);

    // Each release lets exactly one more in.
    for _ in 0..10 {
        p.release();
        assert!(p.start_next().is_some());
        assert!(p.start_next().is_none());
        assert_eq!(p.in_flight(), 1000);
    }
    assert_eq!(p.pending(), 990);
}
