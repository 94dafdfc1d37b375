use rtp_relay::buffer::{Packet, StreamBuffer};
use rtp_relay::drain::{
    destination_port, drain_tick, on_tick, start, DrainConfig, DrainPhase, DrainState, TickAction,
};
use rtp_relay::header::{parse, Header, HeaderError, PACKET_SIZE};
use rtp_relay::registry::StreamRegistry;
use rtp_relay::sequence::{offset, precedes};
use rtp_relay::stats::{latency_ms, percentile, percentile_of_sorted, Statistics, P50, P95, P99};

fn datagram(version: u8, sequence: u16, stream_id: u32, fill: u8) -> Vec<u8> {
    let mut d = vec![fill; PACKET_SIZE];
    d[0] = version << 6;
    d[2..4].copy_from_slice(&sequence.to_be_bytes());
    d[8..12].copy_from_slice(&stream_id.to_be_bytes());
    d
}

fn packet(sequence: u16, fill: u8) -> Packet {
    Packet { sequence, arrival_ms: 0, data: vec![fill; 4] }
}

fn drain_all(b: &mut StreamBuffer) -> Vec<u16> {
    let mut out = Vec::new();
    while let Some(p) = b.pop_min() {
        out.push(p.sequence);
    }
    out
}

#[test]
fn parse_reads_fields() {
    let d = datagram(2, 0x1234, 0xdeadbeef, 7);
    assert_eq!(parse(&d), Ok(Header { version: 2, sequence: 0x1234, stream_id: 0xdeadbeef }));
}

#[test]
fn parse_rejects_short_datagram() {
    let d = datagram(2, 1, 1, 0);
    assert_eq!(parse(&d[..PACKET_SIZE - 1]), Err(HeaderError::Truncated));
    assert_eq!(parse(&[]), Err(HeaderError::Truncated));
}

#[test]
fn parse_rejects_other_versions_and_goes_on() {
    for v in [0u8, 1, 3] {
        assert_eq!(parse(&datagram(v, 5, 9, 0)), Err(HeaderError::UnsupportedVersion));
    }
    assert_eq!(parse(&datagram(2, 6, 9, 0)), Ok(Header { version: 2, sequence: 6, stream_id: 9 }));
}

#[test]
fn long_datagram_is_cut_to_packet_size() {
    let mut d = datagram(2, 3, 4, 1);
    d.extend_from_slice(&[9; 20]);
    let (id, p) = Packet::from_datagram(&d, 77).unwrap();
    assert_eq!(id, 4);
    assert_eq!(p.sequence, 3);
    assert_eq!(p.arrival_ms, 77);
    assert_eq!(p.data, d[..PACKET_SIZE].to_vec());
}

#[test]
fn wraparound_ordering() {
    assert!(precedes(65535, 0));
    assert!(!precedes(0, 65535));
    assert!(precedes(1, 2));
    assert!(!precedes(7, 7));
    assert_eq!(offset(65534, 1), 3);
    assert_eq!(offset(1, 65534), 65533);
}

#[test]
fn reorders_arbitrary_arrival() {
    let mut b = StreamBuffer::new();
    for s in [5u16, 3, 9, 4, 1, 8] {
        assert!(b.insert(packet(s, 0)));
    }
    assert_eq!(b.len(), 6);
    assert_eq!(drain_all(&mut b), vec![1, 3, 4, 5, 8, 9]);
    assert!(b.is_empty());
}

#[test]
fn reorders_across_wrap() {
    let mut b = StreamBuffer::new();
    for s in [0u16, 65535, 1, 65534] {
        assert!(b.insert(packet(s, 0)));
    }
    assert_eq!(b.first_sequence(), Some(65534));
    assert_eq!(drain_all(&mut b), vec![65534, 65535, 0, 1]);
}

#[test]
fn duplicate_sequence_keeps_later_payload() {
    let mut b = StreamBuffer::new();
    assert!(b.insert(packet(4, 0)));
    assert!(b.insert(packet(5, 1)));
    assert!(b.insert(packet(5, 2)));
    assert_eq!(b.len(), 2);
    b.pop_min();
    let p = b.pop_min().unwrap();
    assert_eq!(p.sequence, 5);
    assert_eq!(p.data, vec![2; 4]);
    assert!(b.pop_min().is_none());
}

#[test]
fn refuses_packet_outside_window() {
    let mut b = StreamBuffer::new();
    assert!(b.insert(packet(0, 0)));
    assert!(b.insert(packet(32767, 0)));
    assert!(!b.insert(packet(32768, 0)));
    assert!(!b.insert(packet(40000, 0)));
    assert_eq!(b.len(), 2);
    let mut c = StreamBuffer::new();
    assert!(c.insert(packet(100, 0)));
    assert!(c.insert(packet(60000, 0)));
    assert_eq!(drain_all(&mut c), vec![60000, 100]);
}

#[test]
fn streams_do_not_share_buffers() {
    let mut a = StreamBuffer::new();
    let mut b = StreamBuffer::new();
    assert!(a.insert(packet(1, 1)));
    assert!(b.insert(packet(1, 2)));
    assert!(a.insert(packet(2, 1)));
    assert_eq!(b.len(), 1);
    assert_eq!(b.pop_min().unwrap().data, vec![2; 4]);
    assert_eq!(drain_all(&mut a), vec![1, 2]);
}

#[test]
fn idle_stream_retires_once() {
    let cfg = DrainConfig::standard();
    let mut s = start();
    let mut actions = Vec::new();
    for _ in 0..30 {
        actions.push(on_tick(&mut s, false, &cfg));
    }
    // 26 empty ticks of 20 ms pass 500 ms.
    assert!(actions[..25].iter().all(|a| *a == TickAction::Wait));
    assert_eq!(actions[25], TickAction::Retire);
    assert!(actions[26..].iter().all(|a| *a == TickAction::Stopped));
    assert_eq!(s.phase, DrainPhase::Retired);
    assert_eq!(actions.iter().filter(|a| **a == TickAction::Retire).count(), 1);
}

#[test]
fn busy_stream_never_retires() {
    let cfg = DrainConfig::standard();
    let mut s = start();
    for round in 0..1000 {
        for _ in 0..25 {
            assert_eq!(on_tick(&mut s, false, &cfg), TickAction::Wait);
        }
        assert_eq!(s.idle_ms, 500, "round {}", round);
        assert_eq!(on_tick(&mut s, true, &cfg), TickAction::Forward);
        assert_eq!(s, DrainState { phase: DrainPhase::Active, idle_ms: 0 });
    }
}

#[test]
fn drain_tick_forwards_then_retires() {
    let cfg = DrainConfig::new(10, 25).unwrap();
    let mut b = StreamBuffer::new();
    assert!(b.insert(packet(2, 0)));
    assert!(b.insert(packet(1, 0)));
    let mut s = start();
    let (a, p) = drain_tick(&mut b, &mut s, &cfg);
    assert_eq!((a, p.unwrap().sequence), (TickAction::Forward, 1));
    let (a, p) = drain_tick(&mut b, &mut s, &cfg);
    assert_eq!((a, p.unwrap().sequence), (TickAction::Forward, 2));
    assert_eq!(drain_tick(&mut b, &mut s, &cfg).0, TickAction::Wait);
    assert_eq!(drain_tick(&mut b, &mut s, &cfg).0, TickAction::Wait);
    assert_eq!(drain_tick(&mut b, &mut s, &cfg).0, TickAction::Retire);
    assert!(b.insert(packet(3, 0)));
    let (a, p) = drain_tick(&mut b, &mut s, &cfg);
    assert_eq!(a, TickAction::Stopped);
    assert!(p.is_none());
    assert_eq!(b.len(), 1);
}

#[test]
fn config_validation() {
    assert!(DrainConfig::new(0, 500).is_none());
    assert!(DrainConfig::new(20, u64::MAX).is_none());
    assert_eq!(DrainConfig::new(20, 500), Some(DrainConfig::standard()));
}

#[test]
fn forwards_to_next_port() {
    assert_eq!(destination_port(5004), Some(5005));
    assert_eq!(destination_port(65535), None);
}

#[test]
fn percentiles_of_five_samples() {
    let v = vec![10u64, 20, 30, 40, 50];
    assert_eq!(percentile_of_sorted(&v, P50), Some(300000));
    assert_eq!(percentile_of_sorted(&v, P95), Some(480000));
    assert_eq!(percentile_of_sorted(&v, P99), Some(496000));
    assert_eq!(percentile_of_sorted(&v, 20000), Some(500000));
    assert_eq!(percentile_of_sorted(&v, 0), Some(100000));
}

#[test]
fn percentile_sorts_its_input() {
    let v = vec![50u64, 10, 40, 20, 30];
    assert_eq!(percentile(&v, P50), Some(300000));
    assert_eq!(percentile(&v, P95), Some(480000));
    assert_eq!(v, vec![50, 10, 40, 20, 30]);
}

#[test]
fn percentile_single_and_empty() {
    for p in [P50, P95, P99] {
        assert_eq!(percentile(&vec![42], p), Some(420000));
        assert_eq!(percentile(&vec![], p), None);
    }
}

#[test]
fn statistics_cycle() {
    let mut st = Statistics::new();
    assert_eq!(st.report().p50, None);
    for (l, ok) in [(30u64, true), (10, false), (50, true), (20, true), (40, true)] {
        st.record(l, ok);
    }
    let r = st.report();
    assert_eq!((r.p50, r.p95, r.p99), (Some(300000), Some(480000), Some(496000)));
    assert_eq!((r.succeeded, r.failed), (4, 1));
    st.reset();
    let r = st.report();
    assert_eq!((r.p50, r.p95, r.p99, r.succeeded, r.failed), (None, None, None, 0, 0));
}

#[test]
fn latency_never_negative() {
    assert_eq!(latency_ms(100, 130), 30);
    assert_eq!(latency_ms(130, 100), 0);
}

#[test]
fn registry_creates_each_stream_once() {
    let mut reg = StreamRegistry::new();
    let (h1, c1) = reg.get_or_create(7);
    let (h2, c2) = reg.get_or_create(7);
    let (h3, c3) = reg.get_or_create(8);
    assert!(c1 && !c2 && c3);
    assert!(!std::sync::Arc::ptr_eq(&h1, &h3));
    assert!(std::sync::Arc::ptr_eq(&h1, &h2));
    assert!(h1.try_lock().unwrap().is_empty());
    assert!(!reg.settle(7, TickAction::Wait));
    assert!(reg.settle(7, TickAction::Retire));
    assert!(!reg.settle(7, TickAction::Retire));
    let (h4, c4) = reg.get_or_create(7);
    assert!(c4);
    assert!(!std::sync::Arc::ptr_eq(&h1, &h4));
    let (h5, c5) = reg.get_or_create(8);
    assert!(!c5);
    assert!(std::sync::Arc::ptr_eq(&h3, &h5));
}

#[test]
fn registry_receive_routes_and_drops() {
    let mut reg = StreamRegistry::new();
    assert!(matches!(reg.receive(&datagram(1, 1, 3, 0), 0), Err(HeaderError::UnsupportedVersion)));
    let a = reg.receive(&datagram(2, 10, 3, 5), 40).unwrap();
    assert!(a.created);
    assert_eq!((a.stream_id, a.packet.sequence, a.packet.arrival_ms), (3, 10, 40));
    assert!(a.buffer.try_lock().unwrap().insert(a.packet));
    let b = reg.receive(&datagram(2, 9, 3, 6), 41).unwrap();
    assert!(!b.created);
    assert!(b.buffer.try_lock().unwrap().insert(b.packet));
    assert_eq!(a.buffer.try_lock().unwrap().len(), 2);
    assert!(matches!(reg.receive(&[0x80; 4], 0), Err(HeaderError::Truncated)));
}

#[test]
fn packets_before_drain_leave_across_wrap() {
    let mut reg = StreamRegistry::new();
    for s in [0u16, 1, 65534, 65535] {
        let a = reg.receive(&datagram(2, s, 11, 0), 0).unwrap();
        assert_eq!(a.created, s == 0);
        assert!(a.buffer.try_lock().unwrap().insert(a.packet));
    }
    let (h, created) = reg.get_or_create(11);
    assert!(!created);
    let mut buffer = h.try_lock().unwrap();
    assert_eq!(drain_all(&mut buffer), vec![65534, 65535, 0, 1]);
}
