use packet_captor::connection::{Connection, TransportProtocol};
use packet_captor::flow_aggregator::{
    select_period_index, FlowAggregator, FlowBucket, FlowPeriod, PacketKey,
};
use packet_captor::packet::{IpAddress, Packet};

const CLIENT: IpAddress = IpAddress::V4(0x0a000001);
const SERVER: IpAddress = IpAddress::V4(0x5db8d822);
const SEC: u64 = 1_000_000_000;
const MS: u64 = 1_000_000;

fn connection(uid: &str, start: u64, duration: u64, client_port: u16) -> Connection {
    Connection {
        timestamp: start,
        uid: uid.to_string(),
        orig_ip: CLIENT,
        resp_ip: SERVER,
        orig_port: client_port,
        resp_port: 443,
        trans_protocol: TransportProtocol::Tcp,
        service: None,
        duration,
        orig_bytes: None,
        resp_bytes: None,
        conn_state: None,
        missed_bytes: None,
        history: String::new(),
        orig_pkts: None,
        orig_ip_bytes: None,
        resp_pkts: None,
        resp_ip_bytes: None,
    }
}

fn packet(t: u64, from_client: bool, client_port: u16, len: usize) -> Packet {
    let (src_ip, dst_ip, src_port, dst_port) = if from_client {
        (CLIENT, SERVER, client_port, 443)
    } else {
        (SERVER, CLIENT, 443, client_port)
    };
    Packet { src_ip, dst_ip, trans_protocol: 6, src_port, dst_port, payload_length: len, timestamp: t }
}

fn bucket<'a>(flows: &'a [FlowBucket], id: &str) -> Option<&'a FlowBucket> {
    flows.iter().find(|b| b.id == id)
}

fn period(start: u64, end: u64, id: &str) -> FlowPeriod {
    FlowPeriod { start, end, id: id.to_string() }
}

#[test]
fn packet_in_single_window_goes_to_its_flow() {
    let conns = vec![connection("A", 10 * SEC, 2 * SEC, 50000), connection("B", 20 * SEC, 2 * SEC, 50000)];
    let mut agg = FlowAggregator::new(conns, SEC, 5 * SEC);
    agg.load_packets(vec![packet(21 * SEC, true, 50000, 10)]);
    let flows = agg.into_aggregated_flows();
    assert_eq!(flows.len(), 1);
    assert_eq!(flows[0].id, "B");
    assert_eq!(flows[0].packets.len(), 1);
}

#[test]
fn reply_packets_share_the_flow() {
    let conns = vec![connection("A", 10 * SEC, 2 * SEC, 50000)];
    let mut agg = FlowAggregator::new(conns, SEC, 5 * SEC);
    agg.load_packets(vec![packet(11 * SEC, true, 50000, 10), packet(11 * SEC + 1, false, 50000, 20)]);
    let flows = agg.into_aggregated_flows();
    assert_eq!(flows.len(), 1);
    assert_eq!(flows[0].packets.len(), 2);
}

#[test]
fn grace_period_tie_late_binds_earlier_early_binds_later() {
    // A ends at 10 s, B starts at 12 s; one second of grace on each side.
    let conns = vec![connection("A", 5 * SEC, 5 * SEC, 50000), connection("B", 12 * SEC, 3 * SEC, 50000)];
    let mut agg = FlowAggregator::new(conns, SEC, SEC);
    agg.load_packets(vec![packet(10 * SEC + MS, true, 50000, 1), packet(12 * SEC - MS, true, 50000, 2)]);
    let flows = agg.into_aggregated_flows();
    let a = bucket(&flows, "A").expect("flow A");
    let b = bucket(&flows, "B").expect("flow B");
    assert_eq!(a.packets.len(), 1);
    assert_eq!(a.packets[0].payload_length, 1);
    assert_eq!(b.packets.len(), 1);
    assert_eq!(b.packets[0].payload_length, 2);
}

#[test]
fn overlapping_grace_prefers_the_period_already_ended() {
    // With five seconds of grace after A, the packet just before B is also
    // late for A; After candidates precede Before ones.
    let conns = vec![connection("A", 5 * SEC, 5 * SEC, 50000), connection("B", 12 * SEC, 3 * SEC, 50000)];
    let mut agg = FlowAggregator::new(conns, SEC, 5 * SEC);
    let late = packet(10 * SEC + MS, true, 50000, 1);
    let early = packet(12 * SEC - MS, true, 50000, 2);
    agg.load_packets(vec![late, early]);
    let flows = agg.into_aggregated_flows();
    let a = bucket(&flows, "A").expect("flow A");
    assert_eq!(a.packets.len(), 2);
    assert!(a.packets.iter().any(|p| p.payload_length == 1));
    assert!(a.packets.iter().any(|p| p.payload_length == 2));
    assert!(bucket(&flows, "B").is_none());
}

#[test]
fn early_packet_binds_later_period_when_no_earlier_period_is_near() {
    let conns = vec![connection("A", 5 * SEC, 5 * SEC, 50000), connection("B", 30 * SEC, 3 * SEC, 50000)];
    let mut agg = FlowAggregator::new(conns, SEC, 5 * SEC);
    agg.load_packets(vec![packet(10 * SEC + MS, true, 50000, 1), packet(30 * SEC - MS, true, 50000, 2)]);
    let flows = agg.into_aggregated_flows();
    assert_eq!(bucket(&flows, "A").unwrap().packets[0].payload_length, 1);
    assert_eq!(bucket(&flows, "B").unwrap().packets[0].payload_length, 2);
}

#[test]
fn after_candidate_beats_closer_before_candidate() {
    let periods = vec![period(100, 200, "before"), period(0, 50, "after")];
    // t = 99: 1 ns before "before" starts (Before(gb - 1)); 49 ns after "after" ends.
    assert_eq!(select_period_index(&periods, 99, 10, 100), Some(1));
}

#[test]
fn after_candidates_rank_by_smaller_remaining_grace() {
    // (end + grace_after) - t is 85 for the first period and 95 for the second.
    let periods = vec![period(0, 10, "a"), period(0, 20, "b")];
    assert_eq!(select_period_index(&periods, 25, 0, 100), Some(0));
    let periods = vec![period(0, 20, "b"), period(0, 10, "a")];
    assert_eq!(select_period_index(&periods, 25, 0, 100), Some(1));
}

#[test]
fn before_candidates_rank_by_smaller_difference() {
    // t + grace_before - start is 85 for the first period and 95 for the second.
    let periods = vec![period(40, 50, "a"), period(30, 50, "b")];
    assert_eq!(select_period_index(&periods, 25, 100, 0), Some(0));
}

#[test]
fn equal_candidates_keep_the_first() {
    let periods = vec![period(0, 10, "a"), period(0, 10, "b")];
    assert_eq!(select_period_index(&periods, 12, 0, 5), Some(0));
}

#[test]
fn exact_match_beats_candidates_and_first_exact_wins() {
    let periods = vec![period(0, 9, "after"), period(10, 20, "one"), period(15, 30, "two")];
    assert_eq!(select_period_index(&periods, 16, 100, 100), Some(1));
    assert_eq!(select_period_index(&periods, 10, 100, 100), Some(1));
    assert_eq!(select_period_index(&periods, 20, 100, 100), Some(1));
}

#[test]
fn grace_bounds_are_strict() {
    let periods = vec![period(100, 200, "p")];
    assert_eq!(select_period_index(&periods, 205, 5, 5), None);
    assert_eq!(select_period_index(&periods, 204, 5, 5), Some(0));
    assert_eq!(select_period_index(&periods, 95, 5, 5), None);
    assert_eq!(select_period_index(&periods, 96, 5, 5), Some(0));
    assert_eq!(select_period_index(&[].to_vec(), 96, 5, 5), None);
}

#[test]
fn unmatched_packets_are_dropped() {
    let conns = vec![connection("A", 10 * SEC, 2 * SEC, 50000)];
    let mut agg = FlowAggregator::new(conns, SEC, 5 * SEC);
    agg.load_packets(vec![
        packet(11 * SEC, true, 50001, 10),
        packet(100 * SEC, true, 50000, 10),
        packet(8 * SEC, true, 50000, 10),
    ]);
    assert!(agg.into_aggregated_flows().is_empty());
}

#[test]
fn buckets_are_sorted_by_timestamp() {
    let conns = vec![connection("A", 10 * SEC, 10 * SEC, 50000), connection("B", 10 * SEC, 10 * SEC, 50002)];
    let mut agg = FlowAggregator::new(conns, SEC, 5 * SEC);
    agg.load_packets(vec![
        packet(15 * SEC, true, 50000, 1),
        packet(12 * SEC, false, 50000, 2),
        packet(19 * SEC, true, 50002, 3),
        packet(13 * SEC, true, 50000, 4),
        packet(11 * SEC, true, 50002, 5),
        packet(13 * SEC, false, 50000, 6),
    ]);
    let flows = agg.into_aggregated_flows();
    assert_eq!(flows.len(), 2);
    for f in &flows {
        assert!(f.packets.windows(2).all(|w| w[0].timestamp <= w[1].timestamp));
    }
    assert_eq!(bucket(&flows, "A").unwrap().packets.len(), 4);
    assert_eq!(bucket(&flows, "B").unwrap().packets.len(), 2);
}

#[test]
fn connection_end_saturates() {
    let c = connection("A", u64::MAX - 5, 10, 50000);
    let p = FlowPeriod::of_connection(&c);
    assert_eq!(p.start, u64::MAX - 5);
    assert_eq!(p.end, u64::MAX);
    assert_eq!(p.id, "A");
}

#[test]
fn key_is_direction_agnostic() {
    let a = IpAddress::V4(1);
    let b = IpAddress::V6(2);
    assert_eq!(PacketKey::new(a, b, 6, 443, 50000), PacketKey::new(b, a, 6, 50000, 443));
    let k = PacketKey::new(a, b, 17, 9000, 53);
    assert_eq!(k.ip_a, b);
    assert_eq!(k.port_a, 53);
    assert_eq!(k.ip_b, a);
    assert_eq!(k.port_b, 9000);
    let tie = PacketKey::new(a, b, 6, 80, 80);
    assert_eq!(tie.ip_a, a);
    assert_eq!(tie.ip_b, b);
    let c = connection("A", 0, 0, 50000);
    let p = packet(0, false, 50000, 0);
    assert_eq!(PacketKey::of_connection(&c), PacketKey::of_packet(&p));
}

#[test]
fn transport_codes() {
    assert_eq!(TransportProtocol::Tcp.code(), 6);
    assert_eq!(TransportProtocol::Udp.code(), 17);
    assert_eq!(TransportProtocol::Icmp.code(), 1);
    assert_eq!(TransportProtocol::Unknown.code(), 0);
}
