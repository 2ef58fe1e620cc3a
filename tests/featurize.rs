use packet_captor::connection::{Connection, TransportProtocol};
use packet_captor::dataset::{capture_features, default_iat_bins, default_payload_bins};
use packet_captor::features::{DirectionInferenceMethod, FlowFeatures, PacketDirection, PacketFeatures};
use packet_captor::packet::{IpAddress, Packet, StrippedPacket};
use std::collections::HashSet;

const MS: u64 = 1_000_000;

fn sp(t: u64, src_port: u16, dst_port: u16, len: usize) -> StrippedPacket {
    StrippedPacket { trans_protocol: 6, payload_length: len, timestamp: t, src_port, dst_port }
}

fn pf(len: usize, iat: u64, direction: PacketDirection) -> PacketFeatures {
    PacketFeatures { payload_length: len, interarrival_time: iat, direction }
}

#[test]
fn server_port_443_direction() {
    let m = [DirectionInferenceMethod::ServerPort(443)];
    assert_eq!(DirectionInferenceMethod::infer_multiple(50000, 443, &m), PacketDirection::FromClient);
    assert_eq!(DirectionInferenceMethod::infer_multiple(443, 50000, &m), PacketDirection::ToClient);
    assert_eq!(DirectionInferenceMethod::infer_multiple(80, 8080, &m), PacketDirection::Unknown);
    assert_eq!(DirectionInferenceMethod::infer_multiple(443, 443, &m), PacketDirection::FromClient);
}

#[test]
fn later_methods_are_tried_in_order() {
    let mut ports = HashSet::new();
    ports.insert(8443);
    let m = [
        DirectionInferenceMethod::ServerPort(443),
        DirectionInferenceMethod::ServerPorts(ports),
        DirectionInferenceMethod::Ephemeral,
    ];
    assert_eq!(DirectionInferenceMethod::infer_multiple(1000, 8443, &m), PacketDirection::FromClient);
    assert_eq!(DirectionInferenceMethod::infer_multiple(8443, 1000, &m), PacketDirection::ToClient);
    assert_eq!(DirectionInferenceMethod::infer_multiple(50000, 22, &m), PacketDirection::FromClient);
    assert_eq!(DirectionInferenceMethod::infer_multiple(22, 40000, &m), PacketDirection::ToClient);
    assert_eq!(DirectionInferenceMethod::infer_multiple(22, 25, &m), PacketDirection::Unknown);
    assert_eq!(DirectionInferenceMethod::infer_multiple(22, 25, &[]), PacketDirection::Unknown);
}

#[test]
fn ephemeral_checks_iana_range_before_linux_range() {
    let e = DirectionInferenceMethod::Ephemeral;
    assert_eq!(e.infer(40000, 50000), Some(PacketDirection::ToClient));
    assert_eq!(e.infer(50000, 40000), Some(PacketDirection::FromClient));
    assert_eq!(e.infer(32768, 80), Some(PacketDirection::FromClient));
    assert_eq!(e.infer(80, 61000), Some(PacketDirection::ToClient));
    assert_eq!(e.infer(80, 61001), Some(PacketDirection::ToClient));
    assert_eq!(e.infer(80, 1024), None);
    assert_eq!(e.infer(80, 32767), None);
    let twice = [DirectionInferenceMethod::Ephemeral, DirectionInferenceMethod::Ephemeral];
    assert_eq!(DirectionInferenceMethod::infer_multiple(80, 443, &twice), PacketDirection::Unknown);
    assert_eq!(DirectionInferenceMethod::infer_multiple(65535, 443, &twice), PacketDirection::FromClient);
}

#[test]
fn interarrival_times_per_direction() {
    let packets = vec![
        sp(100, 50000, 443, 1),
        sp(150, 443, 50000, 2),
        sp(170, 50000, 443, 3),
        sp(175, 80, 81, 4),
        sp(400, 443, 50000, 5),
    ];
    let f = PacketFeatures::from_stripped_packets(packets, &[DirectionInferenceMethod::ServerPort(443)]);
    assert_eq!(
        f,
        vec![
            pf(1, 0, PacketDirection::FromClient),
            pf(2, 0, PacketDirection::ToClient),
            pf(3, 70, PacketDirection::FromClient),
            pf(4, 0, PacketDirection::Unknown),
            pf(5, 250, PacketDirection::ToClient),
        ]
    );
}

#[test]
fn value_equal_to_edge_falls_in_next_bin() {
    let features = [pf(10, 5, PacketDirection::FromClient), pf(20, 10, PacketDirection::ToClient)];
    let f = FlowFeatures::generate(&features, &[10, 20, 30], &[5, 10], &[5, 10, 15]);
    assert_eq!(f.payload_length_freq_bins, vec![0, 1, 1]);
    assert_eq!(f.interarrival_freq_from_client_bins, vec![0, 1]);
    assert_eq!(f.interarrival_freq_to_client_bins, vec![0, 0, 1]);
}

#[test]
fn values_beyond_last_edge_are_not_counted() {
    let features = [pf(100, 100, PacketDirection::FromClient), pf(5, 1, PacketDirection::Unknown)];
    let f = FlowFeatures::generate(&features, &[10, 20], &[50], &[50]);
    assert_eq!(f.payload_length_freq_bins, vec![1, 0]);
    assert_eq!(f.interarrival_freq_from_client_bins, vec![0]);
    assert_eq!(f.interarrival_freq_to_client_bins, vec![0]);
}

#[test]
fn empty_plus_features_is_features() {
    let features = [pf(15, 3, PacketDirection::FromClient), pf(25, 7, PacketDirection::ToClient)];
    let x = FlowFeatures::generate(&features, &[10, 20, 30], &[5, 10], &[5, 10]);
    let sum = FlowFeatures::empty(3, 2, 2).add(x);
    assert_eq!(sum.payload_length_freq_bins, vec![0, 1, 1]);
    assert_eq!(sum.interarrival_freq_from_client_bins, vec![1, 0]);
    assert_eq!(sum.interarrival_freq_to_client_bins, vec![0, 1]);
}

#[test]
fn add_sums_bins_and_saturates() {
    let a = FlowFeatures {
        payload_length_freq_bins: vec![1, usize::MAX],
        interarrival_freq_from_client_bins: vec![2],
        interarrival_freq_to_client_bins: vec![],
    };
    let b = FlowFeatures {
        payload_length_freq_bins: vec![3, 1],
        interarrival_freq_from_client_bins: vec![5],
        interarrival_freq_to_client_bins: vec![],
    };
    let s = a.add(b);
    assert_eq!(s.payload_length_freq_bins, vec![4, usize::MAX]);
    assert_eq!(s.interarrival_freq_from_client_bins, vec![7]);
    assert!(s.interarrival_freq_to_client_bins.is_empty());
}

#[test]
fn default_bins() {
    let pl = default_payload_bins();
    assert_eq!(pl.len(), 29);
    assert_eq!(&pl[..3], &[10, 20, 30]);
    assert_eq!(pl[9], 100);
    assert_eq!(pl[10], 200);
    assert_eq!(pl[18], 1000);
    assert_eq!(pl[19], 2000);
    assert_eq!(pl[27], 10000);
    assert_eq!(pl[28], 65536);
    let iat = default_iat_bins();
    assert_eq!(iat.len(), 29);
    assert_eq!(iat[0], MS);
    assert_eq!(iat[9], 10 * MS);
    assert_eq!(iat[10], 20 * MS);
    assert_eq!(iat[18], 100 * MS);
    assert_eq!(iat[19], 200 * MS);
    assert_eq!(iat[27], 1000 * MS);
    assert_eq!(iat[28], 10_000 * MS);
}

fn https_connection(uid: &str, start: u64, duration: u64) -> Connection {
    Connection {
        timestamp: start,
        uid: uid.to_string(),
        orig_ip: IpAddress::V4(1),
        resp_ip: IpAddress::V4(2),
        orig_port: 50000,
        resp_port: 443,
        trans_protocol: TransportProtocol::Tcp,
        service: Some("ssl".to_string()),
        duration,
        orig_bytes: None,
        resp_bytes: None,
        conn_state: None,
        missed_bytes: None,
        history: "ShADad".to_string(),
        orig_pkts: None,
        orig_ip_bytes: None,
        resp_pkts: None,
        resp_ip_bytes: None,
    }
}

fn client_packet(t: u64, len: usize) -> Packet {
    Packet {
        src_ip: IpAddress::V4(1),
        dst_ip: IpAddress::V4(2),
        trans_protocol: 6,
        src_port: 50000,
        dst_port: 443,
        payload_length: len,
        timestamp: t,
    }
}

#[test]
fn capture_without_https_packets_is_all_zero() {
    let f = capture_features(vec![https_connection("C1", 0, 1_000_000)], vec![]);
    assert_eq!(f.payload_length_freq_bins, vec![0; 29]);
    assert_eq!(f.interarrival_freq_from_client_bins, vec![0; 29]);
    assert_eq!(f.interarrival_freq_to_client_bins, vec![0; 29]);
}

#[test]
fn capture_with_three_client_packets() {
    let start = 1_600_000_000 * 1_000_000_000;
    let conns = vec![https_connection("C1", start, 20 * MS)];
    let packets = vec![
        client_packet(start, 50),
        client_packet(start + 5 * MS, 150),
        client_packet(start + 15 * MS, 2500),
    ];
    let f = capture_features(conns, packets);
    let mut pl = vec![0; 29];
    // 50 < 60, 150 < 200, 2500 < 3000
    pl[5] = 1;
    pl[10] = 1;
    pl[20] = 1;
    assert_eq!(f.payload_length_freq_bins, pl);
    let mut iaf = vec![0; 29];
    // 0 (first packet) < 1 ms, 5 ms < 6 ms, 10 ms < 20 ms
    iaf[0] = 1;
    iaf[5] = 1;
    iaf[10] = 1;
    assert_eq!(f.interarrival_freq_from_client_bins, iaf);
    assert_eq!(f.interarrival_freq_to_client_bins, vec![0; 29]);
}

#[test]
fn capture_ignores_non_https_traffic_and_sums_flows() {
    let mut other = https_connection("C2", 0, 10 * MS);
    other.resp_port = 80;
    let conns = vec![https_connection("C1", 0, 10 * MS), other, {
        let mut c = https_connection("C3", 0, 10 * MS);
        c.orig_port = 50001;
        c
    }];
    let mut plain = client_packet(MS, 5);
    plain.dst_port = 80;
    let mut second_flow = client_packet(2 * MS, 15);
    second_flow.src_port = 50001;
    let packets = vec![client_packet(MS, 5), plain, second_flow];
    let f = capture_features(conns, packets);
    assert_eq!(f.payload_length_freq_bins[0], 1);
    assert_eq!(f.payload_length_freq_bins[1], 1);
    assert_eq!(f.payload_length_freq_bins.iter().sum::<usize>(), 2);
    assert_eq!(f.interarrival_freq_from_client_bins[0], 2);
}
