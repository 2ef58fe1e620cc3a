use packet_captor::entropy::byte_frequencies;
use packet_captor::packet::{IpAddress, Packet, ParsePacketError};
use packet_captor::pcap::{PcapRecord, PcapRecordHeader};

fn ethernet(ethertype: u16, payload: &[u8]) -> Vec<u8> {
    let mut f = vec![0xaa; 12];
    f.extend_from_slice(&ethertype.to_be_bytes());
    f.extend_from_slice(payload);
    f
}

fn ipv4(protocol: u8, src: [u8; 4], dst: [u8; 4], payload: &[u8]) -> Vec<u8> {
    let mut p = vec![0x45, 0];
    p.extend_from_slice(&((20 + payload.len()) as u16).to_be_bytes());
    p.extend_from_slice(&[0, 0, 0, 0, 64, protocol, 0, 0]);
    p.extend_from_slice(&src);
    p.extend_from_slice(&dst);
    p.extend_from_slice(payload);
    p
}

fn ipv6(next_header: u8, src: u128, dst: u128, payload: &[u8]) -> Vec<u8> {
    let mut p = vec![0x60, 0, 0, 0];
    p.extend_from_slice(&(payload.len() as u16).to_be_bytes());
    p.extend_from_slice(&[next_header, 64]);
    p.extend_from_slice(&src.to_be_bytes());
    p.extend_from_slice(&dst.to_be_bytes());
    p.extend_from_slice(payload);
    p
}

fn tcp(src: u16, dst: u16, payload: &[u8]) -> Vec<u8> {
    let mut s = Vec::new();
    s.extend_from_slice(&src.to_be_bytes());
    s.extend_from_slice(&dst.to_be_bytes());
    s.extend_from_slice(&[0; 8]);
    s.extend_from_slice(&[0x50, 0x18, 0xff, 0xff, 0, 0, 0, 0]);
    s.extend_from_slice(payload);
    s
}

fn udp(src: u16, dst: u16, payload: &[u8]) -> Vec<u8> {
    let mut s = Vec::new();
    s.extend_from_slice(&src.to_be_bytes());
    s.extend_from_slice(&dst.to_be_bytes());
    s.extend_from_slice(&((8 + payload.len()) as u16).to_be_bytes());
    s.extend_from_slice(&[0, 0]);
    s.extend_from_slice(payload);
    s
}

fn record(data: Vec<u8>) -> PcapRecord {
    PcapRecord {
        header: PcapRecordHeader {
            ts_sec: 10,
            ts_usec: 20,
            incl_len: data.len() as u32,
            orig_len: data.len() as u32,
        },
        data,
    }
}

#[test]
fn decodes_ipv4_tcp() {
    let frame = ethernet(0x0800, &ipv4(6, [10, 0, 0, 1], [192, 168, 1, 2], &tcp(50000, 443, b"hello")));
    let p = Packet::from_record(record(frame), false).unwrap();
    assert_eq!(p.src_ip, IpAddress::V4(0x0a000001));
    assert_eq!(p.dst_ip, IpAddress::V4(0xc0a80102));
    assert_eq!(p.trans_protocol, 6);
    assert_eq!(p.src_port, 50000);
    assert_eq!(p.dst_port, 443);
    assert_eq!(p.payload_length, 5);
    assert_eq!(p.timestamp, 10_000_020_000);
}

#[test]
fn ipv4_payload_stops_at_total_length() {
    let mut datagram = ipv4(17, [1, 2, 3, 4], [5, 6, 7, 8], &udp(53, 40000, b"abc"));
    // trailing Ethernet padding after the datagram
    datagram.extend_from_slice(&[0; 6]);
    let p = Packet::from_record(record(ethernet(0x0800, &datagram)), true).unwrap();
    assert_eq!(p.trans_protocol, 17);
    assert_eq!(p.src_port, 53);
    assert_eq!(p.dst_port, 40000);
    assert_eq!(p.payload_length, 3);
    assert_eq!(p.timestamp, 10_000_000_020);
}

#[test]
fn decodes_ipv6_udp() {
    let frame = ethernet(0x86DD, &ipv6(17, 1, u128::MAX, &udp(443, 1234, &[7; 100])));
    let p = Packet::from_record(record(frame), false).unwrap();
    assert_eq!(p.src_ip, IpAddress::V6(1));
    assert_eq!(p.dst_ip, IpAddress::V6(u128::MAX));
    assert_eq!(p.src_port, 443);
    assert_eq!(p.payload_length, 100);
}

#[test]
fn tcp_options_are_not_payload() {
    let mut seg = tcp(1000, 443, &[]);
    seg[12] = 0x60;
    seg.extend_from_slice(&[1, 1, 1, 1]);
    seg.extend_from_slice(b"xy");
    let frame = ethernet(0x0800, &ipv4(6, [1, 1, 1, 1], [2, 2, 2, 2], &seg));
    let p = Packet::from_record(record(frame), false).unwrap();
    assert_eq!(p.payload_length, 2);
}

#[test]
fn short_frame_is_invalid_ethernet() {
    let r = Packet::from_record(record(vec![0; 13]), false);
    assert_eq!(r.err(), Some(ParsePacketError::InvalidEthernetHeader));
}

#[test]
fn unknown_ethertype_is_invalid_internet_layer() {
    let r = Packet::from_record(record(ethernet(0x0806, &[0; 28])), false);
    assert_eq!(r.err(), Some(ParsePacketError::InvalidInternetLayer));
}

#[test]
fn short_ipv4_is_invalid() {
    let r = Packet::from_record(record(ethernet(0x0800, &[0x45; 19])), false);
    assert_eq!(r.err(), Some(ParsePacketError::InvalidIpv4Header));
}

#[test]
fn short_ipv6_is_invalid() {
    let r = Packet::from_record(record(ethernet(0x86DD, &[0x60; 39])), false);
    assert_eq!(r.err(), Some(ParsePacketError::InvalidIpv6Header));
}

#[test]
fn short_tcp_is_invalid() {
    let frame = ethernet(0x0800, &ipv4(6, [1, 1, 1, 1], [2, 2, 2, 2], &[0; 19]));
    assert_eq!(
        Packet::from_record(record(frame), false).err(),
        Some(ParsePacketError::InvalidTcpHeader)
    );
}

#[test]
fn short_udp_is_invalid() {
    let frame = ethernet(0x0800, &ipv4(17, [1, 1, 1, 1], [2, 2, 2, 2], &[0; 7]));
    assert_eq!(
        Packet::from_record(record(frame), false).err(),
        Some(ParsePacketError::InvalidUdpHeader)
    );
}

#[test]
fn icmp_is_unsupported_transport() {
    let frame = ethernet(0x0800, &ipv4(1, [1, 1, 1, 1], [2, 2, 2, 2], &[8, 0, 0, 0, 0, 0, 0, 0]));
    assert_eq!(
        Packet::from_record(record(frame), false).err(),
        Some(ParsePacketError::InvalidTransportProtocol)
    );
}

#[test]
fn strip_keeps_ports_length_and_time() {
    let frame = ethernet(0x0800, &ipv4(6, [10, 0, 0, 1], [10, 0, 0, 2], &tcp(443, 50000, b"abcd")));
    let p = Packet::from_record(record(frame), false).unwrap();
    let s = p.strip();
    assert_eq!(s.trans_protocol, 6);
    assert_eq!(s.src_port, 443);
    assert_eq!(s.dst_port, 50000);
    assert_eq!(s.payload_length, 4);
    assert_eq!(s.timestamp, p.timestamp);
}

#[test]
fn byte_frequencies_count_each_value() {
    let f = byte_frequencies(&[]);
    assert_eq!(f.len(), 256);
    assert!(f.iter().all(|c| *c == 0));
    let f = byte_frequencies(&[7]);
    assert_eq!(f[7], 1);
    assert_eq!(f.iter().sum::<usize>(), 1);
    let data: Vec<u8> = (0..128).collect();
    let f = byte_frequencies(&data);
    assert!(f[..128].iter().all(|c| *c == 1));
    assert!(f[128..].iter().all(|c| *c == 0));
    let f = byte_frequencies(&[1, 1, 1, 1, 255]);
    assert_eq!(f[1], 4);
    assert_eq!(f[255], 1);
}
