use crate::pcap::{time_as_nanos, PcapRecord};
use pnet_packet::ethernet::EthernetPacket;
use pnet_packet::ipv4::Ipv4Packet;
use pnet_packet::ipv6::Ipv6Packet;
use pnet_packet::tcp::TcpPacket;
use pnet_packet::udp::UdpPacket;
use pnet_packet::Packet as PnetPacket;
use vstd::prelude::*;

verus! {

/// An IP address: IPv4 or IPv6, held as its big-endian integer value.
#[derive(Clone, Copy, Debug, PartialEq, Eq, Structural, Hash)]
pub enum IpAddress {
    V4(u32),
    V6(u128),
}

/// Basic features extracted from a capture record.
#[derive(Clone, Copy, Debug, PartialEq, Eq, Structural)]
pub struct Packet {
    /// Source IP address
    pub src_ip: IpAddress,
    /// Destination IP address
    pub dst_ip: IpAddress,
    /// Transport protocol (IANA next-header code)
    pub trans_protocol: u8,
    /// Source port
    pub src_port: u16,
    /// Destination port
    pub dst_port: u16,
    /// Length of the application layer payload
    pub payload_length: usize,
    /// Timestamp for the packet's occurrence, in nanoseconds
    pub timestamp: u64,
}

#[derive(Clone, Copy, Debug, PartialEq, Eq, Structural)]
pub enum ParsePacketError {
    InvalidEthernetHeader,
    InvalidIpv4Header,
    InvalidIpv6Header,
    InvalidInternetLayer,
    InvalidTcpHeader,
    InvalidUdpHeader,
    InvalidTransportProtocol,
}

/// A packet stripped of identifying features, leaving only those useful for
/// feature generation.
#[derive(Clone, Copy, Debug, PartialEq, Eq, Structural)]
pub struct StrippedPacket {
    /// Transport protocol
    pub trans_protocol: u8,
    /// Length of the application layer payload
    pub payload_length: usize,
    /// Timestamp for the packet's occurrence
    pub timestamp: u64,
    /// Source port
    pub src_port: u16,
    /// Destination port
    pub dst_port: u16,
}

pub const ETHERTYPE_IPV4: u16 = 0x0800;

pub const ETHERTYPE_IPV6: u16 = 0x86DD;

pub const PROTOCOL_TCP: u8 = 6;

pub const PROTOCOL_UDP: u8 = 17;

/// The unsigned integer whose big-endian bytes are `b`.
pub open spec fn be_value(b: Seq<u8>) -> nat
    decreases b.len(),
{
    if b.len() == 0 {
        0
    } else {
        be_value(b.drop_last()) * 256 + b.last() as nat
    }
}

/// The big-endian 16-bit field at offset `i`.
pub open spec fn be16(b: Seq<u8>, i: int) -> nat {
    be_value(b.subrange(i, i + 2))
}

pub open spec fn min(a: int, b: int) -> int {
    if a <= b {
        a
    } else {
        b
    }
}

/// `b[start..end]`, or empty when `b` ends at or before `start`.
pub open spec fn payload_slice(b: Seq<u8>, start: int, end: int) -> Seq<u8> {
    if b.len() <= start {
        Seq::empty()
    } else {
        b.subrange(start, min(end, b.len() as int))
    }
}

/// Payload of an IPv4 datagram: after the header (at least 20 bytes), for
/// `total_length` less the header length, cut at the end of the buffer.
pub open spec fn ipv4_payload(b: Seq<u8>) -> Seq<u8> {
    let header_len = (b[0] % 16) as int * 4;
    let start = if header_len > 20 {
        header_len
    } else {
        20
    };
    let total = be16(b, 2) as int;
    let len = if total > header_len {
        total - header_len
    } else {
        0
    };
    payload_slice(b, start, start + len)
}

/// Payload of an IPv6 datagram: the `payload_length` bytes after the 40-byte header.
pub open spec fn ipv6_payload(b: Seq<u8>) -> Seq<u8> {
    payload_slice(b, 40, 40 + be16(b, 4) as int)
}

/// Payload of a TCP segment: everything after the header given by the data offset.
pub open spec fn tcp_payload(b: Seq<u8>) -> Seq<u8> {
    let offset = (b[12] / 16) as int;
    let start = if offset > 5 {
        offset * 4
    } else {
        20
    };
    payload_slice(b, start, b.len() as int)
}

/// The internet layer of an Ethernet frame: addresses, protocol code, payload.
pub open spec fn internet_layer(frame: Seq<u8>) -> Result<
    (IpAddress, IpAddress, u8, Seq<u8>),
    ParsePacketError,
> {
    if frame.len() < 14 {
        Err(ParsePacketError::InvalidEthernetHeader)
    } else {
        let ethertype = be16(frame, 12);
        let p = frame.subrange(14, frame.len() as int);
        if ethertype == ETHERTYPE_IPV4 as nat {
            if p.len() < 20 {
                Err(ParsePacketError::InvalidIpv4Header)
            } else {
                Ok(
                    (
                        IpAddress::V4(be_value(p.subrange(12, 16)) as u32),
                        IpAddress::V4(be_value(p.subrange(16, 20)) as u32),
                        p[9],
                        ipv4_payload(p),
                    ),
                )
            }
        } else if ethertype == ETHERTYPE_IPV6 as nat {
            if p.len() < 40 {
                Err(ParsePacketError::InvalidIpv6Header)
            } else {
                Ok(
                    (
                        IpAddress::V6(be_value(p.subrange(8, 24)) as u128),
                        IpAddress::V6(be_value(p.subrange(24, 40)) as u128),
                        p[6],
                        ipv6_payload(p),
                    ),
                )
            }
        } else {
            Err(ParsePacketError::InvalidInternetLayer)
        }
    }
}

/// The transport layer of an IP payload: ports and application payload.
pub open spec fn transport_layer(protocol: u8, p: Seq<u8>) -> Result<
    (u16, u16, Seq<u8>),
    ParsePacketError,
> {
    if protocol == PROTOCOL_TCP {
        if p.len() < 20 {
            Err(ParsePacketError::InvalidTcpHeader)
        } else {
            Ok((be16(p, 0) as u16, be16(p, 2) as u16, tcp_payload(p)))
        }
    } else if protocol == PROTOCOL_UDP {
        if p.len() < 8 {
            Err(ParsePacketError::InvalidUdpHeader)
        } else {
            Ok((be16(p, 0) as u16, be16(p, 2) as u16, p.subrange(8, p.len() as int)))
        }
    } else {
        Err(ParsePacketError::InvalidTransportProtocol)
    }
}

/// The packet that an Ethernet frame holds, stamped with `timestamp`.
pub open spec fn packet_of_frame(frame: Seq<u8>, timestamp: u64) -> Result<Packet, ParsePacketError> {
    match internet_layer(frame) {
        Err(e) => Err(e),
        Ok((src_ip, dst_ip, protocol, ip_payload)) => match transport_layer(protocol, ip_payload) {
            Err(e) => Err(e),
            Ok((src_port, dst_port, app)) => Ok(
                Packet {
                    src_ip,
                    dst_ip,
                    trans_protocol: protocol,
                    src_port,
                    dst_port,
                    payload_length: app.len() as usize,
                    timestamp,
                },
            ),
        },
    }
}

pub open spec fn strip_spec(p: Packet) -> StrippedPacket {
    StrippedPacket {
        trans_protocol: p.trans_protocol,
        payload_length: p.payload_length,
        timestamp: p.timestamp,
        src_port: p.src_port,
        dst_port: p.dst_port,
    }
}

pub(crate) struct EthernetFrame {
    pub(crate) ethertype: u16,
    pub(crate) payload: Vec<u8>,
}

pub(crate) struct IpDatagram {
    pub(crate) src: IpAddress,
    pub(crate) dst: IpAddress,
    pub(crate) protocol: u8,
    pub(crate) payload: Vec<u8>,
}

pub(crate) struct Segment {
    pub(crate) src_port: u16,
    pub(crate) dst_port: u16,
    pub(crate) payload: Vec<u8>,
}

/// Relies on pnet_packet's `EthernetPacket::owned` (None below 14 bytes), its
/// `get_ethertype` (big-endian bytes 12..14) and `payload` (bytes from 14 on).
#[verifier::external_body]
fn decode_ethernet(frame: Vec<u8>) -> (r: Option<EthernetFrame>)
    ensures
        r.is_some() == (frame@.len() >= 14),
        r matches Some(f) ==> f.ethertype == be16(frame@, 12) && f.payload@ == frame@.subrange(
            14,
            frame@.len() as int,
        ),
{
    match EthernetPacket::owned(frame) {
        Some(p) => Some(EthernetFrame { ethertype: p.get_ethertype().0, payload: p.payload().to_vec() }),
        None => None,
    }
}

/// Relies on pnet_packet's `Ipv4Packet::owned` (None below 20 bytes), its
/// address and protocol getters, and `payload`, bounded by `ipv4_payload_length`.
#[verifier::external_body]
fn decode_ipv4(data: Vec<u8>) -> (r: Option<IpDatagram>)
    ensures
        r.is_some() == (data@.len() >= 20),
        r matches Some(d) ==> {
            &&& d.src == IpAddress::V4(be_value(data@.subrange(12, 16)) as u32)
            &&& d.dst == IpAddress::V4(be_value(data@.subrange(16, 20)) as u32)
            &&& d.protocol == data@[9]
            &&& d.payload@ == ipv4_payload(data@)
        },
{
    match Ipv4Packet::owned(data) {
        Some(p) => Some(IpDatagram {
            src: IpAddress::V4(u32::from(p.get_source())),
            dst: IpAddress::V4(u32::from(p.get_destination())),
            protocol: p.get_next_level_protocol().0,
            payload: p.payload().to_vec(),
        }),
        None => None,
    }
}

/// Relies on pnet_packet's `Ipv6Packet::owned` (None below 40 bytes), its
/// address and next-header getters, and `payload`, bounded by `payload_length`.
#[verifier::external_body]
fn decode_ipv6(data: Vec<u8>) -> (r: Option<IpDatagram>)
    ensures
        r.is_some() == (data@.len() >= 40),
        r matches Some(d) ==> {
            &&& d.src == IpAddress::V6(be_value(data@.subrange(8, 24)) as u128)
            &&& d.dst == IpAddress::V6(be_value(data@.subrange(24, 40)) as u128)
            &&& d.protocol == data@[6]
            &&& d.payload@ == ipv6_payload(data@)
        },
{
    match Ipv6Packet::owned(data) {
        Some(p) => Some(IpDatagram {
            src: IpAddress::V6(u128::from(p.get_source())),
            dst: IpAddress::V6(u128::from(p.get_destination())),
            protocol: p.get_next_header().0,
            payload: p.payload().to_vec(),
        }),
        None => None,
    }
}

/// Relies on pnet_packet's `TcpPacket::owned` (None below 20 bytes), its port
/// getters, and `payload`, which starts after the data offset.
#[verifier::external_body]
fn decode_tcp(data: Vec<u8>) -> (r: Option<Segment>)
    ensures
        r.is_some() == (data@.len() >= 20),
        r matches Some(s) ==> {
            &&& s.src_port == be16(data@, 0)
            &&& s.dst_port == be16(data@, 2)
            &&& s.payload@ == tcp_payload(data@)
        },
{
    match TcpPacket::owned(data) {
        Some(p) => Some(Segment {
            src_port: p.get_source(),
            dst_port: p.get_destination(),
            payload: p.payload().to_vec(),
        }),
        None => None,
    }
}

/// Relies on pnet_packet's `UdpPacket::owned` (None below 8 bytes), its port
/// getters, and `payload` (bytes from 8 on).
#[verifier::external_body]
fn decode_udp(data: Vec<u8>) -> (r: Option<Segment>)
    ensures
        r.is_some() == (data@.len() >= 8),
        r matches Some(s) ==> {
            &&& s.src_port == be16(data@, 0)
            &&& s.dst_port == be16(data@, 2)
            &&& s.payload@ == data@.subrange(8, data@.len() as int)
        },
{
    match UdpPacket::owned(data) {
        Some(p) => Some(Segment {
            src_port: p.get_source(),
            dst_port: p.get_destination(),
            payload: p.payload().to_vec(),
        }),
        None => None,
    }
}

impl Packet {
    /// Decodes the Ethernet, IP and transport layers of a capture record.
    pub fn from_record(record: PcapRecord, is_nanosecond_res: bool) -> (r: Result<
        Self,
        ParsePacketError,
    >)
        ensures
            r == packet_of_frame(
                record.data@,
                time_as_nanos(record.header, is_nanosecond_res) as u64,
            ),
    {
        let timestamp = record.header.get_time_as_nanos(is_nanosecond_res);
        let frame_bytes = record.data;
        let ghost frame = frame_bytes@;
        let ethernet = match decode_ethernet(frame_bytes) {
            Some(e) => e,
            None => return Err(ParsePacketError::InvalidEthernetHeader),
        };
        let ip = if ethernet.ethertype == ETHERTYPE_IPV4 {
            match decode_ipv4(ethernet.payload) {
                Some(d) => d,
                None => return Err(ParsePacketError::InvalidIpv4Header),
            }
        } else if ethernet.ethertype == ETHERTYPE_IPV6 {
            match decode_ipv6(ethernet.payload) {
                Some(d) => d,
                None => return Err(ParsePacketError::InvalidIpv6Header),
            }
        } else {
            return Err(ParsePacketError::InvalidInternetLayer);
        };
        let segment = if ip.protocol == PROTOCOL_TCP {
            match decode_tcp(ip.payload) {
                Some(s) => s,
                None => return Err(ParsePacketError::InvalidTcpHeader),
            }
        } else if ip.protocol == PROTOCOL_UDP {
            match decode_udp(ip.payload) {
                Some(s) => s,
                None => return Err(ParsePacketError::InvalidUdpHeader),
            }
        } else {
            return Err(ParsePacketError::InvalidTransportProtocol);
        };
        Ok(
            Packet {
                src_ip: ip.src,
                dst_ip: ip.dst,
                trans_protocol: ip.protocol,
                src_port: segment.src_port,
                dst_port: segment.dst_port,
                payload_length: segment.payload.len(),
                timestamp,
            },
        )
    }

    /// Strips out features that are identifying and not useful for generating features.
    pub fn strip(self) -> (r: StrippedPacket)
        ensures
            r == strip_spec(self),
    {
        StrippedPacket {
            trans_protocol: self.trans_protocol,
            payload_length: self.payload_length,
            timestamp: self.timestamp,
            src_port: self.src_port,
            dst_port: self.dst_port,
        }
    }
}

} // verus!
