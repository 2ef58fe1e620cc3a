use crate::packet::{IpAddress, PROTOCOL_TCP, PROTOCOL_UDP};
use vstd::prelude::*;

verus! {

/// Connection state for a flow, as the connection analyzer reports it.
#[derive(Clone, Copy, Debug, PartialEq, Eq, Structural)]
pub enum ConnState {
    /// Connection attempt seen, no reply.
    S0,
    /// Connection established, not terminated.
    S1,
    /// Normal establishment and termination.
    SF,
    /// Connection attempt rejected.
    REJ,
    /// Established; close attempt by the originator seen, no reply.
    S2,
    /// Established; close attempt by the responder seen, no reply.
    S3,
    /// Established; originator aborted (sent a RST).
    RSTO,
    /// Responder sent a RST.
    RSTR,
    /// Originator sent a SYN followed by a RST; no SYN-ACK seen.
    RSTOS0,
    /// Responder sent a SYN ACK followed by a RST; no SYN seen.
    RSTRH,
    /// Originator sent a SYN followed by a FIN; no SYN ACK seen.
    SH,
    /// Responder sent a SYN ACK followed by a FIN; no SYN seen.
    SHR,
    /// No SYN seen, just midstream traffic.
    OTH,
    /// Unknown; the default.
    UNK,
}

impl Default for ConnState {
    fn default() -> (r: Self)
        ensures
            r == ConnState::UNK,
    {
        ConnState::UNK
    }
}

/// One letter of a connection's history string.
#[derive(Clone, Copy, Debug, PartialEq, Eq, Structural)]
pub enum HistoryEntry {
    /// `s`: a SYN without the ACK bit set
    Syn,
    /// `h`: a SYN+ACK
    Handshake,
    /// `a`: a pure ACK
    Ack,
    /// `d`: a packet with payload
    Data,
    /// `f`: a packet with the FIN bit set
    Fin,
    /// `r`: a packet with the RST bit set
    Rst,
    /// `c`: a packet with a bad checksum
    BadChecksum,
    /// `t`: a packet with retransmitted payload
    Retransmit,
    /// `i`: an inconsistent packet
    Inconsistent,
    /// `q`: a multi-flag packet
    MultiFlag,
    /// `^`: the connection direction was flipped
    DirectionFlipped,
    /// Any other letter
    Unknown,
}

pub open spec fn history_entry_of(c: char) -> HistoryEntry {
    if c == 's' {
        HistoryEntry::Syn
    } else if c == 'h' {
        HistoryEntry::Handshake
    } else if c == 'a' {
        HistoryEntry::Ack
    } else if c == 'd' {
        HistoryEntry::Data
    } else if c == 'f' {
        HistoryEntry::Fin
    } else if c == 'r' {
        HistoryEntry::Rst
    } else if c == 'c' {
        HistoryEntry::BadChecksum
    } else if c == 't' {
        HistoryEntry::Retransmit
    } else if c == 'i' {
        HistoryEntry::Inconsistent
    } else if c == 'q' {
        HistoryEntry::MultiFlag
    } else if c == '^' {
        HistoryEntry::DirectionFlipped
    } else {
        HistoryEntry::Unknown
    }
}

impl From<char> for HistoryEntry {
    fn from(c: char) -> (r: Self) {
        match c {
            's' => HistoryEntry::Syn,
            'h' => HistoryEntry::Handshake,
            'a' => HistoryEntry::Ack,
            'd' => HistoryEntry::Data,
            'f' => HistoryEntry::Fin,
            'r' => HistoryEntry::Rst,
            'c' => HistoryEntry::BadChecksum,
            't' => HistoryEntry::Retransmit,
            'i' => HistoryEntry::Inconsistent,
            'q' => HistoryEntry::MultiFlag,
            '^' => HistoryEntry::DirectionFlipped,
            _ => HistoryEntry::Unknown,
        }
    }
}

impl vstd::std_specs::convert::FromSpecImpl<char> for HistoryEntry {
    open spec fn obeys_from_spec() -> bool {
        true
    }

    open spec fn from_spec(c: char) -> HistoryEntry {
        history_entry_of(c)
    }
}

/// A transport protocol as the connection analyzer names it.
#[derive(Clone, Copy, Debug, PartialEq, Eq, Structural)]
pub enum TransportProtocol {
    Unknown,
    Tcp,
    Udp,
    Icmp,
}

pub const PROTOCOL_ICMP: u8 = 1;

pub open spec fn protocol_code(p: TransportProtocol) -> u8 {
    match p {
        TransportProtocol::Unknown => 0,
        TransportProtocol::Tcp => PROTOCOL_TCP,
        TransportProtocol::Udp => PROTOCOL_UDP,
        TransportProtocol::Icmp => PROTOCOL_ICMP,
    }
}

impl TransportProtocol {
    /// Returns the IP next-protocol code for a transport protocol.
    pub fn code(&self) -> (r: u8)
        ensures
            r == protocol_code(*self),
    {
        match self {
            TransportProtocol::Unknown => 0,
            TransportProtocol::Tcp => PROTOCOL_TCP,
            TransportProtocol::Udp => PROTOCOL_UDP,
            TransportProtocol::Icmp => PROTOCOL_ICMP,
        }
    }
}

/// One record of the connection log.
#[derive(Debug)]
pub struct Connection {
    /// Start time in nanoseconds
    pub timestamp: u64,
    /// Identifier of the flow
    pub uid: String,
    pub orig_ip: IpAddress,
    pub resp_ip: IpAddress,
    pub orig_port: u16,
    pub resp_port: u16,
    pub trans_protocol: TransportProtocol,
    pub service: Option<String>,
    /// Duration in nanoseconds
    pub duration: u64,
    pub orig_bytes: Option<i64>,
    pub resp_bytes: Option<i64>,
    pub conn_state: Option<ConnState>,
    pub missed_bytes: Option<i64>,
    pub history: String,
    pub orig_pkts: Option<i64>,
    pub orig_ip_bytes: Option<i64>,
    pub resp_pkts: Option<i64>,
    pub resp_ip_bytes: Option<i64>,
}

} // verus!
