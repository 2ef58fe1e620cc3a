//! Feature extraction for network packet captures: capture-file decoding,
//! protocol-layer decoding, association of packets with connection records,
//! and per-flow histogram features; with the work queue that hands out
//! captures to workers and the decisions of the capture-control daemon.

pub mod capture;
pub mod capture_control;
pub mod connection;
pub mod dataset;
pub mod entropy;
pub mod features;
pub mod flow_aggregator;
pub mod packet;
pub mod pcap;
pub mod shutdown;
pub mod url;
pub mod work;
