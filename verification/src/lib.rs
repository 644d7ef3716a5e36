//! Verified building blocks of a set of small networking tools: an LLDP
//! frame decoder, a layer-2 topology discovery protocol, a CSV vulnerability
//! merger, a command forwarder, and helpers of a few eBPF and p2p utilities.
pub mod ccrust;
pub mod text;
pub mod ip;
pub mod lldp;
pub mod topology;
pub mod csvmerge;
pub mod forwarder;
pub mod p2p;
pub mod portmirror;
pub mod funcprobe;
pub mod echoserver;
