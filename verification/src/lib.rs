//! A client library for a legacy internet-bandwidth-measurement protocol:
//! configuration and server-directory parsing, great-circle server ranking,
//! latency-based server selection, benchmark workload construction and
//! aggregation, and the share-result hash protocol.

pub mod distance;
pub mod error;
pub mod markup;
pub mod share;
pub mod speedtest;
pub mod speedtest_config;
pub mod speedtest_csv;
pub mod speedtest_json;
pub mod speedtest_servers_config;
pub mod textutil;
