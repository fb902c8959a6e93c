//! ICMP echo ("ping"): the parameter of a ping operation, the packets that it sends and
//! receives, and the bookkeeping of the pings on their way.

pub mod address;
pub mod checksum;
pub mod config;
pub mod decimal;
pub mod operation;
pub mod packet;
pub mod report;
pub mod session;
pub mod text;
