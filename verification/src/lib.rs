//! An inline DNS-filtering firewall agent: it inspects IPv4/UDP port-53
//! packets, decodes the DNS question name, checks it against a blocklist,
//! and produces an Accept/Drop verdict for each packet.
//!
//! The wire-format parsing, the name decoder, the blocklist matcher, the
//! sampling gate and the verdict policy are verified; the kernel verdict
//! queue and the thread plumbing live outside the library.

pub mod blocklist;
pub mod classify;
pub mod dns;
pub mod pipeline;
pub mod sampling;
