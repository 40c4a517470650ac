//! Kernel-side bookkeeping: security fences, boot sequencing and PCAP status.

pub mod security;
pub mod moore;
pub mod boot;
pub mod drivers;
