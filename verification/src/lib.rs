//! Network detection and analysis: pcap record layout, Ethernet/IPv4/IPv6/
//! ARP/TCP/UDP decoding, port-keyed dissectors, detection rules (port scan,
//! SYN flood, ARP spoofing) with MITRE ATT&CK tags, IOC matching, the
//! Sigma-lite rule format and YARA scanning.
pub mod capture;
pub mod cli;
pub mod detect;
pub mod intel;
pub mod protocol;
pub mod text;
pub mod yara;
