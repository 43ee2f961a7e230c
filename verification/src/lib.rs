//! Verified core of a passive network monitor.

pub mod alerts;
pub mod announce;
pub mod apple;
pub mod arp;
pub mod banner;
pub mod board;
pub mod bytes;
pub mod capture;
pub mod category;
pub mod control;
pub mod detail;
pub mod device;
pub mod dhcp;
pub mod dns;
pub mod drawing;
pub mod enrich;
pub mod fingerprint;
pub mod flows;
pub mod formatting;
pub mod geoip;
pub mod hostname;
pub mod hosts;
pub mod http;
pub mod inventory;
pub mod judge;
pub mod laws;
pub mod mdns;
pub mod names;
pub mod naming;
pub mod net;
pub mod order;
pub mod packet;
pub mod pairing;
pub mod panels;
pub mod probe;
pub mod process;
pub mod radar;
pub mod report;
pub mod rules;
pub mod scan;
pub mod screen;
pub mod session;
pub mod ssdp;
pub mod state;
pub mod table;
pub mod text;
pub mod tls;
pub mod traffic;
pub mod vendor;
pub mod watch;
