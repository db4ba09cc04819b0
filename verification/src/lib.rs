//! Per-process network traffic redirection: the rules behind the daemon and
//! its graphical front end.

pub mod addr;
pub mod attrs;
pub mod automaton;
pub mod bpf;
pub mod bytes;
pub mod clone;
pub mod config;
pub mod dbus;
pub mod dfa;
pub mod dns;
pub mod error;
pub mod fields;
pub mod gui;
pub mod kinds;
pub mod matches;
pub mod matching;
pub mod names;
pub mod netlink;
pub mod nft;
pub mod paths;
pub mod procs;
pub mod route;
pub mod routing;
pub mod rtnl;
pub mod rules;
pub mod start;
pub mod state;
pub mod stats;
pub mod text;
