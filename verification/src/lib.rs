//! The routing core of a BGP daemon.

pub mod addr;
pub mod api;
pub mod bgp;
pub mod bmp;
pub mod cache;
pub mod change;
pub mod counter;
pub mod event;
pub mod listing;
pub mod lists;
pub mod native;
pub mod outgoing;
pub mod path;
pub mod peer;
pub mod rib;
pub mod roa;
pub mod rtr;
pub mod server;
pub mod service;
pub mod session;
pub mod show;
pub mod snapshot;
pub mod table;
pub mod time;
pub mod update;
pub mod vecmap;
