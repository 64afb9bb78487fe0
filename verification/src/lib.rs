//! Verified core of the BasedBrowser embedder: browsing history, bookmarks and the saved tab
//! session, the tab-list bookkeeping, the chrome keyboard shortcuts, address-bar parsing, and the
//! devtools network client (packet framing and event ingestion).
//!
//! Everything that touches the disk, the network, the window system or the Servo engine lives in
//! `app/`; it hands this crate plain values and performs the actions this crate decides on.

pub mod clock;
pub mod devtools;
pub mod favicon;
pub mod gpu_memory;
pub mod handshake;
pub mod history_search;
pub mod home;
pub mod input;
pub mod json;
pub mod json_text;
pub mod jsvalue;
pub mod netclient;
pub mod pacing;
pub mod persist;
pub mod rdp_wire;
pub mod shortcuts;
pub mod tabs;
pub mod text;
pub mod weburl;
