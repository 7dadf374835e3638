//! Verified core of an easy to use torrent client built on libtorrent and tokio.
pub mod client;
pub mod event_loop;
pub mod info_hash;
pub mod options;
pub mod time;
pub mod torrent_entry;

pub use client::TorrentClientInner;
pub use info_hash::InfoHash;
pub use options::AnawtOptions;
pub use torrent_entry::TorrentEntry;
