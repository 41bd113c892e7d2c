//! Core logic for synchronizing podcast feeds onto an ESPuino audio player.
//!
//! The library turns syndication-feed entries into device-safe playlists and
//! decides what the device-facing sync run must do: which URLs a feed resolves
//! to, how a playlist is serialized, how remote paths decompose for uploads,
//! whether the target directory must be created, and how a run's outcome is
//! summarized. Network and filesystem transport stay outside the library;
//! callers hand in plain bytes and get plain bytes back.

pub mod bytes;
pub mod device;
pub mod feed;
pub mod playlist;
pub mod sync;
pub mod urlnorm;

use vstd::prelude::*;

verus! {

/// Why processing a subscription, or the run around it, failed.
#[derive(Clone, Copy, Debug, PartialEq, Eq, Structural)]
pub enum SyncError {
    /// A subscription section is missing required configuration.
    Config,
    /// The feed body could not be fetched over the network.
    Fetch,
    /// The fetched body is not a parseable syndication feed.
    Parse,
    /// A feed entry carries no resolvable media enclosure.
    MissingMedia,
    /// A playlist could not be written to the local filesystem.
    LocalIo,
    /// A device HTTP call failed or returned an unusable response.
    DeviceApi,
}

} // verus!
