//! Asset fetch requests and their outcomes, as live providers report them.
use vstd::prelude::*;
use crate::asset::{AssetID, AssetPriority};
use crate::texture_cache::{AssetStatus, DecodedRgbaImage};

verus! {

/// Where an asset came from.
#[derive(Debug, Clone, Copy, PartialEq, Eq, Structural)]
pub enum AssetSourceKind {
    Fixture,
    Live,
}

/// Why fetching or decoding an asset failed.
#[derive(Debug, Clone, Copy, PartialEq, Eq, Structural)]
pub enum AssetFetchFailureReason {
    Transport,
    Decode,
    Unsupported,
    MissingCapability,
    Timeout,
    Other,
}

/// A request for an asset at a priority.
#[derive(Debug, Clone)]
pub struct AssetFetchRequest {
    pub id: AssetID,
    pub priority: AssetPriority,
}

/// What a fetch came to: the asset's status, where it came from, and why it
/// failed if it did.
#[derive(Debug, Clone)]
pub struct AssetFetchOutcome<T> {
    pub status: AssetStatus<T>,
    pub source: AssetSourceKind,
    pub failure: Option<AssetFetchFailureReason>,
}

/// A source of live textures that the viewer polls; errors are reported as text.
pub trait LiveTextureProvider: Send + Sync {
    fn request_texture(&mut self, request: &AssetFetchRequest) -> Result<(), String>;

    fn poll_texture(&mut self, id: &AssetID) -> Result<
        Option<AssetFetchOutcome<DecodedRgbaImage>>,
        String,
    >;
}

/// How a connection request for an asset failed, as far as the failure
/// reason tells it apart.
#[derive(Debug, Clone, Copy, PartialEq, Eq, Structural)]
pub enum ConnectionErrorKind {
    /// An HTTP request that timed out.
    HttpTimeout,
    /// Any other HTTP failure.
    Http,
    /// The region offers no capability for the asset.
    MissingCapability,
    /// Any other connection failure.
    Other,
}

/// The failure reason reported for a connection error: a timed-out request
/// is `Timeout`, a missing capability is `MissingCapability`, and anything
/// else is a transport failure.
pub fn classify_asset_fetch_failure_reason(error: ConnectionErrorKind) -> (r:
    AssetFetchFailureReason)
    ensures
        r == match error {
            ConnectionErrorKind::HttpTimeout => AssetFetchFailureReason::Timeout,
            ConnectionErrorKind::MissingCapability => AssetFetchFailureReason::MissingCapability,
            _ => AssetFetchFailureReason::Transport,
        },
{
    match error {
        ConnectionErrorKind::HttpTimeout => AssetFetchFailureReason::Timeout,
        ConnectionErrorKind::MissingCapability => AssetFetchFailureReason::MissingCapability,
        _ => AssetFetchFailureReason::Transport,
    }
}

} // verus!
