//! Error values returned by tileset and tilemap construction and by the
//! preference store.

use vstd::prelude::*;

verus! {

/// All construction-time failures are aggregated into one of these
/// values; no partially built tileset or tilemap is ever returned.
#[derive(Debug, Clone, PartialEq, Eq)]
pub enum GameUtilError {
    /// The platform gave no preference directory.
    AppPrefDir,
    /// Writing the preference file failed: cause, then path.
    Saving(String, String),
    /// Encoding preference data failed.
    Serializing(String),
    /// Reading the preference file failed: cause, then path.
    Loading(String, String),
    /// Decoding preference data failed.
    Deserializing(String),
    /// Creating the preference directory failed: cause, then path.
    MakingDirs(String, String),
    /// One or more tile names in a map had no matching entry in the
    /// tileset: the owning map's label, then every missing name, each
    /// listed once, in first-seen order.
    InvalidTileset(String, Vec<String>),
    /// A map descriptor's cell grid was empty or ragged.
    MalformedGrid,
    /// An image added to a tileset does not use the tileset's palette.
    PaletteMismatch,
}

} // verus!
