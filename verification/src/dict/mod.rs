//! Dictionary bundles served to the client: the manifest describing
//! them and the frequency bundle's source format.

pub mod frequency;
pub mod manifest;
