//! The action cache: the stored form of an action's observed inputs, and the
//! decisions by which a cached result is republished or a new one recorded.

pub mod explain;
pub mod key;
pub mod manifest;
pub mod publish;
pub mod record;
pub mod toolchain;

pub use manifest::{decode_manifest, encode_manifest, InputEntry, InputKind, InputManifest};
pub use publish::{ActionResult, CacheLookup, OutputFile};
