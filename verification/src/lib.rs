//! Hierarchical-deterministic key derivation for Bitcoin-style descriptor
//! wallets: typed derivation path segments split by hardened/unhardened kind,
//! non-empty derivation subpaths with text and binary forms, compact index
//! ranges for batch address scanning, named derivation schemes bound to
//! watch-only tracking accounts, public-key-only script derivation, and a
//! batch UTXO-resolution algorithm over an external chain-data source.

use vstd::prelude::*;

pub mod account;
pub mod decimal;
pub mod derive;
pub mod indexes;
pub mod path;
pub mod ranges;
pub mod resolvers;
pub mod schemata;
pub mod tapret;

pub use account::{Fingerprint, TrackingAccount};
pub use derive::{DeriveError, DescriptorTemplate, Script};
pub use indexes::{
    hardened, unhardened, AccountStep, HardenedIndex, PathStep, SegmentIndexes, SegmentText,
    TerminalStep, UnhardenedIndex, ValidationError,
};
pub use path::{hardened_normal_split, DerivationSubpath};
pub use ranges::{IndexRange, IndexRangeList};
pub use resolvers::{resolve_descriptor_utxo, ResolveUtxo, Utxo, UtxoResolverError, UtxoSet};
pub use schemata::{DerivationScheme, DerivePatternError};
pub use tapret::{KeyError, OutputMap, ProprietaryKey, ProprietaryKeyTapret};

verus! {

/// Boundary between the unhardened and the hardened half of the 32-bit
/// derivation index space (BIP32): indexes below it are unhardened, indexes
/// at or above it are hardened.
pub const HARDENED_INDEX_BOUNDARY: u32 = 0x8000_0000;

} // verus!
