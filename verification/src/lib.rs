//! spellman — Cyrillic-optimized language detection: the verified core.
//!
//! - [`language`]: the 30-language inventory and per-character scripts;
//! - [`features`]: word classification and the rolling n-gram packer;
//! - [`hash`]: feature-hash mixers, buckets and signs;
//! - [`route`]: script routing ahead of any model;
//! - [`model`]: the metadata contract of a model artifact;
//! - [`batch`]: plan ladders, chunk schedules and gather indices;
//! - [`widen`]: exact widening of binary16 and e4m3 patterns to binary32;
//! - [`sent`]: sentence splitting and the markdown sentence sweep;
//! - [`eval`]: eval-file lines, fragments, tallies and the seeded sampler;
//! - [`compare`]: third-party detector answers on the same rows;
//! - [`hub`]: Hub reference strings.
pub mod batch;
pub mod compare;
pub mod eval;
pub mod features;
pub mod hash;
pub mod hub;
pub mod language;
pub mod model;
pub mod route;
pub mod sent;
pub mod text;
pub mod widen;

pub use language::{char_script, Lang, Script, UnknownLang, NUM_LANGS};
pub use route::{Route, ScriptGroup};
