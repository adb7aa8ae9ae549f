//! Freshness of auto-optimized runtime and stdlib archives.
//!
//! A program can be linked against archives of the runtime and the stdlib that
//! were rebuilt with just the features that it needs. This library decides what
//! such a rebuild is asked for, which cache it belongs to, and whether archives
//! from an earlier one can be used as they are:
//!
//! - [`cross_features`] and [`manifest`]: the features to be requested, and
//!   which of them the workspace at hand declares.
//! - [`cache_key`] and [`stamp`]: what identifies a build.
//! - [`closure`], [`source_walk`] and [`fingerprint`]: what identifies the
//!   sources that it is made from; [`sources`] says what that covers.
//! - [`freshness`]: whether archives have the right stamp and no input is newer.
//! - [`well_known`] and [`bindings`]: the libraries of well-known bindings.
//!
//! The library reads no files. Where a decision depends on what is on disk, it
//! names the path to be read next and takes what was found there.
pub mod bindings;
pub mod cache_key;
pub mod closure;
pub mod context;
pub mod cross_features;
pub mod fingerprint;
pub mod freshness;
pub mod listing;
pub mod manifest;
pub mod name_set;
pub mod source_walk;
pub mod sources;
pub mod stamp;
pub mod text;
pub mod toml_value;
pub mod well_known;
