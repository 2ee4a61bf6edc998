//! A memoizing cache of registry answers and feature expansions for a
//! backtracking dependency resolver.
//!
//! The resolver asks two things again and again: which packages can
//! satisfy a dependency, and what activating one of them with given
//! features entails. [`RegistryQueryer`] answers both from a [`Registry`]
//! and remembers the answers. An answer that the registry does not have
//! yet is remembered as pending, until [`RegistryQueryer::reset_pending`].
//!
//! Every executable type has a model, reached with `deep_view()`; the
//! contracts are stated over the models. The registry and the context of
//! the resolution are traits without contracts: what the cache does is
//! stated for every answer they may give.

pub mod assoc;
pub mod dependency;
pub mod errors;
pub mod expansion;
pub mod features;
pub mod options;
pub mod package;
pub mod queryer;
pub mod registry;
pub mod replace;
pub mod requirement_laws;
pub mod requirements;
pub mod shared;
pub mod summary;
pub mod version_prefs;

pub use features::resolve_features;
pub use queryer::RegistryQueryer;
pub use registry::{Context, Poll, Registry};
