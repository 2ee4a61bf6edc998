//! The errors that leave the cache.
//!
//! A fatal error ends the resolution. A conflict names the parent package
//! that asked for something its dependency cannot give, so that the
//! resolver can try another candidate.

use crate::package::{
    Name, PackageId, PackageIdModel, PackageIdSpec, PackageIdSpecModel, SourceId,
};
use vstd::prelude::*;

verus! {

/// A failure reported by the registry itself.
#[derive(Clone, Debug, PartialEq, Eq)]
pub struct RegistryError {
    pub message: String,
}

impl DeepView for RegistryError {
    type V = Name;

    open spec fn deep_view(&self) -> Name {
        self.message@
    }
}

impl RegistryError {
    pub fn new(message: &str) -> (r: RegistryError)
        ensures
            r.deep_view() == message@,
    {
        RegistryError { message: String::from_str(message) }
    }
}

/// Why a candidate list could not be produced.
#[derive(Clone, Debug, PartialEq, Eq)]
pub enum QueryError {
    /// The registry failed.
    Registry(RegistryError),
    /// The registry has no package for the dependency of an override.
    NoMatchingOverride { spec: PackageIdSpec, source_id: SourceId, version_req: String },
    /// The registry has several packages for the dependency of an override.
    MultipleOverrideMatches { spec: PackageIdSpec, matches: Vec<PackageId> },
    /// The package found for an override differs from the package it is to
    /// replace in name or version.
    ReplacementMismatch { spec: PackageIdSpec, package_id: PackageId, replacement: PackageId },
    /// Two overrides match one package.
    OverlappingOverrides { first: PackageIdSpec, second: PackageIdSpec, package_id: PackageId },
}

/// The model of a [`QueryError`].
pub enum QueryErrorModel {
    Registry(Name),
    NoMatchingOverride { spec: PackageIdSpecModel, source: Name, version_req: Name },
    MultipleOverrideMatches { spec: PackageIdSpecModel, matches: Seq<PackageIdModel> },
    ReplacementMismatch {
        spec: PackageIdSpecModel,
        package_id: PackageIdModel,
        replacement: PackageIdModel,
    },
    OverlappingOverrides {
        first: PackageIdSpecModel,
        second: PackageIdSpecModel,
        package_id: PackageIdModel,
    },
}

impl DeepView for QueryError {
    type V = QueryErrorModel;

    open spec fn deep_view(&self) -> QueryErrorModel {
        match self {
            QueryError::Registry(e) => QueryErrorModel::Registry(e.deep_view()),
            QueryError::NoMatchingOverride { spec, source_id, version_req } => {
                QueryErrorModel::NoMatchingOverride {
                    spec: spec.deep_view(),
                    source: source_id.deep_view(),
                    version_req: version_req@,
                }
            },
            QueryError::MultipleOverrideMatches { spec, matches } => {
                QueryErrorModel::MultipleOverrideMatches {
                    spec: spec.deep_view(),
                    matches: matches.deep_view(),
                }
            },
            QueryError::ReplacementMismatch { spec, package_id, replacement } => {
                QueryErrorModel::ReplacementMismatch {
                    spec: spec.deep_view(),
                    package_id: package_id.deep_view(),
                    replacement: replacement.deep_view(),
                }
            },
            QueryError::OverlappingOverrides { first, second, package_id } => {
                QueryErrorModel::OverlappingOverrides {
                    first: first.deep_view(),
                    second: second.deep_view(),
                    package_id: package_id.deep_view(),
                }
            },
        }
    }
}

/// Why a parent package cannot use a candidate.
#[derive(Clone, Debug, PartialEq, Eq)]
pub enum ConflictReason {
    /// The candidate lacks a feature that the parent asks for.
    MissingFeatures(String),
    /// The name is an optional dependency that has no feature of its name.
    NonImplicitDependencyAsFeature(String),
    /// The name is a required dependency, which cannot serve as a feature.
    RequiredDependencyAsFeature(String),
}

/// The model of a [`ConflictReason`].
pub enum ConflictReasonModel {
    MissingFeatures(Name),
    NonImplicitDependencyAsFeature(Name),
    RequiredDependencyAsFeature(Name),
}

impl DeepView for ConflictReason {
    type V = ConflictReasonModel;

    open spec fn deep_view(&self) -> ConflictReasonModel {
        match self {
            ConflictReason::MissingFeatures(n) => ConflictReasonModel::MissingFeatures(n@),
            ConflictReason::NonImplicitDependencyAsFeature(n) => {
                ConflictReasonModel::NonImplicitDependencyAsFeature(n@)
            },
            ConflictReason::RequiredDependencyAsFeature(n) => {
                ConflictReasonModel::RequiredDependencyAsFeature(n@)
            },
        }
    }
}

/// An error that ends the resolution.
#[derive(Clone, Debug, PartialEq, Eq)]
pub enum FatalError {
    /// The root package has no such feature, nor a dependency of that name.
    MissingFeature { package_id: PackageId, feature: String },
    /// The root package has an optional dependency of that name, which has
    /// no feature of its name.
    NonImplicitDependencyAsFeature { package_id: PackageId, feature: String },
    /// The root package has a required dependency of that name.
    RequiredDependencyAsFeature { package_id: PackageId, feature: String },
    /// The root package has no dependency of that name.
    MissingDependency { package_id: PackageId, dep_name: String },
    /// A feature lists itself.
    FeatureCycle { feature: String },
    /// The candidates of a dependency of `package_id` could not be had.
    /// `path` says how the resolution came to that package.
    DependencyQuery { dep_name: String, package_id: PackageId, path: String, cause: QueryError },
}

/// The model of a [`FatalError`].
pub enum FatalErrorModel {
    MissingFeature { package_id: PackageIdModel, feature: Name },
    NonImplicitDependencyAsFeature { package_id: PackageIdModel, feature: Name },
    RequiredDependencyAsFeature { package_id: PackageIdModel, feature: Name },
    MissingDependency { package_id: PackageIdModel, dep_name: Name },
    FeatureCycle { feature: Name },
    DependencyQuery {
        dep_name: Name,
        package_id: PackageIdModel,
        path: Name,
        cause: QueryErrorModel,
    },
}

impl DeepView for FatalError {
    type V = FatalErrorModel;

    open spec fn deep_view(&self) -> FatalErrorModel {
        match self {
            FatalError::MissingFeature { package_id, feature } => FatalErrorModel::MissingFeature {
                package_id: package_id.deep_view(),
                feature: feature@,
            },
            FatalError::NonImplicitDependencyAsFeature { package_id, feature } => {
                FatalErrorModel::NonImplicitDependencyAsFeature {
                    package_id: package_id.deep_view(),
                    feature: feature@,
                }
            },
            FatalError::RequiredDependencyAsFeature { package_id, feature } => {
                FatalErrorModel::RequiredDependencyAsFeature {
                    package_id: package_id.deep_view(),
                    feature: feature@,
                }
            },
            FatalError::MissingDependency { package_id, dep_name } => {
                FatalErrorModel::MissingDependency {
                    package_id: package_id.deep_view(),
                    dep_name: dep_name@,
                }
            },
            FatalError::FeatureCycle { feature } => FatalErrorModel::FeatureCycle {
                feature: feature@,
            },
            FatalError::DependencyQuery { dep_name, package_id, path, cause } => {
                FatalErrorModel::DependencyQuery {
                    dep_name: dep_name@,
                    package_id: package_id.deep_view(),
                    path: path@,
                    cause: cause.deep_view(),
                }
            },
        }
    }
}

/// Why a candidate cannot be activated.
#[derive(Clone, Debug, PartialEq, Eq)]
pub enum ActivateError {
    Fatal(FatalError),
    Conflict(PackageId, ConflictReason),
}

/// The model of an [`ActivateError`].
pub enum ActivateErrorModel {
    Fatal(FatalErrorModel),
    Conflict(PackageIdModel, ConflictReasonModel),
}

impl DeepView for ActivateError {
    type V = ActivateErrorModel;

    open spec fn deep_view(&self) -> ActivateErrorModel {
        match self {
            ActivateError::Fatal(e) => ActivateErrorModel::Fatal(e.deep_view()),
            ActivateError::Conflict(p, r) => ActivateErrorModel::Conflict(
                p.deep_view(),
                r.deep_view(),
            ),
        }
    }
}

} // verus!
