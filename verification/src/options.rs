//! What the resolver asks of a candidate: which features, and whether its
//! development dependencies count.

use crate::package::{clone_names, same_names, Name};
use crate::summary::{clone_values, same_values, FeatureValue, FeatureValueModel};
use vstd::prelude::*;

verus! {

/// The features asked for on the command line, for a root package.
#[derive(Clone, Debug, PartialEq, Eq)]
pub struct CliFeatures {
    pub features: Vec<FeatureValue>,
    pub all_features: bool,
    pub uses_default_features: bool,
}

/// The features asked of a candidate.
#[derive(Clone, Debug, PartialEq, Eq)]
pub enum RequestedFeatures {
    /// The request made of a root package.
    CliFeatures(CliFeatures),
    /// The request that a dependency declaration makes.
    DepFeatures { features: Vec<String>, uses_default_features: bool },
}

/// The model of [`RequestedFeatures`].
#[allow(inconsistent_fields)]
pub enum RequestedFeaturesModel {
    CliFeatures { features: Seq<FeatureValueModel>, all_features: bool, uses_default_features: bool },
    DepFeatures { features: Seq<Name>, uses_default_features: bool },
}

impl DeepView for RequestedFeatures {
    type V = RequestedFeaturesModel;

    open spec fn deep_view(&self) -> RequestedFeaturesModel {
        match self {
            RequestedFeatures::CliFeatures(cli) => RequestedFeaturesModel::CliFeatures {
                features: cli.features.deep_view(),
                all_features: cli.all_features,
                uses_default_features: cli.uses_default_features,
            },
            RequestedFeatures::DepFeatures { features, uses_default_features } => {
                RequestedFeaturesModel::DepFeatures {
                    features: features.deep_view(),
                    uses_default_features: *uses_default_features,
                }
            },
        }
    }
}

/// One activation request.
#[derive(Debug, PartialEq, Eq)]
pub struct ResolveOpts {
    /// Whether development dependencies are wanted too.
    pub dev_deps: bool,
    pub features: RequestedFeatures,
}

/// The model of [`ResolveOpts`].
pub struct ResolveOptsModel {
    pub dev_deps: bool,
    pub features: RequestedFeaturesModel,
}

impl DeepView for ResolveOpts {
    type V = ResolveOptsModel;

    open spec fn deep_view(&self) -> ResolveOptsModel {
        ResolveOptsModel { dev_deps: self.dev_deps, features: self.features.deep_view() }
    }
}

impl Clone for ResolveOpts {
    fn clone(&self) -> (r: Self)
        ensures
            r.deep_view() == self.deep_view(),
    {
        let features = match &self.features {
            RequestedFeatures::CliFeatures(cli) => RequestedFeatures::CliFeatures(
                CliFeatures {
                    features: clone_values(&cli.features),
                    all_features: cli.all_features,
                    uses_default_features: cli.uses_default_features,
                },
            ),
            RequestedFeatures::DepFeatures { features, uses_default_features } => {
                RequestedFeatures::DepFeatures {
                    features: clone_names(features),
                    uses_default_features: *uses_default_features,
                }
            },
        };
        ResolveOpts { dev_deps: self.dev_deps, features }
    }
}

impl ResolveOpts {
    /// The request for a root package.
    pub fn new(dev_deps: bool, features: RequestedFeatures) -> (r: ResolveOpts)
        ensures
            r.deep_view() == (ResolveOptsModel { dev_deps, features: features.deep_view() }),
    {
        ResolveOpts { dev_deps, features }
    }

    /// Equality by model.
    pub fn same(&self, other: &ResolveOpts) -> (r: bool)
        ensures
            r == (self.deep_view() == other.deep_view()),
    {
        if self.dev_deps != other.dev_deps {
            return false;
        }
        match (&self.features, &other.features) {
            (RequestedFeatures::CliFeatures(a), RequestedFeatures::CliFeatures(b)) => {
                a.all_features == b.all_features && a.uses_default_features
                    == b.uses_default_features && same_values(&a.features, &b.features)
            },
            (
                RequestedFeatures::DepFeatures { features: fa, uses_default_features: ua },
                RequestedFeatures::DepFeatures { features: fb, uses_default_features: ub },
            ) => *ua == *ub && same_names(fa, fb),
            _ => false,
        }
    }
}

} // verus!
