//! The package index that the cache reads, and the readiness of its
//! answers.

use crate::dependency::Dependency;
use crate::errors::RegistryError;
use crate::package::PackageId;
use crate::summary::Summary;
use vstd::prelude::*;

verus! {

/// An answer that is there, or one that is still being fetched.
#[derive(Clone, Debug, PartialEq, Eq)]
pub enum Poll<T> {
    Ready(T),
    Pending,
}

impl<T: DeepView> DeepView for Poll<T> {
    type V = Poll<T::V>;

    open spec fn deep_view(&self) -> Poll<T::V> {
        match self {
            Poll::Ready(t) => Poll::Ready(t.deep_view()),
            Poll::Pending => Poll::Pending,
        }
    }
}

impl<T> Poll<T> {
    pub fn is_ready(&self) -> (r: bool)
        ensures
            r == (self is Ready),
    {
        match self {
            Poll::Ready(_) => true,
            Poll::Pending => false,
        }
    }

    pub fn is_pending(&self) -> (r: bool)
        ensures
            r == (self is Pending),
    {
        match self {
            Poll::Ready(_) => false,
            Poll::Pending => true,
        }
    }
}

/// How closely a package has to fit the dependency asked for.
#[derive(Clone, Copy, Debug, PartialEq, Eq, Hash, Structural)]
pub enum QueryKind {
    /// Only packages that satisfy the dependency.
    Exact,
    /// Also packages of a similar name, for the wording of error messages.
    Fuzzy,
}

/// A package index. An implementation answers with the packages it has
/// for a dependency, says that the answer is still being fetched, or
/// fails. Nothing is assumed of the answers: the cache states what it does
/// with each of them.
pub trait Registry {
    fn query_vec(&mut self, dep: &Dependency, kind: QueryKind) -> Poll<
        Result<Vec<Summary>, RegistryError>,
    >;
}

/// The state of the resolution, as far as the cache needs it: it can say
/// by which chain of dependencies a package came to be considered. The
/// description goes into the error of a failed query and nowhere else.
pub trait Context {
    fn describe_path(&self, id: &PackageId) -> String;
}

} // verus!
