use vstd::prelude::*;

verus! {

/// The error conditions that the dependency and metadata logic itself can
/// detect. I/O failures and installer failures are reported by the callers
/// that perform those effects.
#[derive(Clone, Copy, Debug, PartialEq, Eq, Structural)]
pub enum Error {
    /// A requirement string with no package name.
    EmptyDependencyName,
    /// A requirement string whose version specifier or source locator is malformed.
    MalformedSpecifier,
    /// A version string that is not of the form `major.minor.patch`.
    MalformedVersion,
    /// An installed-package string that is not of the form `name==version`.
    MalformedPackage,
}

} // verus!
