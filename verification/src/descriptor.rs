//! The package descriptor: what is to be fetched, built and packaged.

use vstd::prelude::*;
use crate::error::WorkspaceError;
use crate::path::{is_safe_name, safe_name};

verus! {

/// Identity of the package.
#[derive(Debug, Clone, PartialEq, Eq)]
pub struct PkgFilePackage {
    pub name: String,
    pub version: String,
    pub description: String,
    pub license: String,
}

/// A named part of the build output that is packaged on its own.
#[derive(Debug, Clone, PartialEq, Eq)]
pub struct PkgFileSubPackage {
    pub name: String,
    pub description: String,
    /// Glob patterns, relative to the output tree.
    pub files: Vec<String>,
}

/// One input that is brought into the build tree before the build runs.
#[derive(Debug, Clone, PartialEq, Eq)]
pub struct PkgFileSource {
    /// Where the source comes from; its suffix decides how it is fetched.
    pub source: String,
    /// Branch or tag to clone.
    pub git_ref: Option<String>,
    /// Commit to reset the clone to. The clone is shallow, so the reset
    /// succeeds only for the commit that the clone holds.
    pub git_commit: Option<String>,
    /// Where to put it, relative to the build tree; the build tree itself
    /// when absent.
    pub destination: Option<String>,
}

/// How the package is built.
#[derive(Debug, Clone, PartialEq, Eq)]
pub struct PkgFileBuild {
    /// Shell script, run in the build tree.
    pub script: String,
}

/// The whole descriptor.
#[derive(Debug, Clone, PartialEq, Eq)]
pub struct PkgFile {
    pub package: PkgFilePackage,
    pub subpackage: Option<Vec<PkgFileSubPackage>>,
    pub source: Option<Vec<PkgFileSource>>,
    pub build: Option<PkgFileBuild>,
}

/// A source, as text.
pub struct SourceSpec {
    pub source: Seq<char>,
    pub git_ref: Option<Seq<char>>,
    pub git_commit: Option<Seq<char>>,
    pub destination: Option<Seq<char>>,
}

/// A subpackage, as text.
pub struct SubpackageSpec {
    pub name: Seq<char>,
    pub description: Seq<char>,
    pub files: Seq<Seq<char>>,
}

/// A descriptor, as text. Absent lists are empty here.
pub struct Descriptor {
    pub name: Seq<char>,
    pub version: Seq<char>,
    pub description: Seq<char>,
    pub license: Seq<char>,
    pub sources: Seq<SourceSpec>,
    pub subpackages: Seq<SubpackageSpec>,
    pub script: Option<Seq<char>>,
}

impl View for PkgFileSource {
    type V = SourceSpec;

    open spec fn view(&self) -> SourceSpec {
        SourceSpec {
            source: self.source@,
            git_ref: self.git_ref.deep_view(),
            git_commit: self.git_commit.deep_view(),
            destination: self.destination.deep_view(),
        }
    }
}

impl DeepView for PkgFileSource {
    type V = SourceSpec;

    open spec fn deep_view(&self) -> SourceSpec {
        self@
    }
}

impl View for PkgFileSubPackage {
    type V = SubpackageSpec;

    open spec fn view(&self) -> SubpackageSpec {
        SubpackageSpec {
            name: self.name@,
            description: self.description@,
            files: self.files.deep_view(),
        }
    }
}

impl DeepView for PkgFileSubPackage {
    type V = SubpackageSpec;

    open spec fn deep_view(&self) -> SubpackageSpec {
        self@
    }
}

impl View for PkgFile {
    type V = Descriptor;

    open spec fn view(&self) -> Descriptor {
        Descriptor {
            name: self.package.name@,
            version: self.package.version@,
            description: self.package.description@,
            license: self.package.license@,
            sources: match self.source {
                Some(sources) => sources.deep_view(),
                None => Seq::empty(),
            },
            subpackages: match self.subpackage {
                Some(subpackages) => subpackages.deep_view(),
                None => Seq::empty(),
            },
            script: match self.build {
                Some(build) => Some(build.script@),
                None => None,
            },
        }
    }
}

/// Whether a descriptor may be run. The name and the version of the package
/// become part of the paths of the run, so both have to be safe names; the
/// name is looked at first.
pub open spec fn checked(descriptor: Descriptor) -> Result<(), WorkspaceError> {
    if !is_safe_name(descriptor.name) {
        Err(WorkspaceError::UnsafeName)
    } else if !is_safe_name(descriptor.version) {
        Err(WorkspaceError::UnsafeVersion)
    } else {
        Ok(())
    }
}

impl PkgFile {
    /// Tells whether the descriptor may be run.
    pub fn validate(&self) -> (r: Result<(), WorkspaceError>)
        ensures
            r == checked(self@),
    {
        if !safe_name(self.package.name.as_str()) {
            Err(WorkspaceError::UnsafeName)
        } else if !safe_name(self.package.version.as_str()) {
            Err(WorkspaceError::UnsafeVersion)
        } else {
            Ok(())
        }
    }
}

} // verus!
