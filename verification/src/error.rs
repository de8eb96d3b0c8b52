//! What can go wrong, by the stage in which it does.

use vstd::prelude::*;

verus! {

/// The scratch directories could not be set up or taken down, or the
/// descriptor names them unsafely.
#[derive(Debug, Clone, Copy, PartialEq, Eq, Structural)]
pub enum WorkspaceError {
    /// The package name is not a safe name.
    UnsafeName,
    /// The package version is not a safe name.
    UnsafeVersion,
    /// A scratch directory could not be created.
    CreateFailed,
    /// A scratch directory or file could not be removed.
    RemoveFailed,
}

/// A source could not be brought into the build tree.
#[derive(Debug, Clone, Copy, PartialEq, Eq, Structural)]
pub enum FetchError {
    /// The suffix of the source names no known way to fetch it.
    UnknownFormat,
    /// The clone or the download failed.
    Transport,
    /// The clone could not be reset to the requested commit.
    Checkout,
    /// The destination could not be made, or the archive not unpacked
    /// into it.
    Extraction,
}

/// The build script did not succeed.
#[derive(Debug, Clone, Copy, PartialEq, Eq, Structural)]
pub enum BuildError {
    /// The script ended with this status, which is not zero.
    NonZeroExit(i32),
}

/// The build output could not be turned into archives.
#[derive(Debug, Clone, Copy, PartialEq, Eq, Structural)]
pub enum PackageError {
    /// The directory that receives the archives could not be created.
    Output,
    /// A directory of a package tree could not be created.
    Layout,
    /// A file pattern could not be expanded.
    Expansion,
    /// A file or tree could not be moved into its package.
    Move,
    /// The manifest could not be written into a package.
    Manifest,
    /// The archive of a package could not be created.
    Archive,
    /// An archive could not be copied to where it is wanted.
    Delivery,
}

/// Any error of the pipeline.
#[derive(Debug, Clone, Copy, PartialEq, Eq, Structural)]
pub enum PipelineError {
    Workspace(WorkspaceError),
    Fetch(FetchError),
    Build(BuildError),
    Package(PackageError),
}

/// A failure the pipeline met: which error, in which unit of its stage (the
/// index of the source or of the package), and the status reported.
#[derive(Debug, Clone, Copy, PartialEq, Eq, Structural)]
pub struct Failure {
    pub error: PipelineError,
    pub unit: usize,
    pub status: i32,
}

} // verus!
