//! A package build orchestrator.
//!
//! Given a package descriptor, the library plans how its sources are
//! fetched into a build tree, how the build script is run there, and how
//! what the script leaves in the output tree is parted into subpackages and
//! archived. It performs none of this itself: the [`pipeline`] names one
//! step after the other, and a host performs each and reports how it ended.
//!
//! The stages have a module each: [`workspace`], [`fetch`], [`executor`],
//! [`packager`]. What holds of every run is proved in [`runs`], [`order`],
//! [`partition`], [`contents`] and [`success`].

pub mod action;
pub mod claims;
pub mod contents;
pub mod descriptor;
pub mod error;
pub mod executor;
pub mod fetch;
pub mod order;
pub mod packager;
pub mod partition;
pub mod path;
pub mod pipeline;
pub mod runs;
pub mod success;
pub mod text;
pub mod workspace;
