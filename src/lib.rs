//! Bookkeeping for a declarative list of installed packages: the package
//! store, its normalisation before it is written, queries over it, and the
//! pure decisions behind the command-line front end.

pub mod command;
pub mod laws;
pub mod location;
pub mod normalize;
pub mod package;
pub mod store;
pub mod text;

pub use package::{AppConfig, Package, Packages, SortOrder, Symlink};
pub use store::{edit, filter_by_category, filter_by_tag, has, info, install, list, uninstall};
