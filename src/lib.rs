//! Verified core of a user-level package manager for prebuilt binaries: the descriptor
//! model, version resolution, the fallback ladders, variable expansion, archive path
//! stripping, file placement planning, the installation database, the uninstall and
//! upgrade planners, and the download cache's decisions.
pub mod error;
pub mod text;
pub mod arch_os;
pub mod version;
pub mod package;
pub mod descriptor;
pub mod vars;
pub mod unpacker;
pub mod checksum;
pub mod cache;
pub mod db;
pub mod placement;
pub mod install;
pub mod upgrade;
pub mod uninstall;
pub mod store;
pub mod ui;
pub mod asset_names;
