//! The rules by which a system upgrade is put together.
//!
//! Packages come from four places: the sync repositories, the AUR, development
//! packages built from version control, and local PKGBUILD repositories. This
//! library decides which of their updates are offered, in what order they are
//! listed, how each line of the upgrade menu reads, and what is kept once the user
//! has answered. Querying package databases, talking to the network and reading
//! the terminal are left to the caller, who hands over plain values.

pub mod config;
pub mod cooldown;
pub mod input;
pub mod menu;
pub mod net;
pub mod package;
pub mod repo;
mod seqs;
pub mod style;
pub mod text;
pub mod upgrade;
pub mod version;
