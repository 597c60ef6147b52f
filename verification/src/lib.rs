//! A watcher for new releases of repositories on GitHub and GitLab.
//!
//! The library holds everything the watcher decides, and proves it with Verus:
//! the [`config`] with its groups of watched repositories ([`group`], kept in
//! [`order`] of their identifiers), how it is read from and written to a stored
//! [`document`], what a fetched release page means ([`fetch`]), what a cycle
//! over all repositories changes ([`poll`]), and the machine that strings
//! cycles together ([`application`]). Reading files, fetching pages, sending
//! mail and resting are left to whoever runs that machine.

pub mod application;
pub mod config;
pub mod document;
pub mod fetch;
pub mod group;
pub mod order;
pub mod poll;
pub mod text;

pub use crate::config::default_time;
