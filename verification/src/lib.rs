//! Verified core of the mod archive: reservation of content ids, the rules
//! that decide who may change a post, the strings the service builds for its
//! search index and its links, and the shapes of the data it hands out.

pub mod text;
pub mod reservation;
pub mod regroup;
pub mod models;
pub mod access;
pub mod search;
pub mod session;
pub mod sitemap;
pub mod extract;
pub mod listing;
pub mod api;
