//! Verified core of the MikanPlus client: domain model, source access policy,
//! page parsing, cache and storage rules, download bookkeeping and navigation.

pub mod error;
pub mod text;
pub mod assoc;
pub mod network;
pub mod download;
pub mod paths;
pub mod model;
pub mod html;
pub mod parser;
pub mod cache;
pub mod navigation;
pub mod display;
pub mod listing;
pub mod library;
pub mod state;
