//! Verified core of a desktop anime tracker: file-name and RSS episode parsing,
//! aria2 download decisions, library grouping, settings and scheduling rules.
use vstd::prelude::*;

pub mod text;
pub mod decimal;
pub mod patterns;
pub mod filename;
pub mod rss;
pub mod subscriptions;
pub mod download;
pub mod settings;
pub mod aria2;
pub mod library;
pub mod episode_order;
pub mod scheduler;
pub mod app_state;
pub mod feedback;
pub mod mikan;
pub mod db;

verus! {

} // verus!
