//! Bike maintenance tracking: parts, gear, attachments and usage accounting.

pub mod error;
pub mod timestamp;
pub mod uuids;
pub mod usage;
pub mod types;
pub mod user;
pub mod text;
pub mod part;
pub mod shop;
pub mod activity;
pub mod session;
pub mod test_support;
pub mod attachment;
pub mod service;
pub mod serviceplan;
pub mod store;
pub mod summary;
pub mod seqs;
pub mod timeline;
pub mod subscription;
pub mod assembly;
pub mod descent;
pub mod db;
pub mod partnote;
pub mod purge;
pub mod account;
pub mod fixtures;
pub mod snapshot;
