//! A plugin registry: accounts and API tokens, plugin and version metadata,
//! an artifact store keyed by path, and the pipeline that turns an uploaded
//! package into stored artifacts and metadata rows.

pub mod archive;
pub mod cli;
pub mod db;
pub mod error;
pub mod front;
pub mod manifest;
pub mod models;
pub mod paths;
pub mod plugin;
pub mod publish;
pub mod search;
pub mod seqs;
pub mod session;
pub mod storage;
pub mod text;
pub mod time;
pub mod token;
pub mod version;
