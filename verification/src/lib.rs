pub mod text;
pub mod sanitize;
pub mod user_agents;
pub mod data_pool;
pub mod error;
pub mod url_parts;
pub mod indexer;
pub mod db;
pub mod models;
pub mod indexing;
pub mod api;
pub mod debug;
pub mod pages;
pub mod schemas;
pub mod searching;
