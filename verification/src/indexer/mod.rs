pub mod scoring;
pub mod url;
pub mod robots;
pub mod sitemaps;
pub mod localization;
pub mod page;
