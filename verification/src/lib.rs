//! Selection logic of a GitHub file and release downloader: repository
//! references, release and asset choice, token resolution, and the small
//! decisions around downloading, extracting and installing.

pub mod text;
pub mod github;
pub mod pattern;
pub mod asset;
pub mod asset_order;
pub mod agent;
pub mod reference;
pub mod release;
pub mod weburl;
pub mod cli;
pub mod prompt;
pub mod install;
pub mod highlight;
