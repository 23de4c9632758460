//! What each route answers.

pub mod list;
pub mod meta;
pub mod source;
pub mod streamingpath;
pub mod thumbnail;
