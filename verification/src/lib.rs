//! Decision logic of an on-the-fly audio processing server.
//!
//! Every rule the server follows stands here as a verified function over plain
//! values; sockets, files and the codec library stay with the caller.

pub mod blob;
pub mod cache;
pub mod disk_evictor;
pub mod ffmpeg;
pub mod float64;
pub mod inflight;
pub mod middleware;
pub mod paths;
pub mod processor;
pub mod routes;
pub mod storage;
pub mod streamingpath;
pub mod tags;
pub mod text;
pub mod thumbnail;
pub mod utils;
