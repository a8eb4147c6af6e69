//! Content-addressed frame extraction: naming of videos by their MD5 digest,
//! a path model for the names the pipeline builds, the rule that picks which
//! decoded frames are kept, and the planning around reading videos out of
//! parquet columns and writing them back to disk.

pub mod text;
pub mod digest;
pub mod path;
pub mod naming;
pub mod sampler;
pub mod hyper;
pub mod frames;
pub mod clip;
pub mod cap;
pub mod video;
pub mod tk;
pub mod bf_async;
pub mod column;
pub mod bucket;
pub mod pq;
pub mod storage;
pub mod op;
pub mod plan;
