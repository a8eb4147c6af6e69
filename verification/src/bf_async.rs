pub mod process;
pub mod video;
