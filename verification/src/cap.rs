pub mod clip;
pub mod op;
