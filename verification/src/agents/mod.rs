pub mod coder;
pub mod initializer;

pub use coder::CoderAgent;
pub use initializer::InitializerAgent;

