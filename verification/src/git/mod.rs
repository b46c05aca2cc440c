pub mod bridge;

pub use bridge::GitBridge;
