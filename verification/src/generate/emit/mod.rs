pub mod laws;
pub mod names;
pub mod needs;
pub mod order;
pub mod plan;
pub mod render;
