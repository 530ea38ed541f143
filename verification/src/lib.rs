pub mod ecs;
pub mod systems;
pub mod utils;
