pub mod animation_system;
pub mod event_system;
pub mod rendering_system;
