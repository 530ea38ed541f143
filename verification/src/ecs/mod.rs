pub mod asset_manager;
pub mod component;
pub mod entity;
pub mod entity_manager;
pub mod material_register;
pub mod mesh_register;
pub mod query;
