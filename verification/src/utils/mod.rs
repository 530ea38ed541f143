pub mod file;
pub mod tools;
pub mod mesh;
