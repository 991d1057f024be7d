pub mod parameter;
pub mod processing;
