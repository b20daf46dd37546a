pub mod dependency;
pub mod error;
pub mod metadata;
pub mod ops;
pub mod python_environment;
pub mod version;
