pub mod edit;
pub mod interfaces;
pub mod modules;

pub use edit::ConfigEdit;
pub use interfaces::{InterfaceConfig, InterfaceDataTypes};
pub use modules::{DependencyConfig, ModuleConfig};
