pub mod context;
pub mod descriptor;
pub mod laws;
pub mod pattern;
pub mod registry;

pub use crate::context::PluginContext;
pub use crate::descriptor::{DeclarationError, PluginMeta, TeloxidePlugin};
pub use crate::registry::{dispatch, register_plugin, Registry};

