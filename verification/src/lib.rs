//! A greeting plugin built on a hook registry.
//!
//! The crate offers a dispatch table of named hooks whose handlers run in
//! priority order, a small settings store, and a plugin that registers
//! greeting handlers which render from a snapshot of its settings.

pub mod clock;
pub mod handlers;
pub mod hooks;
pub mod markup;
pub mod plugin;
pub mod schema;
pub mod settings;
pub mod table;

pub use hooks::{ActionHandler, FilterHandler, HandlerError, HookRegistry};
pub use plugin::{
    create_plugin, ActivationError, AppContext, GreetingHooks, HelloWorldPlugin, PluginError,
    PluginInfo, PluginState, PluginVersion,
};
pub use settings::{HelloWorldSettings, SettingsStore, SettingsView};
pub use table::HookToken;
