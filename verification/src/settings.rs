//! Plugin settings and the store that holds them.

use vstd::prelude::*;
use vstd::string::StringExecFns;

verus! {

/// What a settings value holds, as mathematical data.
pub ghost struct SettingsView {
    pub greeting_text: Seq<char>,
    pub show_date: bool,
    pub custom_css: Seq<char>,
}

/// The configurable values of the greeting plugin.
#[derive(Debug)]
pub struct HelloWorldSettings {
    pub greeting_text: String,
    pub show_date: bool,
    pub custom_css: String,
}

impl View for HelloWorldSettings {
    type V = SettingsView;

    open spec fn view(&self) -> SettingsView {
        SettingsView {
            greeting_text: self.greeting_text@,
            show_date: self.show_date,
            custom_css: self.custom_css@,
        }
    }
}

/// The settings a plugin starts with.
pub open spec fn default_settings() -> SettingsView {
    SettingsView {
        greeting_text: "Hello, World!"@,
        show_date: true,
        custom_css: Seq::<char>::empty(),
    }
}

impl Default for HelloWorldSettings {
    fn default() -> (settings: Self)
        ensures
            settings@ == default_settings(),
    {
        HelloWorldSettings {
            greeting_text: String::from_str("Hello, World!"),
            show_date: true,
            custom_css: String::new(),
        }
    }
}

impl Clone for HelloWorldSettings {
    /// An independent copy: equal field by field, sharing nothing.
    fn clone(&self) -> (copy: Self)
        ensures
            copy == *self,
    {
        HelloWorldSettings {
            greeting_text: self.greeting_text.clone(),
            show_date: self.show_date,
            custom_css: self.custom_css.clone(),
        }
    }
}

/// Holds the current settings of one plugin.
///
/// Readers get copies, and a write replaces the whole value at once: a write
/// needs the store exclusively, so no reader can see part of a new value.
pub struct SettingsStore {
    current: HelloWorldSettings,
}

impl View for SettingsStore {
    type V = SettingsView;

    closed spec fn view(&self) -> SettingsView {
        self.current@
    }
}

impl SettingsStore {
    /// A store that holds `initial`.
    pub fn new(initial: HelloWorldSettings) -> (store: Self)
        ensures
            store@ == initial@,
    {
        SettingsStore { current: initial }
    }

    /// A copy of the current settings.
    pub fn read(&self) -> (copy: HelloWorldSettings)
        ensures
            copy@ == self@,
    {
        self.current.clone()
    }

    /// Replaces the current settings with `new`.
    pub fn write(&mut self, new: HelloWorldSettings)
        ensures
            final(self)@ == new@,
    {
        self.current = new;
    }
}

/// Reading a store after a write gives back what was written, whatever the
/// store held before.
pub proof fn lemma_write_then_read(
    before: SettingsStore,
    after: SettingsStore,
    written: HelloWorldSettings,
    read_back: HelloWorldSettings,
)
    requires
        after@ == written@,
        read_back@ == after@,
    ensures
        read_back@ == written@,
{
}

} // verus!
