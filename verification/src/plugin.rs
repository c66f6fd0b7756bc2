//! The greeting plugin: its identity, its lifecycle and its settings.
//!
//! A plugin starts inactive. Activating it registers its handlers with the
//! hook registry of the context, each holding a copy of the settings as they
//! are at that moment, and keeps the tokens; deactivating it removes exactly
//! those registrations again.

use crate::handlers::{FilterView, GreetingFilter, HeadStyle};
use crate::hooks::HookRegistry;
use crate::table::{
    lemma_registered_holds, lemma_revoked_absent, lemma_revoked_registered,
    lemma_viewed_registered, lemma_viewed_revoked, registered, revoked, tokens_below, viewed,
    HookToken, Registration,
};
use crate::schema::{describe_settings, settings_schema, SchemaDocument};
use crate::settings::{default_settings, HelloWorldSettings, SettingsStore, SettingsView};
use vstd::prelude::*;
use vstd::string::StringExecFns;

verus! {

/// The hook of the greeting shortcode.
pub const SHORTCODE_HOOK: &'static str = "shortcode_hello";

/// The hook of the greeting widget.
pub const WIDGET_HOOK: &'static str = "widget_hello_world";

/// The hook that collects what goes into the page head.
pub const HEAD_HOOK: &'static str = "wp_head";

/// The hook that every content passes through.
pub const CONTENT_HOOK: &'static str = "the_content";

/// The priority of a handler that has no reason to run early or late.
pub const NORMAL_PRIORITY: i32 = 10;

/// The priority of a handler that is to run behind the others.
pub const LAST_PRIORITY: i32 = 99;

/// How many registrations one activation makes.
pub const REGISTRATIONS: u64 = 4;

/// The plugin's id.
pub const PLUGIN_ID: &'static str = "hello-world";

/// The plugin's display name.
pub const PLUGIN_NAME: &'static str = "Hello World";

/// The plugin's description.
pub const PLUGIN_DESCRIPTION: &'static str =
    "A simple example plugin that adds a greeting shortcode and widget";

/// The plugin's author.
pub const PLUGIN_AUTHOR: &'static str = "RustPress Team";

/// The hook registry that takes the greeting plugin's handlers.
pub type GreetingHooks = HookRegistry<GreetingFilter, HeadStyle>;

/// Whether a plugin's handlers are meant to be registered.
#[derive(Clone, Copy, Debug, PartialEq, Eq, Structural)]
pub enum PluginState {
    Inactive,
    Active,
}

/// A version in three numbers.
#[derive(Clone, Copy, Debug, PartialEq, Eq, Structural)]
pub struct PluginVersion {
    pub major: u64,
    pub minor: u64,
    pub patch: u64,
}

/// What identifies and describes a plugin. It is made once and not changed.
#[derive(Debug)]
pub struct PluginInfo {
    pub id: String,
    pub name: String,
    pub version: PluginVersion,
    pub description: String,
    pub author: String,
}

/// A plugin's identity, as mathematical data.
pub ghost struct InfoView {
    pub id: Seq<char>,
    pub name: Seq<char>,
    pub version: PluginVersion,
    pub description: Seq<char>,
    pub author: Seq<char>,
}

impl View for PluginInfo {
    type V = InfoView;

    open spec fn view(&self) -> InfoView {
        InfoView {
            id: self.id@,
            name: self.name@,
            version: self.version,
            description: self.description@,
            author: self.author@,
        }
    }
}

impl PluginInfo {
    /// The identity of a plugin, without description and author.
    pub fn new(id: &str, name: &str, version: PluginVersion) -> (info: Self)
        ensures
            info@ == (InfoView {
                id: id@,
                name: name@,
                version,
                description: Seq::<char>::empty(),
                author: Seq::<char>::empty(),
            }),
    {
        PluginInfo {
            id: String::from_str(id),
            name: String::from_str(name),
            version,
            description: String::new(),
            author: String::new(),
        }
    }

    /// The same identity with `description` as its description.
    pub fn with_description(self, description: &str) -> (info: Self)
        ensures
            info@ == (InfoView { description: description@, ..self@ }),
    {
        PluginInfo {
            id: self.id,
            name: self.name,
            version: self.version,
            description: String::from_str(description),
            author: self.author,
        }
    }

    /// The same identity with `author` as its author.
    pub fn with_author(self, author: &str) -> (info: Self)
        ensures
            info@ == (InfoView { author: author@, ..self@ }),
    {
        PluginInfo {
            id: self.id,
            name: self.name,
            version: self.version,
            description: self.description,
            author: String::from_str(author),
        }
    }
}

/// Why an activation did not take place.
#[derive(Clone, Copy, Debug, PartialEq, Eq, Structural)]
pub enum ActivationError {
    /// The registry has not enough sequence numbers left for the plugin's
    /// handlers.
    RegistryExhausted,
}

/// Why a step of a plugin's lifecycle failed.
#[derive(Clone, Copy, Debug, PartialEq, Eq, Structural)]
pub enum PluginError {
    Activation(ActivationError),
}

/// What the host hands to a plugin at each step of its lifecycle: the
/// services that the plugin may use. A host without hook registry leaves
/// `hooks` empty.
pub struct AppContext {
    pub hooks: Option<GreetingHooks>,
}

impl AppContext {
    /// A context without services.
    pub fn new() -> (ctx: Self)
        ensures
            ctx.hooks is None,
    {
        AppContext { hooks: None }
    }

    /// A context that offers `hooks` as its hook registry.
    pub fn with_hooks(hooks: GreetingHooks) -> (ctx: Self)
        ensures
            ctx.hooks == Some(hooks),
    {
        AppContext { hooks: Some(hooks) }
    }
}

/// The identity of the greeting plugin.
pub open spec fn greeting_plugin_info() -> InfoView {
    InfoView {
        id: PLUGIN_ID@,
        name: PLUGIN_NAME@,
        version: PluginVersion { major: 1, minor: 0, patch: 0 },
        description: PLUGIN_DESCRIPTION@,
        author: PLUGIN_AUTHOR@,
    }
}

/// The registration of the shortcode filter with a copy of `settings`.
pub open spec fn shortcode_registration(settings: SettingsView, token: u64) -> Registration<
    FilterView,
> {
    Registration {
        name: SHORTCODE_HOOK@,
        priority: NORMAL_PRIORITY,
        token,
        handler: FilterView::Shortcode { settings },
    }
}

/// The registration of the widget filter with a copy of `settings`.
pub open spec fn widget_registration(settings: SettingsView, token: u64) -> Registration<
    FilterView,
> {
    Registration {
        name: WIDGET_HOOK@,
        priority: NORMAL_PRIORITY,
        token,
        handler: FilterView::Widget { settings },
    }
}

/// The registration of the style action with a copy of `settings`.
pub open spec fn style_registration(settings: SettingsView, token: u64) -> Registration<
    SettingsView,
> {
    Registration { name: HEAD_HOOK@, priority: NORMAL_PRIORITY, token, handler: settings }
}

/// The registration of the content footer, which runs behind the other
/// filters of the content.
pub open spec fn footer_registration(token: u64) -> Registration<FilterView> {
    Registration {
        name: CONTENT_HOOK@,
        priority: LAST_PRIORITY,
        token,
        handler: FilterView::Footer,
    }
}

/// The table of filters after an activation that found the table `filters`
/// and the next sequence number `first`: the shortcode, the widget and the
/// footer are registered, with the first, second and fourth sequence number.
pub open spec fn greeting_filters(
    filters: Seq<Registration<FilterView>>,
    settings: SettingsView,
    first: u64,
) -> Seq<Registration<FilterView>> {
    registered(
        registered(
            registered(filters, shortcode_registration(settings, first)),
            widget_registration(settings, (first + 1) as u64),
        ),
        footer_registration((first + 3) as u64),
    )
}

/// The table of actions after an activation that found the table `actions`
/// and the next sequence number `first`: the style action is registered,
/// with the third sequence number.
pub open spec fn greeting_actions(
    actions: Seq<Registration<SettingsView>>,
    settings: SettingsView,
    first: u64,
) -> Seq<Registration<SettingsView>> {
    registered(actions, style_registration(settings, (first + 2) as u64))
}

/// The tokens of an activation that found the next sequence number `first`.
pub open spec fn greeting_tokens(first: u64) -> Seq<HookToken> {
    seq![
        HookToken { id: first },
        HookToken { id: (first + 1) as u64 },
        HookToken { id: (first + 2) as u64 },
        HookToken { id: (first + 3) as u64 },
    ]
}

/// A plugin, as mathematical data.
pub ghost struct PluginView {
    pub info: InfoView,
    pub state: PluginState,
    pub settings: SettingsView,
    pub tokens: Seq<HookToken>,
}

/// A plugin as it is made: inactive, with the default settings and without
/// tokens.
pub open spec fn fresh_plugin() -> PluginView {
    PluginView {
        info: greeting_plugin_info(),
        state: PluginState::Inactive,
        settings: default_settings(),
        tokens: Seq::<HookToken>::empty(),
    }
}

/// `plugin` after an activation that registered its handlers under `tokens`.
pub open spec fn activated(plugin: PluginView, tokens: Seq<HookToken>) -> PluginView {
    PluginView { state: PluginState::Active, tokens, ..plugin }
}

/// `plugin` after a deactivation.
pub open spec fn deactivated(plugin: PluginView) -> PluginView {
    PluginView { state: PluginState::Inactive, tokens: Seq::<HookToken>::empty(), ..plugin }
}

/// `plugin` after its settings were replaced by `settings`.
pub open spec fn with_settings(plugin: PluginView, settings: SettingsView) -> PluginView {
    PluginView { settings, ..plugin }
}

/// Whether `filter` renders from `settings`, if it renders from settings at
/// all.
pub open spec fn holds_settings(filter: FilterView, settings: SettingsView) -> bool {
    match filter {
        FilterView::Shortcode { settings: held } => held == settings,
        FilterView::Widget { settings: held } => held == settings,
        FilterView::Footer => true,
    }
}

/// The greeting plugin.
pub struct HelloWorldPlugin {
    info: PluginInfo,
    state: PluginState,
    settings: SettingsStore,
    tokens: Vec<HookToken>,
}

impl View for HelloWorldPlugin {
    type V = PluginView;

    closed spec fn view(&self) -> PluginView {
        PluginView {
            info: self.info@,
            state: self.state,
            settings: self.settings@,
            tokens: self.tokens@,
        }
    }
}

impl HelloWorldPlugin {
    /// A plugin that is inactive, has the default settings and has
    /// registered nothing.
    pub fn new() -> (plugin: Self)
        ensures
            plugin@ == fresh_plugin(),
    {
        let info = PluginInfo::new(
            PLUGIN_ID,
            PLUGIN_NAME,
            PluginVersion { major: 1, minor: 0, patch: 0 },
        ).with_description(PLUGIN_DESCRIPTION).with_author(PLUGIN_AUTHOR);
        HelloWorldPlugin {
            info,
            state: PluginState::Inactive,
            settings: SettingsStore::new(HelloWorldSettings::default()),
            tokens: Vec::new(),
        }
    }

    /// A copy of the current settings.
    pub fn settings(&self) -> (copy: HelloWorldSettings)
        ensures
            copy@ == self@.settings,
    {
        self.settings.read()
    }

    /// Replaces the settings by `settings`. Nothing else changes: handlers
    /// that are registered keep the copy they were built with.
    pub fn update_settings(&mut self, settings: HelloWorldSettings)
        ensures
            final(self)@ == with_settings(old(self)@, settings@),
    {
        self.settings.write(settings);
    }

    /// The plugin's identity.
    pub fn info(&self) -> (info: &PluginInfo)
        ensures
            info@ == self@.info,
    {
        &self.info
    }

    /// Whether the plugin is active.
    pub fn state(&self) -> (state: PluginState)
        ensures
            state == self@.state,
    {
        self.state
    }

    /// Registers the shortcode filter with a copy of the current settings.
    fn register_shortcodes(&self, hooks: &mut GreetingHooks) -> (token: HookToken)
        requires
            old(hooks).wf(),
            old(hooks).has_room(1),
        ensures
            final(hooks).wf(),
            token.id == old(hooks).issued(),
            final(hooks).issued() == old(hooks).issued() + 1,
            final(hooks).actions() == old(hooks).actions(),
            viewed(final(hooks).filters()) == registered(
                viewed(old(hooks).filters()),
                shortcode_registration(self@.settings, token.id),
            ),
    {
        let settings = self.settings.read();
        let handler = GreetingFilter::Shortcode { settings };
        let ghost added = Registration {
            name: SHORTCODE_HOOK@,
            priority: NORMAL_PRIORITY,
            token: hooks.issued(),
            handler,
        };
        proof {
            lemma_viewed_registered(hooks.filters(), added);
        }
        hooks.add_filter(SHORTCODE_HOOK, NORMAL_PRIORITY, handler)
    }

    /// Registers the widget filter with a copy of the current settings.
    fn register_widgets(&self, hooks: &mut GreetingHooks) -> (token: HookToken)
        requires
            old(hooks).wf(),
            old(hooks).has_room(1),
        ensures
            final(hooks).wf(),
            token.id == old(hooks).issued(),
            final(hooks).issued() == old(hooks).issued() + 1,
            final(hooks).actions() == old(hooks).actions(),
            viewed(final(hooks).filters()) == registered(
                viewed(old(hooks).filters()),
                widget_registration(self@.settings, token.id),
            ),
    {
        let settings = self.settings.read();
        let handler = GreetingFilter::Widget { settings };
        let ghost added = Registration {
            name: WIDGET_HOOK@,
            priority: NORMAL_PRIORITY,
            token: hooks.issued(),
            handler,
        };
        proof {
            lemma_viewed_registered(hooks.filters(), added);
        }
        hooks.add_filter(WIDGET_HOOK, NORMAL_PRIORITY, handler)
    }

    /// Registers the style action with a copy of the current settings.
    fn add_head_css(&self, hooks: &mut GreetingHooks) -> (token: HookToken)
        requires
            old(hooks).wf(),
            old(hooks).has_room(1),
        ensures
            final(hooks).wf(),
            token.id == old(hooks).issued(),
            final(hooks).issued() == old(hooks).issued() + 1,
            final(hooks).filters() == old(hooks).filters(),
            viewed(final(hooks).actions()) == registered(
                viewed(old(hooks).actions()),
                style_registration(self@.settings, token.id),
            ),
    {
        let settings = self.settings.read();
        let handler = HeadStyle { settings };
        let ghost added = Registration {
            name: HEAD_HOOK@,
            priority: NORMAL_PRIORITY,
            token: hooks.issued(),
            handler,
        };
        proof {
            lemma_viewed_registered(hooks.actions(), added);
        }
        hooks.add_action(HEAD_HOOK, NORMAL_PRIORITY, handler)
    }

    /// Registers the content footer, behind the other filters of the content.
    fn add_content_filter(&self, hooks: &mut GreetingHooks) -> (token: HookToken)
        requires
            old(hooks).wf(),
            old(hooks).has_room(1),
        ensures
            final(hooks).wf(),
            token.id == old(hooks).issued(),
            final(hooks).issued() == old(hooks).issued() + 1,
            final(hooks).actions() == old(hooks).actions(),
            viewed(final(hooks).filters()) == registered(
                viewed(old(hooks).filters()),
                footer_registration(token.id),
            ),
    {
        let handler = GreetingFilter::Footer;
        let ghost added = Registration {
            name: CONTENT_HOOK@,
            priority: LAST_PRIORITY,
            token: hooks.issued(),
            handler,
        };
        proof {
            lemma_viewed_registered(hooks.filters(), added);
        }
        hooks.add_filter(CONTENT_HOOK, LAST_PRIORITY, handler)
    }

    /// Activates the plugin.
    ///
    /// An active plugin stays as it is, and so does the context. An
    /// inactive plugin registers its four handlers with the hook registry
    /// of the context, each with a copy of the current settings, keeps their
    /// tokens and becomes active. Where the context has no hook registry it
    /// becomes active without registering anything. Where the registry
    /// cannot number four more registrations the activation fails, and
    /// neither the plugin nor the registry changes.
    pub fn activate(&mut self, ctx: &mut AppContext) -> (result: Result<(), PluginError>)
        requires
            old(ctx).hooks matches Some(hooks) ==> hooks.wf(),
        ensures
            result is Err <==> old(self)@.state == PluginState::Inactive && (old(
                ctx,
            ).hooks matches Some(hooks) && !hooks.has_room(REGISTRATIONS as int)),
            result matches Err(error) ==> error == PluginError::Activation(
                ActivationError::RegistryExhausted,
            ),
            result is Err || old(self)@.state == PluginState::Active ==> final(self)@ == old(self)@
                && final(ctx).hooks == old(ctx).hooks,
            result is Ok && old(self)@.state == PluginState::Inactive ==> match old(ctx).hooks {
                None => {
                    &&& final(ctx).hooks is None
                    &&& final(self)@ == activated(old(self)@, Seq::<HookToken>::empty())
                },
                Some(before) => {
                    &&& final(ctx).hooks matches Some(after)
                    &&& after.wf()
                    &&& after.issued() == before.issued() + REGISTRATIONS
                    &&& viewed(after.filters()) == greeting_filters(
                        viewed(before.filters()),
                        old(self)@.settings,
                        before.issued(),
                    )
                    &&& viewed(after.actions()) == greeting_actions(
                        viewed(before.actions()),
                        old(self)@.settings,
                        before.issued(),
                    )
                    &&& final(self)@ == activated(old(self)@, greeting_tokens(before.issued()))
                },
            },
    {
        match self.state {
            PluginState::Active => {
                return Ok(());
            },
            PluginState::Inactive => {},
        }
        let service = ctx.hooks.take();
        match service {
            None => {
                self.tokens = Vec::new();
                self.state = PluginState::Active;
                Ok(())
            },
            Some(mut hooks) => {
                if !hooks.can_register(REGISTRATIONS) {
                    ctx.hooks = Some(hooks);
                    return Err(PluginError::Activation(ActivationError::RegistryExhausted));
                }
                let shortcode = self.register_shortcodes(&mut hooks);
                let widget = self.register_widgets(&mut hooks);
                let style = self.add_head_css(&mut hooks);
                let footer = self.add_content_filter(&mut hooks);
                self.tokens = vec![shortcode, widget, style, footer];
                self.state = PluginState::Active;
                ctx.hooks = Some(hooks);
                assert(self.tokens@ =~= greeting_tokens(shortcode.id));
                Ok(())
            },
        }
    }

    /// Deactivates the plugin.
    ///
    /// The registrations that the plugin's tokens identify leave the hook
    /// registry of the context; every other registration stays. The plugin
    /// forgets its tokens and becomes inactive.
    ///
    /// Tokens are sequence numbers of one registry, so the context is meant
    /// to be the one that the plugin was activated with.
    pub fn deactivate(&mut self, ctx: &mut AppContext) -> (result: Result<(), PluginError>)
        requires
            old(ctx).hooks matches Some(hooks) ==> hooks.wf(),
        ensures
            result is Ok,
            final(self)@ == deactivated(old(self)@),
            match old(ctx).hooks {
                None => final(ctx).hooks is None,
                Some(before) => {
                    &&& final(ctx).hooks matches Some(after)
                    &&& after.wf()
                    &&& after.issued() == before.issued()
                    &&& after.filters() == revoked(before.filters(), old(self)@.tokens)
                    &&& after.actions() == revoked(before.actions(), old(self)@.tokens)
                },
            },
    {
        let service = ctx.hooks.take();
        match service {
            None => {},
            Some(mut hooks) => {
                hooks.remove_all(&self.tokens);
                ctx.hooks = Some(hooks);
            },
        }
        self.tokens = Vec::new();
        self.state = PluginState::Inactive;
        Ok(())
    }

    /// The description of the plugin's settings, for a host that offers a
    /// form to edit them. The greeting plugin always has one.
    pub fn config_schema(&self) -> (schema: Option<SchemaDocument>)
        ensures
            schema matches Some(document) && document@ == settings_schema(),
    {
        Some(describe_settings())
    }

    /// Called when the host starts. The greeting plugin has nothing to set
    /// up: neither the plugin nor the context changes.
    pub fn on_startup(&self, ctx: &AppContext) -> (result: Result<(), PluginError>)
        ensures
            result is Ok,
    {
        Ok(())
    }

    /// Called when the host shuts down. The greeting plugin has nothing to
    /// tear down: neither the plugin nor the context changes.
    pub fn on_shutdown(&self, ctx: &AppContext) -> (result: Result<(), PluginError>)
        ensures
            result is Ok,
    {
        Ok(())
    }
}

impl Default for HelloWorldPlugin {
    fn default() -> (plugin: Self)
        ensures
            plugin@ == fresh_plugin(),
    {
        Self::new()
    }
}

/// The plugin that a host loads: a new greeting plugin.
pub fn create_plugin() -> (plugin: HelloWorldPlugin)
    ensures
        plugin@ == fresh_plugin(),
{
    HelloWorldPlugin::new()
}

/// The lifecycle: a plugin is made inactive, an activation makes it active
/// and a deactivation makes it inactive, whatever it was before. Neither
/// touches the settings or the identity, and a plugin that was made,
/// activated and deactivated is as it was made.
pub proof fn lemma_lifecycle(plugin: PluginView, tokens: Seq<HookToken>)
    ensures
        fresh_plugin().state == PluginState::Inactive,
        activated(plugin, tokens).state == PluginState::Active,
        deactivated(plugin).state == PluginState::Inactive,
        activated(plugin, tokens).settings == plugin.settings,
        deactivated(plugin).settings == plugin.settings,
        activated(plugin, tokens).info == plugin.info,
        deactivated(plugin).info == plugin.info,
        deactivated(activated(fresh_plugin(), tokens)) == fresh_plugin(),
{
}

/// Settings that were written are the settings that are read, whatever was
/// there before, and writing them changes nothing else of the plugin.
pub proof fn lemma_settings_round_trip(plugin: PluginView, settings: SettingsView)
    ensures
        with_settings(plugin, settings).settings == settings,
        with_settings(plugin, settings).state == plugin.state,
        with_settings(plugin, settings).tokens == plugin.tokens,
        with_settings(plugin, settings).info == plugin.info,
{
}

/// Handlers keep the settings of their activation. After an activation and
/// a later change of the plugin's settings to `later`, every filter that one
/// of the plugin's tokens identifies still renders from the settings that
/// the plugin had when it was activated, and so does the style action. Only
/// a new activation brings the new settings into the registry.
pub proof fn lemma_snapshot_isolation(
    plugin: PluginView,
    filters: Seq<Registration<FilterView>>,
    actions: Seq<Registration<SettingsView>>,
    later: SettingsView,
    first: u64,
)
    requires
        tokens_below(filters, first as int),
        tokens_below(actions, first as int),
        first + REGISTRATIONS <= u64::MAX,
    ensures
        ({
            let updated = with_settings(activated(plugin, greeting_tokens(first)), later);
            let filters_then = greeting_filters(filters, plugin.settings, first);
            let actions_then = greeting_actions(actions, plugin.settings, first);
            &&& updated.settings == later
            &&& forall|i: int|
                0 <= i < filters_then.len() && updated.tokens.contains(
                    HookToken { id: (#[trigger] filters_then[i]).token },
                ) ==> holds_settings(filters_then[i].handler, plugin.settings)
            &&& forall|i: int|
                0 <= i < actions_then.len() && updated.tokens.contains(
                    HookToken { id: (#[trigger] actions_then[i]).token },
                ) ==> actions_then[i].handler == plugin.settings
        }),
{
    let tokens = greeting_tokens(first);
    let shortcode = shortcode_registration(plugin.settings, first);
    let widget = widget_registration(plugin.settings, (first + 1) as u64);
    let footer = footer_registration((first + 3) as u64);
    let style = style_registration(plugin.settings, (first + 2) as u64);
    let one = registered(filters, shortcode);
    let two = registered(one, widget);
    let filters_then = greeting_filters(filters, plugin.settings, first);
    let actions_then = greeting_actions(actions, plugin.settings, first);
    assert forall|i: int|
        0 <= i < filters_then.len() && tokens.contains(
            HookToken { id: (#[trigger] filters_then[i]).token },
        ) implies holds_settings(filters_then[i].handler, plugin.settings) by {
        let found = filters_then[i];
        assert(filters_then.contains(found));
        lemma_registered_holds(two, footer, found);
        lemma_registered_holds(one, widget, found);
        lemma_registered_holds(filters, shortcode, found);
        if filters.contains(found) {
            let at = choose|at: int| 0 <= at < filters.len() && filters[at] == found;
            assert(filters[at].token < first);
            let among = choose|among: int|
                0 <= among < tokens.len() && tokens[among] == HookToken { id: found.token };
            assert(false);
        }
    }
    assert forall|i: int|
        0 <= i < actions_then.len() && tokens.contains(
            HookToken { id: (#[trigger] actions_then[i]).token },
        ) implies actions_then[i].handler == plugin.settings by {
        let found = actions_then[i];
        assert(actions_then.contains(found));
        lemma_registered_holds(actions, style, found);
        if actions.contains(found) {
            let at = choose|at: int| 0 <= at < actions.len() && actions[at] == found;
            assert(actions[at].token < first);
            let among = choose|among: int|
                0 <= among < tokens.len() && tokens[among] == HookToken { id: found.token };
            assert(false);
        }
    }
}

/// An activation followed by a deactivation leaves no registration behind:
/// taking the tokens of an activation out of the tables that it made gives
/// back the tables that it found. However often a plugin is activated and
/// deactivated, its handlers do not pile up.
pub proof fn lemma_activation_is_undone(
    filters: Seq<Registration<FilterView>>,
    actions: Seq<Registration<SettingsView>>,
    settings: SettingsView,
    first: u64,
)
    requires
        tokens_below(filters, first as int),
        tokens_below(actions, first as int),
        first + REGISTRATIONS <= u64::MAX,
    ensures
        revoked(greeting_filters(filters, settings, first), greeting_tokens(first)) == filters,
        revoked(greeting_actions(actions, settings, first), greeting_tokens(first)) == actions,
{
    let tokens = greeting_tokens(first);
    assert(tokens[0] == HookToken { id: first });
    assert(tokens[1] == HookToken { id: (first + 1) as u64 });
    assert(tokens[2] == HookToken { id: (first + 2) as u64 });
    assert(tokens[3] == HookToken { id: (first + 3) as u64 });
    let one = registered(filters, shortcode_registration(settings, first));
    let two = registered(one, widget_registration(settings, (first + 1) as u64));
    lemma_revoked_registered(two, footer_registration((first + 3) as u64), tokens);
    lemma_revoked_registered(one, widget_registration(settings, (first + 1) as u64), tokens);
    lemma_revoked_registered(filters, shortcode_registration(settings, first), tokens);
    lemma_revoked_registered(actions, style_registration(settings, (first + 2) as u64), tokens);
    assert forall|i: int| 0 <= i < filters.len() implies !tokens.contains(
        HookToken { id: (#[trigger] filters[i]).token },
    ) by {}
    assert forall|i: int| 0 <= i < actions.len() implies !tokens.contains(
        HookToken { id: (#[trigger] actions[i]).token },
    ) by {}
    lemma_revoked_absent(filters, tokens);
    lemma_revoked_absent(actions, tokens);
}

/// Activating a plugin and deactivating it again gives back the registry as
/// it was found: what `activate` registers is what `deactivate` takes out,
/// and nothing else.
pub proof fn lemma_cycle_restores_registry(
    before: GreetingHooks,
    active: GreetingHooks,
    after: GreetingHooks,
    settings: SettingsView,
)
    requires
        before.wf(),
        before.has_room(REGISTRATIONS as int),
        viewed(active.filters()) == greeting_filters(
            viewed(before.filters()),
            settings,
            before.issued(),
        ),
        viewed(active.actions()) == greeting_actions(
            viewed(before.actions()),
            settings,
            before.issued(),
        ),
        after.filters() == revoked(active.filters(), greeting_tokens(before.issued())),
        after.actions() == revoked(active.actions(), greeting_tokens(before.issued())),
    ensures
        viewed(after.filters()) == viewed(before.filters()),
        viewed(after.actions()) == viewed(before.actions()),
{
    let tokens = greeting_tokens(before.issued());
    lemma_viewed_revoked(active.filters(), tokens);
    lemma_viewed_revoked(active.actions(), tokens);
    assert forall|i: int| 0 <= i < viewed(before.filters()).len() implies (#[trigger] viewed(
        before.filters(),
    )[i]).token < before.issued() by {
        assert(before.filters()[i].token < before.issued());
    }
    assert forall|i: int| 0 <= i < viewed(before.actions()).len() implies (#[trigger] viewed(
        before.actions(),
    )[i]).token < before.issued() by {
        assert(before.actions()[i].token < before.issued());
    }
    lemma_activation_is_undone(
        viewed(before.filters()),
        viewed(before.actions()),
        settings,
        before.issued(),
    );
}

} // verus!
