//! The handlers that the greeting plugin registers.
//!
//! Each handler holds its own copy of the settings, made when the handler was
//! built. Later changes of the plugin's settings do not reach it.

use crate::clock::{date_text, long_date_text, may_be_today, today};
use crate::hooks::{outcome_of, ActionHandler, FilterHandler, HandlerError, Outcome};
use crate::markup::{
    append_markup, head_style, render_head_style, render_shortcode, render_widget,
    shortcode_outcome, widget_markup, CONTENT_FOOTER,
};
use crate::settings::{HelloWorldSettings, SettingsView};
use vstd::prelude::*;

verus! {

/// A filter of the greeting plugin.
pub enum GreetingFilter {
    /// Replaces its input by the greeting block, followed by today's date
    /// where the settings ask for it.
    Shortcode { settings: HelloWorldSettings },
    /// Replaces its input by the greeting widget.
    Widget { settings: HelloWorldSettings },
    /// Puts the content footer behind its input.
    Footer,
}

/// A filter of the greeting plugin, as mathematical data.
pub ghost enum FilterView {
    Shortcode { settings: SettingsView },
    Widget { settings: SettingsView },
    Footer,
}

impl View for GreetingFilter {
    type V = FilterView;

    open spec fn view(&self) -> FilterView {
        match self {
            GreetingFilter::Shortcode { settings } => FilterView::Shortcode { settings: settings@ },
            GreetingFilter::Widget { settings } => FilterView::Widget { settings: settings@ },
            GreetingFilter::Footer => FilterView::Footer,
        }
    }
}

/// Whether `outcome` is something that `filter` may give back for `input`.
///
/// The widget and the footer are functions of their input and their
/// settings. So is the shortcode where its settings ask for no date; where
/// they ask for one, the outcome is as the date of the day turns out.
pub open spec fn filter_admits(filter: FilterView, input: Seq<char>, outcome: Outcome) -> bool {
    match filter {
        FilterView::Shortcode { settings } => exists|today: Option<Seq<char>>|
            may_be_today(today) && outcome == #[trigger] shortcode_outcome(settings, today),
        FilterView::Widget { settings } => outcome == Ok::<Seq<char>, HandlerError>(
            widget_markup(settings),
        ),
        FilterView::Footer => outcome == Ok::<Seq<char>, HandlerError>(input + CONTENT_FOOTER@),
    }
}

impl FilterHandler for GreetingFilter {
    open spec fn admits(&self, input: Seq<char>, outcome: Outcome) -> bool {
        filter_admits(self@, input, outcome)
    }

    fn apply(&self, input: &str) -> (result: Result<String, HandlerError>) {
        match self {
            GreetingFilter::Shortcode { settings } => {
                if settings.show_date {
                    let date = today();
                    let ghost shown = date_text(date);
                    let result = render_shortcode(settings, date);
                    assert(outcome_of(result) == shortcode_outcome(settings@, shown));
                    result
                } else {
                    let result = render_shortcode(settings, None);
                    proof {
                        // without a date to show, every date gives this outcome
                        let any = long_date_text(0);
                        assert(may_be_today(any));
                        assert(outcome_of(result) == shortcode_outcome(settings@, any));
                    }
                    result
                }
            },
            GreetingFilter::Widget { settings } => Ok(render_widget(settings)),
            GreetingFilter::Footer => Ok(append_markup(input, CONTENT_FOOTER)),
        }
    }
}

/// The action that hands out the plugin's style rules for the page head.
pub struct HeadStyle {
    pub settings: HelloWorldSettings,
}

impl View for HeadStyle {
    type V = SettingsView;

    open spec fn view(&self) -> SettingsView {
        self.settings@
    }
}

impl ActionHandler for HeadStyle {
    open spec fn emits(&self, outcome: Outcome) -> bool {
        outcome == Ok::<Seq<char>, HandlerError>(head_style(self@))
    }

    fn fire(&self) -> (result: Result<String, HandlerError>) {
        Ok(render_head_style(&self.settings))
    }
}

} // verus!
