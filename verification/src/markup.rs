//! The markup that the greeting plugin renders.

use crate::clock::date_text;
use crate::hooks::{outcome_of, HandlerError, Outcome};
use crate::settings::{HelloWorldSettings, SettingsView};
use vstd::prelude::*;
use vstd::string::StringExecFns;

verus! {

/// Opens the greeting block.
pub const GREETING_OPEN: &'static str = "<div class=\"hello-world-greeting\">";

/// Opens the date block.
pub const DATE_OPEN: &'static str = "<div class=\"hello-world-date\">Today is ";

/// Closes a greeting or date block.
pub const BLOCK_CLOSE: &'static str = "</div>";

/// The widget's markup before the greeting text.
pub const WIDGET_OPEN: &'static str = "<div class=\"widget hello-world-widget\">\
    \n                    <h3 class=\"widget-title\">Greeting</h3>\
    \n                    <div class=\"widget-content\">\
    \n                        <p>";

/// The widget's markup behind the greeting text.
pub const WIDGET_CLOSE: &'static str = "</p>\n                    </div>\n                </div>";

/// The footer that is put behind every content.
pub const CONTENT_FOOTER: &'static str = "\
    \n                <div class=\"hello-world-footer\" style=\"font-size: 0.8em; color: #999; margin-top: 20px; padding-top: 10px; border-top: 1px solid #eee;\">\
    \n                    Powered by Hello World Plugin\
    \n                </div>";

/// The style rules used where the settings give none.
pub const DEFAULT_STYLE: &'static str = "\
    \n                .hello-world-greeting {\
    \n                    padding: 20px;\
    \n                    background: linear-gradient(135deg, #667eea 0%, #764ba2 100%);\
    \n                    color: white;\
    \n                    border-radius: 8px;\
    \n                    margin: 20px 0;\
    \n                    font-size: 1.5em;\
    \n                    text-align: center;\
    \n                }\
    \n                .hello-world-date {\
    \n                    text-align: center;\
    \n                    color: #666;\
    \n                    font-style: italic;\
    \n                }\
    \n                .hello-world-widget {\
    \n                    background: #f5f5f5;\
    \n                    padding: 15px;\
    \n                    border-radius: 4px;\
    \n                }\
    \n                ";

/// Opens the style element.
pub const STYLE_OPEN: &'static str = "<style>";

/// Closes the style element.
pub const STYLE_CLOSE: &'static str = "</style>";

/// The greeting block around `text`.
pub open spec fn greeting_block(text: Seq<char>) -> Seq<char> {
    GREETING_OPEN@ + text + BLOCK_CLOSE@
}

/// The date block around the date `today`.
pub open spec fn date_block(today: Seq<char>) -> Seq<char> {
    DATE_OPEN@ + today + BLOCK_CLOSE@
}

/// What the greeting shortcode renders from `settings`, where `today` is the
/// date to show, if one could be had: the greeting block, followed by the
/// date block where the settings ask for the date. Where they ask for it and
/// there is none, the shortcode fails.
pub open spec fn shortcode_outcome(settings: SettingsView, today: Option<Seq<char>>) -> Outcome {
    if !settings.show_date {
        Ok(greeting_block(settings.greeting_text))
    } else {
        match today {
            Some(date) => Ok(greeting_block(settings.greeting_text) + date_block(date)),
            None => Err(HandlerError::DateUnavailable),
        }
    }
}

/// What the greeting widget renders from `settings`.
pub open spec fn widget_markup(settings: SettingsView) -> Seq<char> {
    WIDGET_OPEN@ + settings.greeting_text + WIDGET_CLOSE@
}

/// The style rules that `settings` select: their own, or the default ones
/// where they give none.
pub open spec fn selected_style(settings: SettingsView) -> Seq<char> {
    if settings.custom_css.len() == 0 {
        DEFAULT_STYLE@
    } else {
        settings.custom_css
    }
}

/// The style element that the plugin puts into the page head.
pub open spec fn head_style(settings: SettingsView) -> Seq<char> {
    STYLE_OPEN@ + selected_style(settings) + STYLE_CLOSE@
}

/// Renders the greeting shortcode from `settings`, with `today` as the date
/// to show, if one could be had.
pub fn render_shortcode(settings: &HelloWorldSettings, today: Option<String>) -> (result: Result<
    String,
    HandlerError,
>)
    ensures
        outcome_of(result) == shortcode_outcome(settings@, date_text(today)),
{
    let mut output = String::from_str(GREETING_OPEN);
    output.append(settings.greeting_text.as_str());
    output.append(BLOCK_CLOSE);
    if settings.show_date {
        match today {
            Some(date) => {
                output.append(DATE_OPEN);
                output.append(date.as_str());
                output.append(BLOCK_CLOSE);
                assert(output@ =~= greeting_block(settings@.greeting_text) + date_block(date@));
            },
            None => {
                return Err(HandlerError::DateUnavailable);
            },
        }
    }
    Ok(output)
}

/// Renders the greeting widget from `settings`.
pub fn render_widget(settings: &HelloWorldSettings) -> (markup: String)
    ensures
        markup@ == widget_markup(settings@),
{
    let mut markup = String::from_str(WIDGET_OPEN);
    markup.append(settings.greeting_text.as_str());
    markup.append(WIDGET_CLOSE);
    markup
}

/// Renders the style element for the page head from `settings`.
pub fn render_head_style(settings: &HelloWorldSettings) -> (markup: String)
    ensures
        markup@ == head_style(settings@),
{
    let mut markup = String::from_str(STYLE_OPEN);
    if settings.custom_css.as_str().is_empty() {
        markup.append(DEFAULT_STYLE);
    } else {
        markup.append(settings.custom_css.as_str());
    }
    markup.append(STYLE_CLOSE);
    markup
}

/// Puts `suffix` behind `content`.
pub fn append_markup(content: &str, suffix: &str) -> (markup: String)
    ensures
        markup@ == content@ + suffix@,
{
    let mut markup = String::from_str(content);
    markup.append(suffix);
    markup
}

} // verus!
