use hello_world_plugin::clock::today;
use hello_world_plugin::handlers::{GreetingFilter, HeadStyle};
use hello_world_plugin::hooks::{ActionHandler, FilterHandler, HandlerError};
use hello_world_plugin::markup::{
    append_markup, render_head_style, render_shortcode, render_widget,
};
use hello_world_plugin::HelloWorldSettings;

fn settings(text: &str, show_date: bool, css: &str) -> HelloWorldSettings {
    HelloWorldSettings {
        greeting_text: text.to_string(),
        show_date,
        custom_css: css.to_string(),
    }
}

#[test]
fn shortcode_with_date_renders_both_blocks() {
    let rendered = render_shortcode(
        &settings("Hello, World!", true, ""),
        Some("January 01, 1970".to_string()),
    );
    assert_eq!(rendered, Ok("<div class=\"hello-world-greeting\">Hello, World!</div><div class=\"hello-world-date\">Today is January 01, 1970</div>".to_string()));
}

#[test]
fn shortcode_without_date_renders_the_greeting_only() {
    let config = settings("Hi", false, "");
    assert_eq!(render_shortcode(&config, None), Ok("<div class=\"hello-world-greeting\">Hi</div>".to_string()));
    assert_eq!(
        render_shortcode(&config, Some("March 05, 2024".to_string())),
        Ok("<div class=\"hello-world-greeting\">Hi</div>".to_string())
    );
}

#[test]
fn shortcode_fails_where_the_date_is_asked_for_and_missing() {
    assert_eq!(
        render_shortcode(&settings("Hi", true, ""), None),
        Err(HandlerError::DateUnavailable)
    );
}

#[test]
fn shortcode_keeps_an_empty_greeting_and_markup_in_the_text() {
    assert_eq!(
        render_shortcode(&settings("", false, ""), None),
        Ok("<div class=\"hello-world-greeting\"></div>".to_string())
    );
    assert_eq!(
        render_shortcode(&settings("<b>&</b>", false, ""), None),
        Ok("<div class=\"hello-world-greeting\"><b>&</b></div>".to_string())
    );
}

#[test]
fn widget_renders_the_greeting_in_its_frame() {
    assert_eq!(render_widget(&settings("Hello, World!", true, "")), "<div class=\"widget hello-world-widget\">\
        \n                    <h3 class=\"widget-title\">Greeting</h3>\
        \n                    <div class=\"widget-content\">\
        \n                        <p>Hello, World!</p>\
        \n                    </div>\
        \n                </div>");
    assert_eq!(render_widget(&settings("", false, "x")), "<div class=\"widget hello-world-widget\">\
        \n                    <h3 class=\"widget-title\">Greeting</h3>\
        \n                    <div class=\"widget-content\">\
        \n                        <p></p>\
        \n                    </div>\
        \n                </div>");
}

#[test]
fn head_style_uses_the_default_rules_without_custom_css() {
    assert_eq!(render_head_style(&settings("Hi", true, "")), "<style>\
        \n                .hello-world-greeting {\
        \n                    padding: 20px;\
        \n                    background: linear-gradient(135deg, #667eea 0%, #764ba2 100%);\
        \n                    color: white;\
        \n                    border-radius: 8px;\
        \n                    margin: 20px 0;\
        \n                    font-size: 1.5em;\
        \n                    text-align: center;\
        \n                }\
        \n                .hello-world-date {\
        \n                    text-align: center;\
        \n                    color: #666;\
        \n                    font-style: italic;\
        \n                }\
        \n                .hello-world-widget {\
        \n                    background: #f5f5f5;\
        \n                    padding: 15px;\
        \n                    border-radius: 4px;\
        \n                }\
        \n                </style>");
}

#[test]
fn head_style_uses_custom_css_where_given() {
    assert_eq!(
        render_head_style(&settings("Hi", true, ".test { color: red; }")),
        "<style>.test { color: red; }</style>"
    );
    assert_eq!(render_head_style(&settings("Hi", true, " ")), "<style> </style>");
}

#[test]
fn append_markup_puts_the_suffix_behind() {
    assert_eq!(append_markup("abc", "def"), "abcdef");
    assert_eq!(append_markup("", "def"), "def");
    assert_eq!(append_markup("abc", ""), "abc");
}

#[test]
fn filters_render_as_the_markup_functions_do() {
    let widget = GreetingFilter::Widget { settings: settings("Hi", true, "") };
    assert_eq!(widget.apply("ignored"), Ok("<div class=\"widget hello-world-widget\">\
        \n                    <h3 class=\"widget-title\">Greeting</h3>\
        \n                    <div class=\"widget-content\">\
        \n                        <p>Hi</p>\
        \n                    </div>\
        \n                </div>".to_string()));
    let plain = GreetingFilter::Shortcode { settings: settings("Hi", false, "") };
    assert_eq!(plain.apply("ignored"), Ok("<div class=\"hello-world-greeting\">Hi</div>".to_string()));
    assert_eq!(GreetingFilter::Footer.apply("body"), Ok("body\
        \n                <div class=\"hello-world-footer\" style=\"font-size: 0.8em; color: #999; margin-top: 20px; padding-top: 10px; border-top: 1px solid #eee;\">\
        \n                    Powered by Hello World Plugin\
        \n                </div>".to_string()));
    assert_eq!(GreetingFilter::Footer.apply(""), Ok("\
        \n                <div class=\"hello-world-footer\" style=\"font-size: 0.8em; color: #999; margin-top: 20px; padding-top: 10px; border-top: 1px solid #eee;\">\
        \n                    Powered by Hello World Plugin\
        \n                </div>".to_string()));
}

#[test]
fn style_action_emits_the_style_element() {
    let action = HeadStyle { settings: settings("Hi", true, "p { margin: 0; }") };
    assert_eq!(action.fire(), Ok("<style>p { margin: 0; }</style>".to_string()));
}

fn utc_date_now() -> String {
    chrono::Utc::now().format("%B %d, %Y").to_string()
}

#[test]
fn today_is_the_utc_date_in_long_form() {
    let before = utc_date_now();
    let date = today().unwrap();
    let after = utc_date_now();
    assert!(date == before || date == after);
    let month = date.split(' ').next().unwrap();
    assert!(
        [
            "January", "February", "March", "April", "May", "June", "July", "August",
            "September", "October", "November", "December",
        ]
        .contains(&month)
    );
}

#[test]
fn shortcode_filter_shows_todays_date() {
    let filter = GreetingFilter::Shortcode { settings: settings("Hello, World!", true, "") };
    let before = utc_date_now();
    let rendered = filter.apply("ignored").unwrap();
    let after = utc_date_now();
    let with = |date: &str| {
        format!(
            "<div class=\"hello-world-greeting\">Hello, World!</div><div class=\"hello-world-date\">Today is {}</div>",
            date
        )
    };
    assert!(rendered == with(&before) || rendered == with(&after));
}
