//! A description of the plugin's settings for a host that offers a form to
//! edit them: one entry for each field, with its name, its type, a title, a
//! description and the default value. It describes; it enforces nothing.

use crate::settings::{default_settings, HelloWorldSettings};
use vstd::prelude::*;
use vstd::string::StringExecFns;

verus! {

/// The type of a settings field.
#[derive(Clone, Copy, Debug, PartialEq, Eq, Structural)]
pub enum FieldType {
    Text,
    Boolean,
}

/// The default value of a settings field.
#[derive(Clone, Debug)]
pub enum FieldDefault {
    Text(String),
    Flag(bool),
}

/// The default value of a settings field, as mathematical data.
pub ghost enum DefaultView {
    Text(Seq<char>),
    Flag(bool),
}

impl View for FieldDefault {
    type V = DefaultView;

    open spec fn view(&self) -> DefaultView {
        match self {
            FieldDefault::Text(text) => DefaultView::Text(text@),
            FieldDefault::Flag(flag) => DefaultView::Flag(*flag),
        }
    }
}

/// The description of one settings field.
#[derive(Debug)]
pub struct SchemaField {
    pub name: String,
    pub kind: FieldType,
    pub title: String,
    pub description: String,
    pub default: FieldDefault,
}

/// The description of one settings field, as mathematical data.
pub ghost struct FieldView {
    pub name: Seq<char>,
    pub kind: FieldType,
    pub title: Seq<char>,
    pub description: Seq<char>,
    pub default: DefaultView,
}

impl View for SchemaField {
    type V = FieldView;

    open spec fn view(&self) -> FieldView {
        FieldView {
            name: self.name@,
            kind: self.kind,
            title: self.title@,
            description: self.description@,
            default: self.default@,
        }
    }
}

/// The description of a settings object: its fields, in order.
#[derive(Debug)]
pub struct SchemaDocument {
    pub fields: Vec<SchemaField>,
}

impl View for SchemaDocument {
    type V = Seq<FieldView>;

    open spec fn view(&self) -> Seq<FieldView> {
        self.fields@.map_values(|field: SchemaField| field@)
    }
}

/// The description of the greeting plugin's settings. The defaults that it
/// names are those that a plugin starts with.
pub open spec fn settings_schema() -> Seq<FieldView> {
    seq![
        FieldView {
            name: "greeting_text"@,
            kind: FieldType::Text,
            title: "Greeting Text"@,
            description: "The text to display in the greeting"@,
            default: DefaultView::Text(default_settings().greeting_text),
        },
        FieldView {
            name: "show_date"@,
            kind: FieldType::Boolean,
            title: "Show Date"@,
            description: "Whether to show the current date"@,
            default: DefaultView::Flag(default_settings().show_date),
        },
        FieldView {
            name: "custom_css"@,
            kind: FieldType::Text,
            title: "Custom CSS"@,
            description: "Custom CSS styles for the plugin"@,
            default: DefaultView::Text(default_settings().custom_css),
        },
    ]
}

/// Describes the greeting plugin's settings.
pub fn describe_settings() -> (document: SchemaDocument)
    ensures
        document@ == settings_schema(),
{
    let defaults = HelloWorldSettings::default();
    let mut fields: Vec<SchemaField> = Vec::new();
    fields.push(
        SchemaField {
            name: String::from_str("greeting_text"),
            kind: FieldType::Text,
            title: String::from_str("Greeting Text"),
            description: String::from_str("The text to display in the greeting"),
            default: FieldDefault::Text(defaults.greeting_text),
        },
    );
    fields.push(
        SchemaField {
            name: String::from_str("show_date"),
            kind: FieldType::Boolean,
            title: String::from_str("Show Date"),
            description: String::from_str("Whether to show the current date"),
            default: FieldDefault::Flag(defaults.show_date),
        },
    );
    fields.push(
        SchemaField {
            name: String::from_str("custom_css"),
            kind: FieldType::Text,
            title: String::from_str("Custom CSS"),
            description: String::from_str("Custom CSS styles for the plugin"),
            default: FieldDefault::Text(defaults.custom_css),
        },
    );
    let document = SchemaDocument { fields };
    assert(document@ =~= settings_schema());
    document
}

} // verus!
