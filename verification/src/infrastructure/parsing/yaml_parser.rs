//! The YAML Event Model format as read from a file, before validation.
//!
//! These types mirror the structure of `.eventmodel` files. Keyed sections
//! (events, commands, data fields, ...) are lists of (key, value) pairs;
//! slices keep the file's order in an `IndexMap`. Reading a file into these
//! types is done by the application with serde; this module decides what
//! the result of that reading is.

use crate::infrastructure::text::{append_str, push_decimal};
use indexmap::IndexMap;
use vstd::prelude::*;

verus! {

/// An `IndexMap` from the `indexmap` crate: a map that keeps insertion
/// order.
#[verifier::external_type_specification]
#[verifier::external_body]
#[verifier::reject_recursive_types(K)]
#[verifier::reject_recursive_types(V)]
#[verifier::reject_recursive_types(S)]
pub struct ExIndexMap<K, V, S>(IndexMap<K, V, S>);

/// An error reported by `serde_yaml`.
#[verifier::external_type_specification]
#[verifier::external_body]
pub struct ExSerdeYamlError(serde_yaml::Error);

/// The entries of a slice map, in insertion order: each slice's name and
/// its connection strings.
pub uninterp spec fn slice_entries(m: IndexMap<String, Vec<String>>) -> Seq<(Seq<char>, Seq<Seq<char>>)>;

/// A list of texts as sequences of characters.
pub open spec fn texts(v: Seq<String>) -> Seq<Seq<char>> {
    v.map_values(|s: String| s@)
}

/// Calls `IndexMap::len`: the number of entries.
#[verifier::external_body]
pub(crate) fn slice_count(m: &IndexMap<String, Vec<String>>) -> (r: usize)
    ensures
        r == slice_entries(*m).len(),
{
    m.len()
}

/// Calls `IndexMap::get_index`: the entry at position `i` in insertion
/// order (which exists for `i` below the length), copied.
#[verifier::external_body]
pub(crate) fn slice_at(m: &IndexMap<String, Vec<String>>, i: usize) -> (r: (String, Vec<String>))
    requires
        i < slice_entries(*m).len(),
    ensures
        r.0@ == slice_entries(*m)[i as int].0,
        texts(r.1@) == slice_entries(*m)[i as int].1,
{
    let (name, connections) = m.get_index(i).unwrap();
    (name.clone(), connections.clone())
}

/// The version of this library, used for files that do not give one.
pub const VERSION: &'static str = "0.1.0";

/// Root structure of an Event Model YAML file.
#[derive(Debug)]
pub struct YamlEventModel {
    /// Optional version field, defaults to current application version.
    pub version: Option<String>,
    /// The name of the workflow being modeled.
    pub workflow: String,
    /// Swimlane definitions.
    pub swimlanes: Vec<YamlSwimlane>,
    /// Event definitions by name.
    pub events: Vec<(String, YamlEvent)>,
    /// Command definitions by name.
    pub commands: Vec<(String, YamlCommand)>,
    /// View definitions by name.
    pub views: Vec<(String, YamlView)>,
    /// Projection definitions by name.
    pub projections: Vec<(String, YamlProjection)>,
    /// Query definitions by name.
    pub queries: Vec<(String, YamlQuery)>,
    /// Automation definitions by name.
    pub automations: Vec<(String, YamlAutomation)>,
    /// Slice definitions: name to connection strings, in file order.
    pub slices: IndexMap<String, Vec<String>>,
}

/// Swimlane definition.
#[derive(Debug, Clone)]
pub enum YamlSwimlane {
    /// Simple format: just a name.
    Simple(String),
    /// Map format: key is identifier, value is display name.
    Mapped(Vec<(String, String)>),
}

/// Event entity definition.
#[derive(Debug, Clone)]
pub struct YamlEvent {
    /// Event description.
    pub description: String,
    /// Swimlane this event belongs to.
    pub swimlane: String,
    /// Event data schema.
    pub data: Vec<(String, YamlField)>,
}

/// Command entity definition.
#[derive(Debug, Clone)]
pub struct YamlCommand {
    /// Command description.
    pub description: String,
    /// Swimlane this command belongs to.
    pub swimlane: String,
    /// Command data schema.
    pub data: Vec<(String, YamlField)>,
    /// Test scenarios.
    pub tests: Vec<(String, YamlTestScenario)>,
}

/// View entity definition.
#[derive(Debug, Clone)]
pub struct YamlView {
    /// View description.
    pub description: String,
    /// Swimlane this view belongs to.
    pub swimlane: String,
    /// UI components.
    pub components: Vec<YamlComponent>,
}

/// Projection entity definition.
#[derive(Debug, Clone)]
pub struct YamlProjection {
    /// Projection description.
    pub description: String,
    /// Swimlane this projection belongs to.
    pub swimlane: String,
    /// Projection fields.
    pub fields: Vec<(String, String)>,
}

/// Query entity definition.
#[derive(Debug, Clone)]
pub struct YamlQuery {
    /// Swimlane this query belongs to.
    pub swimlane: String,
    /// Query inputs.
    pub inputs: Vec<(String, String)>,
    /// Query outputs.
    pub outputs: YamlQueryOutput,
}

/// Query output structure.
#[derive(Debug, Clone)]
pub struct YamlQueryOutput {
    /// One-of output variants.
    pub one_of: Vec<(String, YamlQueryVariant)>,
}

/// Query output variant.
#[derive(Debug, Clone)]
pub enum YamlQueryVariant {
    /// Simple type reference.
    Simple(String),
    /// Complex output with fields.
    Complex(Vec<(String, String)>),
}

/// Automation entity definition.
#[derive(Debug, Clone)]
pub struct YamlAutomation {
    /// Swimlane this automation belongs to.
    pub swimlane: String,
}

/// Field definition in data schemas.
#[derive(Debug, Clone)]
pub enum YamlField {
    /// Simple type reference.
    Simple(String),
    /// Complex field with properties.
    Complex {
        /// The field's type.
        field_type: String,
        /// Whether the field identifies the stream.
        stream_id: bool,
        /// Whether the field's value is generated.
        generated: bool,
    },
}

/// Test scenario definition.
#[derive(Debug, Clone)]
pub struct YamlTestScenario {
    /// Given section - initial state.
    pub given: Vec<YamlTestStep>,
    /// When section - action to test.
    pub when: Vec<YamlTestStep>,
    /// Then section - expected outcome.
    pub then: Vec<YamlTestStep>,
}

impl YamlTestScenario {
    /// The steps of the Then section.
    pub open spec fn expected_steps(self) -> Seq<YamlTestStep> {
        let YamlTestScenario { then: expected, .. } = self;
        expected@
    }

    /// The steps of the Then section.
    pub fn expected(&self) -> (r: &Vec<YamlTestStep>)
        ensures
            r@ == self.expected_steps(),
    {
        let YamlTestScenario { then: expected, .. } = self;
        expected
    }
}

/// Test step in a scenario.
#[derive(Debug, Clone)]
pub struct YamlTestStep {
    /// Entity name and its data.
    pub step: Vec<(String, Vec<(String, String)>)>,
}

/// UI component definition.
#[derive(Debug, Clone)]
pub enum YamlComponent {
    /// Simple component with just a name and type.
    Simple {
        /// Component names to types.
        component: Vec<(String, String)>,
    },
    /// Complex component with nested structure.
    Complex {
        /// Component names to their definitions.
        component: Vec<(String, YamlComplexComponent)>,
    },
}

/// Complex UI component with nested properties.
#[derive(Debug, Clone)]
pub struct YamlComplexComponent {
    /// The component's type.
    pub component_type: String,
    /// Field names to types.
    pub fields: Vec<(String, String)>,
    /// Actions offered.
    pub actions: Vec<String>,
}

/// Errors that can occur during YAML parsing.
#[derive(Debug)]
pub enum YamlParseError {
    /// YAML syntax error without location information.
    YamlError(serde_yaml::Error),
    /// Version incompatibility error.
    VersionMismatch {
        /// Version the file gives.
        file_version: String,
        /// Version of this library.
        app_version: String,
    },
    /// YAML parsing error with location information.
    ParseError {
        /// Line of the error.
        line: usize,
        /// Column of the error.
        column: usize,
        /// What went wrong.
        message: String,
    },
}

/// Calls `Display` of `serde_yaml::Error`: its message. The text is the
/// reader's own and nothing is claimed about it.
#[verifier::external_body]
fn reader_message(e: &serde_yaml::Error) -> (r: String) {
    format!("{}", e)
}

impl YamlParseError {
    /// The error message. For a syntax error without a location, the text
    /// after the prefix is the reader's own message.
    pub fn message(&self) -> (r: String)
        ensures
            self is YamlError ==> exists|t: Seq<char>| r@ == "YAML syntax error: "@ + t,
            self matches YamlParseError::VersionMismatch { file_version, app_version } ==> r@
                == "Schema version mismatch: file version "@ + file_version@
                + " is not compatible with application version "@ + app_version@,
            self matches YamlParseError::ParseError { line, column, message } ==> r@
                == "YAML error at line "@ + crate::infrastructure::text::decimal(*line as nat) + ", column "@
                + crate::infrastructure::text::decimal(*column as nat) + ": "@ + message@,
    {
        match self {
            YamlParseError::YamlError(e) => {
                let mut m = "YAML syntax error: ".to_owned();
                let text = reader_message(e);
                append_str(&mut m, text.as_str());
                m
            },
            YamlParseError::VersionMismatch { file_version, app_version } => {
                let mut m = "Schema version mismatch: file version ".to_owned();
                append_str(&mut m, file_version.as_str());
                append_str(&mut m, " is not compatible with application version ");
                append_str(&mut m, app_version.as_str());
                m
            },
            YamlParseError::ParseError { line, column, message } => {
                let mut m = "YAML error at line ".to_owned();
                push_decimal(&mut m, *line as u64);
                append_str(&mut m, ", column ");
                push_decimal(&mut m, *column as u64);
                append_str(&mut m, ": ");
                append_str(&mut m, message.as_str());
                m
            },
        }
    }
}

/// The error for a YAML document that could not be read: with its
/// location when the reader gave one, else the reader's own error.
pub fn syntax_error(location: Option<(usize, usize)>, message: String, error: serde_yaml::Error) -> (r:
    YamlParseError)
    ensures
        match location {
            Some((line, column)) => r matches YamlParseError::ParseError { line: l, column: c, message: m } && l
                == line && c == column && m@ == message@,
            None => r is YamlError,
        },
{
    match location {
        Some((line, column)) => YamlParseError::ParseError { line, column, message },
        None => YamlParseError::YamlError(error),
    }
}

/// A model read from a file, with this library's version where the file
/// gives none; any version is accepted before 1.0.
pub fn with_default_version(model: YamlEventModel) -> (r: Result<YamlEventModel, YamlParseError>)
    ensures
        r matches Ok(m) && m.version matches Some(v) && (model.version matches Some(given) ==> v@ == given@) && (
        model.version is None ==> v@ == VERSION@) && m.workflow == model.workflow && m.swimlanes == model.swimlanes
            && m.events == model.events && m.commands == model.commands && m.views == model.views
            && m.projections == model.projections && m.queries == model.queries && m.automations
            == model.automations && m.slices == model.slices,
{
    let mut model = model;
    if model.version.is_none() {
        model.version = Some(VERSION.to_owned());
    }
    Ok(model)
}

/// Whether a file version is compatible with the application version:
/// before 1.0 every version is.
pub fn is_version_compatible(file_version: &str, app_version: &str) -> (r: bool)
    ensures
        r,
{
    true
}

} // verus!
