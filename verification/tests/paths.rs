use event_modeler::event_model::yaml_types::EntityReference;
use event_modeler::infrastructure::parsing::yaml_converter::ConversionError;
use event_modeler::infrastructure::text::{extension_of, trim};
use event_modeler::infrastructure::types::{ParseError, PathBuilder};

#[test]
fn extension_follows_the_last_dot_of_the_file_name() {
    assert_eq!(extension_of("notes/readme.md"), Some("md".to_string()));
    assert_eq!(extension_of("archive.tar.gz"), Some("gz".to_string()));
    assert_eq!(extension_of("name."), Some("".to_string()));
}

#[test]
fn extension_skips_trailing_separators_and_dots() {
    assert_eq!(extension_of("docs/guide.md/"), Some("md".to_string()));
    assert_eq!(extension_of("docs/guide.md/."), Some("md".to_string()));
}

#[test]
fn no_extension_for_hidden_files_or_directories() {
    assert_eq!(extension_of("home/.bashrc"), None);
    assert_eq!(extension_of("a.d/file"), None);
    assert_eq!(extension_of("a/.."), None);
    assert_eq!(extension_of("/"), None);
    assert_eq!(extension_of(""), None);
    assert_eq!(extension_of("."), None);
}

#[test]
fn backslash_is_no_separator() {
    assert_eq!(extension_of("a.md\\b"), Some("md\\b".to_string()));
}

#[test]
fn markdown_paths_need_the_md_extension() {
    let t = PathBuilder::parse_markdown_file("docs/guide.md".to_string()).unwrap();
    assert_eq!(t.as_path_buf(), "docs/guide.md");
    assert!(matches!(
        PathBuilder::parse_markdown_file("docs/guide.txt".to_string()),
        Err(ParseError::InvalidMarkdownFile)
    ));
}

#[test]
fn event_model_files_must_exist_as_files() {
    assert!(PathBuilder::parse_event_model_file("m.eventmodel".to_string(), true, true).is_ok());
    assert!(matches!(
        PathBuilder::parse_event_model_file("m.eventmodel".to_string(), false, false),
        Err(ParseError::InvalidEventModelFile)
    ));
    assert!(matches!(
        PathBuilder::parse_event_model_file("m.eventmodel".to_string(), true, false),
        Err(ParseError::InvalidEventModelFile)
    ));
    assert!(matches!(
        PathBuilder::parse_event_model_file("m.yaml".to_string(), true, true),
        Err(ParseError::InvalidEventModelFile)
    ));
}

#[test]
fn directories_must_exist() {
    assert!(PathBuilder::parse_directory("out".to_string(), true, true).is_ok());
    assert!(matches!(
        PathBuilder::parse_directory("out".to_string(), true, false),
        Err(ParseError::InvalidDirectory)
    ));
    assert!(PathBuilder::parse_output_directory("out/svg".to_string(), true).is_ok());
    assert!(matches!(
        PathBuilder::parse_output_directory("missing/svg".to_string(), false),
        Err(ParseError::InvalidOutputDirectory)
    ));
}

#[test]
fn dotted_references_are_view_paths() {
    match EntityReference::parse("LoginScreen.CreateAccountLink") {
        Some(EntityReference::View(p)) => {
            assert_eq!(p.into_inner().as_str(), "LoginScreen.CreateAccountLink")
        }
        other => panic!("unexpected {:?}", other),
    }
}

#[test]
fn other_references_need_their_context() {
    assert!(EntityReference::parse("OrderPlaced").is_none());
    assert!(EntityReference::parse("").is_none());
}

#[test]
fn trim_drops_leading_and_trailing_white_space() {
    assert_eq!(trim("  Place Order \t\n"), "Place Order");
    assert_eq!(trim("\u{3000}x\u{a0}"), "x");
    assert_eq!(trim("   "), "");
}

#[test]
fn a_conversion_parse_error_names_its_cause() {
    assert_eq!(
        ConversionError::ParseError(ParseError::EmptyString).message(),
        "Parse error: String cannot be empty"
    );
}
