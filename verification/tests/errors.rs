use toml2json::error::ConvertError;
use toml2json::json::{check_files, Entry, Json};

#[test]
fn no_input_files_is_missing_arguments() {
    let files: Vec<String> = Vec::new();
    assert_eq!(check_files(&files), Err(ConvertError::MissingArguments));
    let files = vec![String::from("a.toml")];
    assert_eq!(check_files(&files), Ok(()));
}

#[test]
fn body_line_without_equals_aborts() {
    let src = "[a]\nstray\n";
    let r = Json::from_source("t.toml", src);
    assert!(matches!(r, Err(ConvertError::MalformedEntry)));
}

#[test]
fn entry_without_equals_is_malformed() {
    assert!(matches!(Entry::new("just words"), Err(ConvertError::MalformedEntry)));
}

#[test]
fn header_without_closing_bracket_is_malformed() {
    let src = "[a\nx = 1\n";
    let r = Json::from_source("t.toml", src);
    assert!(matches!(r, Err(ConvertError::MalformedHeader)));
}

#[test]
fn empty_header_brackets_are_malformed() {
    let src = "[]\nx = 1\n";
    let r = Json::from_source("t.toml", src);
    assert!(matches!(r, Err(ConvertError::MalformedHeader)));
}

#[test]
fn unclosed_inline_object_is_malformed() {
    let src = "[a]\nobj = { x = 1\n";
    let json = Json::from_source("t.toml", src).unwrap();
    let r = json.to_document_text();
    assert!(matches!(r, Err(ConvertError::MalformedInlineObject)));
}

#[test]
fn inline_member_without_equals_is_malformed() {
    let src = "[a]\nobj = { x }\n";
    let json = Json::from_source("t.toml", src).unwrap();
    let r = json.to_pretty_json();
    assert!(matches!(r, Err(ConvertError::MalformedInlineObject)));
}

#[test]
fn bad_entry_key_fails_block_validation() {
    let src = "[a]\nx\"y = 1\n";
    let json = Json::from_source("t.toml", src).unwrap();
    let r = json.to_pretty_json();
    assert!(matches!(r, Err(ConvertError::StructuralValidationFailure)));
}

#[test]
fn bad_block_name_fails_document_validation() {
    let src = "[a\"b]\nx = 1\n";
    let json = Json::from_source("t.toml", src).unwrap();
    let r = json.to_pretty_json();
    assert!(matches!(r, Err(ConvertError::StructuralValidationFailure)));
}

#[test]
fn error_messages_are_stable() {
    assert_eq!(ConvertError::MissingArguments.message(), "No files provided");
    assert_eq!(ConvertError::FileNotFound.message(), "File doesn't exist");
    assert_eq!(ConvertError::IoFailure.message(), "Unable to read or write file");
    assert_eq!(ConvertError::MalformedHeader.message(), "Invalid TOML block");
    assert_eq!(ConvertError::MalformedEntry.message(), "Line is not a valid TOML entry");
    assert_eq!(ConvertError::MalformedInlineObject.message(), "Invalid inline TOML object");
    assert_eq!(ConvertError::StructuralValidationFailure.message(), "Invalid json structure");
}
