use pgx_entity_graph::control_file::{ControlFile, ControlFileError};

fn parsed(text: &str) -> ControlFile {
    ControlFile::from_str(text).expect("the manifest parses")
}

const MINIMAL: &str = "comment = 'c'\ndefault_version = '1'\nmodule_pathname = 'm'\n";

#[test]
fn parses_the_demo_manifest() {
    let control = parsed(
        "comment = 'demo'\ndefault_version = '1.0'\nmodule_pathname = '$libdir/demo'\nrelocatable = true",
    );
    assert_eq!(
        control,
        ControlFile {
            comment: "demo".to_string(),
            default_version: "1.0".to_string(),
            module_pathname: "$libdir/demo".to_string(),
            relocatable: true,
            superuser: false,
            schema: None,
        }
    );
}

#[test]
fn missing_comment_is_named() {
    let r = ControlFile::from_str("default_version = '1.0'\nmodule_pathname = 'm'\n");
    assert_eq!(r, Err(ControlFileError::MissingField { field: "comment" }));
}

#[test]
fn missing_default_version_is_named() {
    let r = ControlFile::from_str("comment = 'c'\nmodule_pathname = 'm'\n");
    assert_eq!(r, Err(ControlFileError::MissingField { field: "default_version" }));
}

#[test]
fn missing_module_pathname_is_named() {
    let r = ControlFile::from_str("comment = 'c'\ndefault_version = '1.0'\n");
    assert_eq!(r, Err(ControlFileError::MissingField { field: "module_pathname" }));
}

#[test]
fn first_missing_field_is_reported() {
    assert_eq!(
        ControlFile::from_str(""),
        Err(ControlFileError::MissingField { field: "comment" })
    );
    assert_eq!(
        ControlFile::from_str("comment = x"),
        Err(ControlFileError::MissingField { field: "default_version" })
    );
}

#[test]
fn relocatable_is_true_only_for_the_exact_word() {
    assert!(parsed(&format!("{}relocatable = 'true'", MINIMAL)).relocatable);
    assert!(parsed(&format!("{}relocatable = true", MINIMAL)).relocatable);
    assert!(!parsed(&format!("{}relocatable = 'True'", MINIMAL)).relocatable);
    assert!(!parsed(&format!("{}relocatable = '1'", MINIMAL)).relocatable);
    assert!(!parsed(&format!("{}relocatable = 'false'", MINIMAL)).relocatable);
    assert!(!parsed(&format!("{}relocatable = 'true '", MINIMAL)).relocatable);
    assert!(!parsed(MINIMAL).relocatable);
}

#[test]
fn superuser_is_true_only_for_the_exact_word() {
    assert!(parsed(&format!("{}superuser = 'true'", MINIMAL)).superuser);
    assert!(!parsed(&format!("{}superuser = 'TRUE'", MINIMAL)).superuser);
    assert!(!parsed(&format!("{}superuser = 'yes'", MINIMAL)).superuser);
    assert!(!parsed(MINIMAL).superuser);
}

#[test]
fn schema_is_kept_when_present() {
    assert_eq!(parsed(&format!("{}schema = 'demo'", MINIMAL)).schema, Some("demo".to_string()));
    assert_eq!(parsed(MINIMAL).schema, None);
}

#[test]
fn the_last_entry_of_a_key_wins() {
    let control = parsed("comment = 'first'\ndefault_version = '1'\nmodule_pathname = 'm'\ncomment = 'second'\n");
    assert_eq!(control.comment, "second");
}

#[test]
fn lines_without_an_equals_sign_are_ignored() {
    let control = parsed("# a manifest\n\ncomment = 'c'\nnoise\ndefault_version = '1'\nmodule_pathname = 'm'");
    assert_eq!(control.comment, "c");
    assert_eq!(control.default_version, "1");
    assert_eq!(control.module_pathname, "m");
}

#[test]
fn a_line_is_split_at_its_first_equals_sign() {
    let control = parsed(&format!("{}schema = a = b", MINIMAL));
    assert_eq!(control.schema, Some("a = b".to_string()));
}

#[test]
fn one_layer_of_quotes_is_removed() {
    let control = parsed(&format!("{}schema = ''demo''", MINIMAL));
    assert_eq!(control.schema, Some("'demo'".to_string()));
    let control = parsed(&format!("{}schema = 'demo", MINIMAL));
    assert_eq!(control.schema, Some("demo".to_string()));
    let control = parsed(&format!("{}schema = demo'", MINIMAL));
    assert_eq!(control.schema, Some("demo".to_string()));
    let control = parsed(&format!("{}schema = '", MINIMAL));
    assert_eq!(control.schema, Some("".to_string()));
}

#[test]
fn whitespace_inside_the_quotes_is_kept() {
    let control = parsed(&format!("{}schema = ' demo '", MINIMAL));
    assert_eq!(control.schema, Some(" demo ".to_string()));
}

#[test]
fn keys_and_values_are_trimmed() {
    let control = parsed("\t comment\t=\t'c' \r\n  default_version=1  \r\nmodule_pathname =\u{a0}'m'\u{3000}\r\n");
    assert_eq!(control.comment, "c");
    assert_eq!(control.default_version, "1");
    assert_eq!(control.module_pathname, "m");
}

#[test]
fn text_outside_ascii_is_kept() {
    let control = parsed("comment = 'd\u{e9}mo \u{1f980}'\ndefault_version = '1'\nmodule_pathname = 'm'");
    assert_eq!(control.comment, "d\u{e9}mo \u{1f980}");
}

#[test]
fn an_empty_value_is_a_value() {
    let control = parsed("comment =\ndefault_version = ''\nmodule_pathname = 'm'");
    assert_eq!(control.comment, "");
    assert_eq!(control.default_version, "");
}

#[test]
fn the_root_renders_to_the_header_comment() {
    assert_eq!(
        parsed(MINIMAL).to_sql(),
        "/* \nThis file is auto generated by pgx.\n\nThe ordering of items is not stable, it is driven by a dependency graph.\n*/"
    );
}

#[test]
fn the_root_is_identified_as_extension_root() {
    assert_eq!(parsed(MINIMAL).dot_identifier(), "extension root");
}

#[test]
fn a_missing_field_says_what_to_add() {
    let e = ControlFileError::MissingField { field: "comment" };
    assert_eq!(e.message(), "Missing field in control file! Please add `comment`.");
}
