use rocr_panel::export::export_data;
use rocr_panel::store::{default_document, read_data};

const DEFAULT_TEXT: &str = "{\n  \"contacts\": [],\n  \"content\": {},\n  \"partners\": [],\n  \"services\": [],\n  \"team\": []\n}";

#[test]
fn default_document_is_the_skeleton() {
    assert_eq!(default_document(), DEFAULT_TEXT);
}

#[test]
fn fresh_read_returns_and_seeds_the_skeleton() {
    let (text, seed) = read_data(None);
    assert_eq!(text, DEFAULT_TEXT);
    assert!(seed);
}

#[test]
fn read_returns_existing_text_verbatim() {
    let (text, seed) = read_data(Some("{\"anything\": 1}".to_string()));
    assert_eq!(text, "{\"anything\": 1}");
    assert!(!seed);
}

#[test]
fn read_after_write_returns_what_was_written_even_if_invalid() {
    let written = "not json at all \u{1F600},,";
    let (text, seed) = read_data(Some(written.to_string()));
    assert_eq!(text, written);
    assert!(!seed);
}

#[test]
fn two_reads_with_no_write_return_the_same_text() {
    // First read of a fresh store seeds the file with what it returned.
    let (first, seed) = read_data(None);
    assert!(seed);
    let (second, seed_again) = read_data(Some(first.clone()));
    assert_eq!(second, first);
    assert!(!seed_again);
}

#[test]
fn export_json_returns_content_unchanged() {
    let content = "{\"contacts\": [1, 2]}  ";
    assert_eq!(export_data(content, "json").unwrap(), content);
}

#[test]
fn export_json_does_not_validate() {
    let content = "][ not json";
    assert_eq!(export_data(content, "json").unwrap(), content);
}

#[test]
fn export_csv_single_contact_with_unescaped_comma() {
    let content = "{\"contacts\":[{\"name\":\"Ana\",\"email\":\"a@x.com\",\"subject\":\"Hi\",\
         \"message\":\"Hello, world\",\"status\":\"new\",\"date\":\"2024-01-01\"}]}";
    assert_eq!(
        export_data(content, "csv").unwrap(),
        "name,email,subject,message,status,date\nAna,a@x.com,Hi,Hello, world,new,2024-01-01\n"
    );
}

#[test]
fn export_csv_of_empty_contacts_is_header_only() {
    assert_eq!(
        export_data(DEFAULT_TEXT, "csv").unwrap(),
        "name,email,subject,message,status,date\n"
    );
}

#[test]
fn export_csv_missing_fields_become_empty_cells() {
    let content = "{\"contacts\":[{\"email\":\"e@x\",\"date\":\"d\"},{}]}";
    assert_eq!(
        export_data(content, "csv").unwrap(),
        "name,email,subject,message,status,date\n,e@x,,,,d\n,,,,,\n"
    );
}

#[test]
fn export_csv_non_string_and_non_object_contacts_give_empty_cells() {
    let content = "{\"contacts\":[{\"name\":7,\"email\":null,\"subject\":[1],\"status\":{}},42]}";
    assert_eq!(
        export_data(content, "csv").unwrap(),
        "name,email,subject,message,status,date\n,,,,,\n,,,,,\n"
    );
}

#[test]
fn export_csv_decodes_string_escapes() {
    let content = "{\"contacts\":[{\"name\":\"\\u0041na\\n\",\"email\":\"a\\\\b\\\"c\"}]}";
    assert_eq!(
        export_data(content, "csv").unwrap(),
        "name,email,subject,message,status,date\nAna\n,a\\b\"c,,,,\n"
    );
}

#[test]
fn export_csv_decodes_surrogate_pairs() {
    let content = "{\"contacts\":[{\"name\":\"\\uD834\\uDD1E\"}]}";
    assert_eq!(
        export_data(content, "csv").unwrap(),
        "name,email,subject,message,status,date\n\u{1D11E},,,,,\n"
    );
}

#[test]
fn export_csv_last_duplicate_member_wins() {
    let content = "{\"contacts\":[{\"name\":\"first\",\"name\":\"second\"}]}";
    assert_eq!(
        export_data(content, "csv").unwrap(),
        "name,email,subject,message,status,date\nsecond,,,,,\n"
    );
}

#[test]
fn export_csv_accepts_whitespace_and_nested_values() {
    let content = " {\n\t\"extra\": [true, false, null, -1.5e+10, 0],\r\n\"contacts\" : [ {\"name\" : \"n\"} ] } ";
    assert_eq!(
        export_data(content, "csv").unwrap(),
        "name,email,subject,message,status,date\nn,,,,,\n"
    );
}

#[test]
fn export_csv_without_contacts_field_fails() {
    assert_eq!(
        export_data("{}", "csv").unwrap_err(),
        "No contacts data found"
    );
}

#[test]
fn export_csv_with_non_array_contacts_fails() {
    assert_eq!(
        export_data("{\"contacts\": 5}", "csv").unwrap_err(),
        "No contacts data found"
    );
}

#[test]
fn export_csv_of_non_object_document_fails() {
    assert_eq!(
        export_data("null", "csv").unwrap_err(),
        "No contacts data found"
    );
}

#[test]
fn export_csv_of_invalid_json_fails() {
    assert_eq!(
        export_data("{\"contacts\":[", "csv").unwrap_err(),
        "Invalid JSON data"
    );
    assert_eq!(export_data("", "csv").unwrap_err(), "Invalid JSON data");
    assert_eq!(export_data("01", "csv").unwrap_err(), "Invalid JSON data");
    assert_eq!(
        export_data("{} trailing", "csv").unwrap_err(),
        "Invalid JSON data"
    );
    assert_eq!(
        export_data("{\"contacts\":[\"\\uD834\"]}", "csv").unwrap_err(),
        "Invalid JSON data"
    );
}

#[test]
fn export_csv_accepts_strict_number_grammar() {
    let content = "{\"x\":[-0, 1e5, 0.5, -1.25E-2, 1e+3], \"contacts\":[]}";
    assert_eq!(
        export_data(content, "csv").unwrap(),
        "name,email,subject,message,status,date\n"
    );
}

#[test]
fn export_csv_rejects_malformed_numbers_and_trailing_commas() {
    for bad in [
        "{\"x\": +1, \"contacts\":[]}",
        "{\"x\": 1., \"contacts\":[]}",
        "{\"x\": .5, \"contacts\":[]}",
        "{\"x\": 1e, \"contacts\":[]}",
        "{\"contacts\":[1,]}",
        "{\"contacts\":[],}",
        "{\"contacts\":[] \"x\": 1}",
    ] {
        assert_eq!(export_data(bad, "csv").unwrap_err(), "Invalid JSON data");
    }
}

#[test]
fn export_csv_rejects_raw_control_characters_in_strings() {
    let content = "{\"contacts\":[{\"name\":\"a\tb\"}]}";
    assert_eq!(export_data(content, "csv").unwrap_err(), "Invalid JSON data");
}

#[test]
fn export_unknown_format_fails_naming_it() {
    assert_eq!(
        export_data("{}", "xml").unwrap_err(),
        "Unsupported format: xml"
    );
    assert_eq!(export_data("{}", "").unwrap_err(), "Unsupported format: ");
}

#[test]
fn export_json_after_write_round_trips() {
    let written = "{\"contacts\": [ ] , \"team\": [1,2,3]}";
    let (stored, _) = read_data(Some(written.to_string()));
    assert_eq!(export_data(&stored, "json").unwrap(), written);
}
