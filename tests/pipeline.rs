use clerk::classify::{chat_request, classify_response, MAX_TOKENS};
use clerk::entry::{extension_of, is_document_name, plan_entry, EntryAction};
use clerk::extract::{content_of, extract, normalize_content, ExtractionOutcome};
use clerk::prompt::{prompt, FileObject};
use clerk::schema::{Category, CategorySchema, ConfigError};
use clerk::validate::{check_members, out_of_vocabulary, parse_completion, ValidationError};

fn s(t: &str) -> String {
    t.to_string()
}

fn type_schema() -> CategorySchema {
    CategorySchema::new(vec![Category { name: s("type"), values: vec![s("invoice"), s("report")] }])
        .unwrap()
}

fn two_schema() -> CategorySchema {
    CategorySchema::new(vec![
        Category { name: s("type"), values: vec![s("invoice"), s("report")] },
        Category { name: s("year"), values: vec![s("2022"), s("2023")] },
    ])
    .unwrap()
}

#[test]
fn prompt_names_schema_and_file() {
    let p = prompt(
        &type_schema(),
        FileObject { path: s("a.pdf"), content: s("Invoice #123 total due") },
    );
    for part in ["type", "\"invoice\"", "\"report\"", "a.pdf", "Invoice #123 total due"] {
        assert!(p.contains(part), "missing {}", part);
    }
}

#[test]
fn prompt_exact_text() {
    let p = prompt(&type_schema(), FileObject { path: s("a.pdf"), content: s("hi") });
    let expected = "Analyze the path and content of the object below and label it with a type value from the list\n\ntype: [\n\"invoice\",\n\"report\",\n]\n\n####\nObject: {\n  path: \"a.pdf\",\n  content: \"hi\",\n}\n####\n\nUse known values from the lists above when assigning labels if a label cannot be determined assign Unknown. Return a JSON string with values for type and path.";
    assert_eq!(p, expected);
}

#[test]
fn prompt_joins_category_names() {
    let p = prompt(&two_schema(), FileObject { path: s("b"), content: s("") });
    assert!(p.ends_with("Return a JSON string with values for type, year and path."));
    assert!(p.find("type: [").unwrap() < p.find("year: [").unwrap());
}

#[test]
fn prompt_is_deterministic() {
    let a = prompt(&two_schema(), FileObject { path: s("x.pdf"), content: s("c") });
    let b = prompt(&two_schema(), FileObject { path: s("x.pdf"), content: s("c") });
    assert_eq!(a, b);
}

#[test]
fn excluded_extension_is_skipped() {
    assert_eq!(plan_entry("archive.zip", false, &vec![s("zip")]), EntryAction::Skip);
    assert_eq!(plan_entry("./docs/archive.zip", false, &vec![s("zip")]), EntryAction::Skip);
}

#[test]
fn directory_is_skipped() {
    assert_eq!(plan_entry("./docs", true, &vec![]), EntryAction::Skip);
}

#[test]
fn pdf_is_read_and_other_files_have_no_content() {
    assert_eq!(plan_entry("a.pdf", false, &vec![s("zip")]), EntryAction::ReadDocument);
    assert_eq!(plan_entry("notes.txt", false, &vec![s("zip")]), EntryAction::NoContent);
}

#[test]
fn unsupported_file_yields_empty_content() {
    match extract("notes.txt", None, 100) {
        ExtractionOutcome::Content(c) => assert_eq!(c, ""),
        other => panic!("unexpected {:?}", other),
    }
}

#[test]
fn extension_rules() {
    assert_eq!(extension_of("archive.zip"), "zip");
    assert_eq!(extension_of("a.tar.gz"), "gz");
    assert_eq!(extension_of("README"), "README");
    assert_eq!(extension_of("./dir/file"), "/dir/file");
    assert_eq!(extension_of("trailing."), "");
    assert!(is_document_name("x.pdf"));
    assert!(!is_document_name("pdf"));
}

#[test]
fn whitespace_runs_collapse() {
    assert_eq!(normalize_content("a \t\n b\n\nc", 100), "a b c");
    assert_eq!(normalize_content("  lead", 100), " lead");
    assert_eq!(normalize_content("x\u{a0}\u{3000}y", 100), "x y");
}

#[test]
fn long_content_is_cut_to_the_bound() {
    let out = normalize_content("abcdef   ghij", 5);
    assert_eq!(out, "abcde");
    assert_eq!(out.chars().count(), 5);
    assert_eq!(normalize_content("héllo wörld", 7), "héllo w");
    assert_eq!(normalize_content("short", 0), "");
}

#[test]
fn normalising_twice_changes_nothing() {
    let once = normalize_content("a  b\t\tc d   e", 6);
    assert_eq!(normalize_content(&once, 6), once);
    let first = extract("a.pdf", Some(Ok(s("one  two"))), 50);
    let second = extract("a.pdf", Some(Ok(s("one  two"))), 50);
    match (first, second) {
        (ExtractionOutcome::Content(a), ExtractionOutcome::Content(b)) => {
            assert_eq!(a, "one two");
            assert_eq!(a, b);
        }
        _ => panic!("expected content"),
    }
}

#[test]
fn reader_failure_becomes_empty_content() {
    let outcome = extract("bad.pdf", Some(Err(s("corrupt"))), 50);
    assert!(matches!(&outcome, ExtractionOutcome::Failure(r) if r == "corrupt"));
    assert_eq!(content_of(outcome), "");
}

#[test]
fn valid_completion_is_accepted() {
    let r = parse_completion(&type_schema(), "{\"type\":\"invoice\",\"path\":\"a.pdf\"}").unwrap();
    assert_eq!(r.path, "a.pdf");
    assert_eq!(r.labels, vec![(s("type"), s("invoice"))]);
    assert_eq!(r.entries(), vec![(s("type"), s("invoice")), (s("path"), s("a.pdf"))]);
}

#[test]
fn non_json_completion_is_rejected() {
    let r = parse_completion(&type_schema(), "The file is an invoice.");
    assert!(matches!(r, Err(ValidationError::Malformed)));
}

#[test]
fn non_string_value_is_rejected() {
    let r = parse_completion(&type_schema(), "{\"type\":3,\"path\":\"a.pdf\"}");
    assert!(matches!(r, Err(ValidationError::Malformed)));
}

#[test]
fn missing_key_is_rejected() {
    let r = parse_completion(&two_schema(), "{\"type\":\"invoice\",\"path\":\"a.pdf\"}");
    assert!(matches!(r, Err(ValidationError::MissingKey(k)) if k == "year"));
    let r = parse_completion(&type_schema(), "{\"type\":\"invoice\"}");
    assert!(matches!(r, Err(ValidationError::MissingKey(k)) if k == "path"));
}

#[test]
fn unexpected_key_is_rejected() {
    let r = parse_completion(
        &type_schema(),
        "{\"type\":\"invoice\",\"path\":\"a.pdf\",\"mood\":\"calm\"}",
    );
    assert!(matches!(r, Err(ValidationError::UnexpectedKey(k)) if k == "mood"));
}

#[test]
fn members_are_checked_in_schema_order() {
    let r = check_members(
        &two_schema(),
        vec![(s("year"), s("2023")), (s("path"), s("p")), (s("type"), s("report"))],
    )
    .unwrap();
    assert_eq!(r.labels, vec![(s("type"), s("report")), (s("year"), s("2023"))]);
    assert_eq!(r.path, "p");
}

#[test]
fn labels_outside_the_vocabulary_are_reported() {
    let schema = two_schema();
    let r = parse_completion(&schema, "{\"type\":\"memo\",\"year\":\"Unknown\",\"path\":\"p\"}")
        .unwrap();
    assert_eq!(out_of_vocabulary(&schema, &r), vec![s("type")]);
    let ok = parse_completion(&schema, "{\"type\":\"report\",\"year\":\"2022\",\"path\":\"p\"}")
        .unwrap();
    assert!(out_of_vocabulary(&schema, &ok).is_empty());
}

#[test]
fn first_choice_is_classified() {
    let schema = type_schema();
    let r = classify_response(
        &schema,
        vec![Some(s("{\"type\":\"report\",\"path\":\"r.pdf\"}")), Some(s("garbage"))],
    )
    .unwrap();
    assert_eq!(r.labels, vec![(s("type"), s("report"))]);
    assert!(matches!(classify_response(&schema, vec![]), Err(ValidationError::NoCompletion)));
    assert!(matches!(classify_response(&schema, vec![None]), Err(ValidationError::NoCompletion)));
}

#[test]
fn request_settings() {
    let r = chat_request(s("hello"));
    assert_eq!(r.model, "gpt-4");
    assert_eq!(r.max_tokens, 512);
    assert_eq!(MAX_TOKENS, 512);
    assert_eq!(r.system_message, "hello");
}

#[test]
fn schema_rejects_bad_entries() {
    let empty_name = CategorySchema::new(vec![Category { name: s(""), values: vec![] }]);
    assert!(matches!(empty_name, Err(ConfigError::EmptyCategoryName)));
    let empty_value =
        CategorySchema::new(vec![Category { name: s("type"), values: vec![s("a"), s("")] }]);
    assert!(matches!(empty_value, Err(ConfigError::EmptyValue(n)) if n == "type"));
    let dup = CategorySchema::new(vec![
        Category { name: s("type"), values: vec![] },
        Category { name: s("type"), values: vec![s("x")] },
    ]);
    assert!(matches!(dup, Err(ConfigError::DuplicateCategory(n)) if n == "type"));
}

#[test]
fn schema_keeps_order_and_allows_empty_value_lists() {
    let schema = CategorySchema::new(vec![
        Category { name: s("b"), values: vec![] },
        Category { name: s("a"), values: vec![s("v")] },
    ])
    .unwrap();
    assert_eq!(schema.len(), 2);
    assert_eq!(schema.category(0).name, "b");
    assert_eq!(schema.category(1).values, vec![s("v")]);
}

#[test]
fn unread_document_is_a_failure() {
    assert!(matches!(extract("a.pdf", None, 10), ExtractionOutcome::Failure(r) if r.is_empty()));
    assert!(matches!(extract("a.txt", Some(Ok(s("text"))), 10), ExtractionOutcome::Content(c) if c.is_empty()));
}
