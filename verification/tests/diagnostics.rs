use helix_extensions::diagnostics::external::{core_range, external_diagnostic, DiagnosticError, ExternalDiagnostic, Severity};
use helix_extensions::diagnostics::model::{
    is_path_before, DiagnosticCode, DiagnosticProvider, DiagnosticSeverity, Diagnostics, LspDiagnostic, LspPosition,
    LspRange, Published,
};
use helix_extensions::diagnostics::snapshot::{code, severity, snapshot, OffsetEncoding, RunningServer};

fn raw(message: &str) -> LspDiagnostic {
    LspDiagnostic {
        range: LspRange {
            start: LspPosition { line: 0, character: 0 },
            end: LspPosition { line: 0, character: 1 },
        },
        severity: None,
        code: None,
        source: None,
        message: message.to_string(),
    }
}

fn external(path: &str, message: &str) -> ExternalDiagnostic {
    ExternalDiagnostic {
        path: path.to_string(),
        start_line: 1,
        start_column: 1,
        end_line: 1,
        end_column: 2,
        severity: Severity::Error,
        message: message.to_string(),
        code: None,
        source: None,
    }
}

fn lsp(identifier: Option<&str>) -> DiagnosticProvider {
    DiagnosticProvider::Lsp { server: "7".to_string(), identifier: identifier.map(|text| text.to_string()) }
}

fn namespace(name: &str) -> DiagnosticProvider {
    DiagnosticProvider::External { namespace: name.to_string() }
}

#[test]
fn severity_defaults_to_warning() {
    assert_eq!(severity(None), "warning");
    assert_eq!(severity(Some(DiagnosticSeverity::Error)), "error");
}

#[test]
fn severities_have_names() {
    assert_eq!(severity(Some(DiagnosticSeverity::Warning)), "warning");
    assert_eq!(severity(Some(DiagnosticSeverity::Information)), "info");
    assert_eq!(severity(Some(DiagnosticSeverity::Hint)), "hint");
    assert_eq!(severity(Some(DiagnosticSeverity::Unknown(9))), "warning");
}

#[test]
fn codes_are_losslessly_displayable() {
    assert_eq!(code(&Some(DiagnosticCode::Number(42))), Some("42".to_string()));
    assert_eq!(code(&Some(DiagnosticCode::Text("E042".to_string()))), Some("E042".to_string()));
}

#[test]
fn negative_codes_keep_their_sign() {
    assert_eq!(code(&Some(DiagnosticCode::Number(-7))), Some("-7".to_string()));
    assert_eq!(code(&Some(DiagnosticCode::Number(i32::MIN))), Some("-2147483648".to_string()));
    assert_eq!(code(&None), None);
}

#[test]
fn rejects_zero_and_reversed_positions() {
    let make = |start_line, start_column, end_line, end_column| ExternalDiagnostic {
        path: "test.rs".to_string(),
        start_line,
        start_column,
        end_line,
        end_column,
        severity: Severity::Error,
        message: "problem".to_string(),
        code: None,
        source: None,
    };
    assert!(make(0, 1, 1, 1).into_lsp().is_err());
    assert!(make(2, 1, 1, 1).into_lsp().is_err());
    assert!(make(1, 1, 1, 2).into_lsp().is_ok());
    assert_eq!(make(1, 0, 1, 1).into_lsp().unwrap_err(), DiagnosticError::ZeroPosition);
    assert_eq!(make(1, 2, 1, 1).into_lsp().unwrap_err(), DiagnosticError::ReversedRange);
    assert_eq!(make(1, 1, 1 << 40, 1).into_lsp().unwrap_err(), DiagnosticError::PositionTooLarge);
}

#[test]
fn positions_count_from_zero_in_the_protocol() {
    let (path, diagnostic) = ExternalDiagnostic { code: Some("E1".to_string()), ..external("test.rs", "problem") }
        .into_lsp()
        .unwrap();
    assert_eq!(path, "test.rs");
    assert_eq!(diagnostic.range.start, LspPosition { line: 0, character: 0 });
    assert_eq!(diagnostic.range.end, LspPosition { line: 0, character: 1 });
    assert_eq!(diagnostic.message, "problem");
    assert!(matches!(diagnostic.code, Some(DiagnosticCode::Text(code)) if code == "E1"));
}

#[test]
fn replacement_and_clear_preserve_lsp_and_other_namespaces() {
    let mut diagnostics = Diagnostics::new();
    diagnostics.add_item("test.rs".to_string(), Published { diagnostic: raw("lsp"), provider: lsp(None) });
    diagnostics.add_item("test.rs".to_string(), Published { diagnostic: raw("old first"), provider: namespace("first") });
    diagnostics.add_item("test.rs".to_string(), Published { diagnostic: raw("second"), provider: namespace("second") });

    diagnostics.publish_external_diagnostics("first", vec![external("test.rs", "new first")]).unwrap();
    let holds = |diagnostics: &Diagnostics, message: &str, provider: &DiagnosticProvider| {
        diagnostics.files[0]
            .items
            .iter()
            .any(|item| item.diagnostic.message == message && item.provider.same(provider))
    };
    assert_eq!(diagnostics.files.len(), 1);
    assert_eq!(diagnostics.files[0].items.len(), 3);
    assert!(holds(&diagnostics, "lsp", &lsp(None)));
    assert!(holds(&diagnostics, "second", &namespace("second")));
    assert!(holds(&diagnostics, "new first", &namespace("first")));

    diagnostics.clear_external_diagnostics("first");
    assert_eq!(diagnostics.files[0].items.len(), 2);
    assert!(diagnostics.files[0].items.iter().all(|item| !item.provider.same(&namespace("first"))));
}

#[test]
fn clamps_an_external_end_position_to_document_end() {
    let text = "abc\n";
    let (start, end) = core_range(Some(1), None, text.chars().count()).unwrap();
    assert_eq!(start, 1);
    assert_eq!(end, text.chars().count());
}

#[test]
fn a_range_without_a_start_is_dropped() {
    assert_eq!(core_range(None, Some(2), 4), None);
    assert_eq!(core_range(Some(1), Some(2), 4), Some((1, 2)));
}

#[test]
fn a_refused_publication_changes_nothing() {
    let mut diagnostics = Diagnostics::new();
    diagnostics.publish_external_diagnostics("a", vec![external("x.rs", "kept")]).unwrap();
    let bad = ExternalDiagnostic { start_line: 0, ..external("y.rs", "bad") };
    assert_eq!(
        diagnostics.publish_external_diagnostics("a", vec![external("y.rs", "good"), bad]).unwrap_err(),
        DiagnosticError::ZeroPosition
    );
    assert_eq!(diagnostics.publish_external_diagnostics("", vec![]).unwrap_err(), DiagnosticError::EmptyNamespace);
    assert_eq!(diagnostics.files.len(), 1);
    assert_eq!(diagnostics.files[0].items[0].diagnostic.message, "kept");
    assert_eq!(
        DiagnosticError::EmptyNamespace.message(),
        "external diagnostic namespace cannot be empty"
    );
}

#[test]
fn files_without_diagnostics_are_dropped_and_paths_are_in_order() {
    let mut diagnostics = Diagnostics::new();
    let all = vec![external("b.rs", "1"), external("a.rs", "2"), external("b.rs", "3")];
    diagnostics.publish_external_diagnostics("a", all).unwrap();
    let paths: Vec<&str> = diagnostics.files.iter().map(|file| file.uri.as_str()).collect();
    assert_eq!(paths, vec!["a.rs", "b.rs"]);
    assert_eq!(diagnostics.files[1].items.len(), 2);
    assert!(diagnostics.external_diagnostics_clear("a").is_ok());
    assert!(diagnostics.files.is_empty());
    assert!(diagnostics.external_diagnostics_clear(" ").is_err());
    assert!(is_path_before("a", "b"));
    assert!(!is_path_before("b", "b"));
}

#[test]
fn severities_are_given_by_name() {
    let make = |name: &str| {
        external_diagnostic("x.rs".to_string(), 1, 1, 1, 1, name, "m".to_string(), None, Some("lint".to_string()))
    };
    assert_eq!(make("hint").unwrap().severity, Severity::Hint);
    assert_eq!(make("info").unwrap().severity, Severity::Info);
    assert_eq!(make("warning").unwrap().severity, Severity::Warning);
    assert_eq!(make("error").unwrap().severity, Severity::Error);
    assert_eq!(make("fatal").unwrap_err(), DiagnosticError::UnknownSeverity);
}

#[test]
fn a_snapshot_accounts_for_every_diagnostic() {
    let mut diagnostics = Diagnostics::new();
    diagnostics.add_item("x.rs".to_string(), Published { diagnostic: raw("gone"), provider: lsp(None) });
    diagnostics.add_item("x.rs".to_string(), Published { diagnostic: raw("ext"), provider: namespace("a") });
    let batch = snapshot(&diagnostics, &vec![]);
    assert_eq!(batch.items.len(), 1);
    assert_eq!(batch.omitted, 1);
    assert_eq!(batch.items[0].provider_kind, "external");
    assert_eq!(batch.items[0].provider_id, "a");
    assert_eq!(batch.items[0].offset_encoding, OffsetEncoding::Utf8);
    assert_eq!(batch.items[0].start_line(), 1);
    assert_eq!(batch.items[0].end_column(), 2);

    diagnostics.add_item("x.rs".to_string(), Published { diagnostic: raw("id"), provider: lsp(Some("cargo")) });
    let server = RunningServer { id: "7".to_string(), offset_encoding: OffsetEncoding::Utf16 };
    let batch = snapshot(&diagnostics, &vec![server]);
    assert_eq!(batch.omitted, 0);
    let ids: Vec<&str> = batch.items.iter().map(|item| item.provider_id.as_str()).collect();
    assert_eq!(ids, vec!["7", "a", "7:cargo"]);
    assert_eq!(batch.items[0].offset_encoding, OffsetEncoding::Utf16);
    assert_eq!(batch.items[2].provider_namespace, Some("cargo".to_string()));
}

#[test]
fn a_location_without_a_path_is_left_out_and_stays_so() {
    let mut diagnostics = Diagnostics::new();
    diagnostics.add_item("untitled:1".to_string(), Published { diagnostic: raw("lsp"), provider: lsp(None) });
    diagnostics.files[0].has_path = false;
    diagnostics.publish_external_diagnostics("a", vec![external("untitled:1", "ext"), external("x.rs", "ext")]).unwrap();
    let batch = snapshot(&diagnostics, &vec![]);
    assert_eq!(batch.items.len(), 1);
    assert_eq!(batch.items[0].path, "x.rs");
    assert_eq!(batch.omitted, 2);
}
