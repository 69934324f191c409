use summon_bridge::diag::{Diagnostic, DiagnosticsIndex, Level, format_diagnostic};
use summon_bridge::errs::BridgeError;
use summon_bridge::filemap::{FileMap, bridge_host_object, translate_callback_outcome};
use summon_bridge::inputs::parse_public_inputs;
use summon_bridge::outcome::{CompileOutcome, assemble_envelope, collapse_single_error, prepare_compile};

fn diag(level: Level, message: &str) -> Diagnostic {
    Diagnostic { level, message: message.to_string() }
}

fn index_of(entries: Vec<(&str, Vec<Diagnostic>)>) -> DiagnosticsIndex {
    let owned: Vec<(String, Vec<Diagnostic>)> =
        entries.into_iter().map(|(p, ds)| (p.to_string(), ds)).collect();
    DiagnosticsIndex::from_entries(owned).unwrap()
}

#[test]
fn value_bridge_two_entries() {
    let pairs = vec![
        ("a.sm".to_string(), "let x = 1;".to_string()),
        ("b.sm".to_string(), "let y = 2;".to_string()),
    ];
    let map = FileMap::from_pairs(pairs).unwrap();
    assert_eq!(map.len(), 2);
    assert!(map.contains_key(&"a.sm".to_string()));
    assert!(map.contains_key(&"b.sm".to_string()));
    assert_eq!(map.resolve(&"a.sm".to_string()).unwrap().as_str(), "let x = 1;");
    assert_eq!(map.resolve(&"b.sm".to_string()).unwrap().as_str(), "let y = 2;");
}

#[test]
fn value_bridge_duplicate_path_is_input_error() {
    let pairs = vec![
        ("a.sm".to_string(), "first".to_string()),
        ("a.sm".to_string(), "second".to_string()),
    ];
    match FileMap::from_pairs(pairs) {
        Err(BridgeError::Input(_)) => {}
        other => panic!("expected an input error, got {:?}", other.map(|m| m.len())),
    }
}

#[test]
fn resolve_missing_path_is_resolution_error() {
    let map = FileMap::from_pairs(vec![("a.sm".to_string(), "x".to_string())]).unwrap();
    match map.resolve(&"nope.sm".to_string()) {
        Err(BridgeError::Resolution(m)) => {
            assert_eq!(m, "File not found: nope.sm");
        }
        other => panic!("expected a resolution error, got {:?}", other),
    }
}

#[test]
fn insert_rejects_present_path() {
    let mut map = FileMap::new();
    assert!(map.insert("a.sm".to_string(), "x".to_string()));
    assert!(!map.insert("a.sm".to_string(), "y".to_string()));
    assert_eq!(map.len(), 1);
    assert_eq!(map.resolve(&"a.sm".to_string()).unwrap().as_str(), "x");
}

#[test]
fn callback_outcome_string_result_passes_through() {
    let r = translate_callback_outcome(Ok(Some("let x = 1;".to_string())));
    assert_eq!(r.unwrap(), "let x = 1;");
}

#[test]
fn callback_outcome_non_string_result_is_conversion_error() {
    let r = translate_callback_outcome(Ok(None));
    assert_eq!(r.unwrap_err(), "Failed to convert JsValue to String");
}

#[test]
fn callback_outcome_thrown_string_passes_through() {
    let r = translate_callback_outcome(Err(Some("no such file".to_string())));
    assert_eq!(r.unwrap_err(), "no such file");
}

#[test]
fn callback_outcome_thrown_non_string_is_unknown_error() {
    let r = translate_callback_outcome(Err(None));
    assert_eq!(r.unwrap_err(), "Unknown error");
}

#[test]
fn single_error_collapse_formats_level() {
    let idx = index_of(vec![("main.sm", vec![diag(Level::Error, "bad type")])]);
    assert_eq!(idx.single_error_message(), "Error: bad type");
}

#[test]
fn single_error_fallback_on_lint_only() {
    let idx = index_of(vec![
        ("main.sm", vec![diag(Level::Lint, "unused variable")]),
        ("lib.sm", vec![diag(Level::CompilerDebug, "trace")]),
    ]);
    assert_eq!(idx.single_error_message(), "InternalError: Could not find error");
}

#[test]
fn single_error_skips_non_terminating_levels() {
    let idx = index_of(vec![
        ("a.sm", vec![diag(Level::Lint, "style"), diag(Level::CompilerDebug, "trace")]),
        ("b.sm", vec![diag(Level::Lint, "style"), diag(Level::InternalError, "boom")]),
        ("c.sm", vec![diag(Level::Error, "late")]),
    ]);
    assert_eq!(idx.single_error_message(), "InternalError: boom");
}

#[test]
fn find_first_terminating_respects_order() {
    let idx = index_of(vec![
        ("a.sm", vec![diag(Level::Lint, "style")]),
        ("b.sm", vec![diag(Level::Error, "first"), diag(Level::Error, "second")]),
    ]);
    let d = idx.find_first_terminating().unwrap();
    assert_eq!(d.message, "first");
    assert!(matches!(d.level, Level::Error));
}

#[test]
fn find_first_terminating_none_without_errors() {
    let idx = index_of(vec![("a.sm", vec![diag(Level::Lint, "style")])]);
    assert!(idx.find_first_terminating().is_none());
}

#[test]
fn format_each_level() {
    assert_eq!(format_diagnostic(&diag(Level::Error, "x")), "Error: x");
    assert_eq!(format_diagnostic(&diag(Level::InternalError, "x")), "InternalError: x");
    assert_eq!(format_diagnostic(&diag(Level::CompilerDebug, "x")), "CompilerDebug: x");
    assert_eq!(format_diagnostic(&diag(Level::Lint, "x")), "Lint: x");
}

#[test]
fn normalizer_drops_empty_paths_keeps_order() {
    let idx = index_of(vec![
        ("a.sm", vec![diag(Level::Lint, "one"), diag(Level::Lint, "two")]),
        ("empty.sm", vec![]),
        ("c.sm", vec![diag(Level::Error, "boom")]),
    ]);
    assert_eq!(idx.len(), 2);
    assert!(idx.contains_key(&"a.sm".to_string()));
    assert!(!idx.contains_key(&"empty.sm".to_string()));
    assert!(idx.contains_key(&"c.sm".to_string()));
    let entries = idx.entries();
    assert_eq!(entries[0].0, "a.sm");
    assert_eq!(entries[0].1.len(), 2);
    assert_eq!(entries[0].1[0].message, "one");
    assert_eq!(entries[0].1[1].message, "two");
    assert_eq!(entries[1].0, "c.sm");
}

#[test]
fn normalizer_rejects_duplicate_kept_path() {
    let entries = vec![
        ("a.sm".to_string(), vec![diag(Level::Lint, "one")]),
        ("a.sm".to_string(), vec![diag(Level::Lint, "two")]),
    ];
    assert!(matches!(DiagnosticsIndex::from_entries(entries), Err(BridgeError::Input(_))));
}

#[test]
fn envelope_success_carries_circuit_and_diagnostics() {
    let idx = index_of(vec![("a.sm", vec![diag(Level::Lint, "style")])]);
    let outcome = CompileOutcome::Success { circuit: "c".to_string(), diagnostics: idx };
    let env = assemble_envelope(outcome);
    assert_eq!(env.circuit.as_deref(), Some("c"));
    assert_eq!(env.diagnostics.len(), 1);
}

#[test]
fn envelope_failure_keeps_partial_circuit_and_diagnostics() {
    let idx = index_of(vec![("a.sm", vec![diag(Level::Error, "boom")])]);
    let outcome: CompileOutcome<String> =
        CompileOutcome::Failure { circuit: None, diagnostics: idx };
    let env = assemble_envelope(outcome);
    assert!(env.circuit.is_none());
    assert_eq!(env.diagnostics.len(), 1);
}

#[test]
fn collapse_success_yields_bare_circuit() {
    let idx = DiagnosticsIndex::new();
    let outcome = CompileOutcome::Success { circuit: 7u64, diagnostics: idx };
    assert_eq!(collapse_single_error(outcome).unwrap(), 7u64);
}

#[test]
fn collapse_failure_formats_first_error() {
    let idx = index_of(vec![("main.sm", vec![diag(Level::Error, "bad type")])]);
    let outcome: CompileOutcome<u64> = CompileOutcome::Failure { circuit: None, diagnostics: idx };
    match collapse_single_error(outcome) {
        Err(BridgeError::Compile(m)) => assert_eq!(m, "Error: bad type"),
        other => panic!("expected a compile error, got {:?}", other),
    }
}

#[test]
fn collapse_failure_without_terminating_uses_fallback() {
    let idx = index_of(vec![("main.sm", vec![diag(Level::Lint, "style")])]);
    let outcome: CompileOutcome<u64> = CompileOutcome::Failure { circuit: None, diagnostics: idx };
    match collapse_single_error(outcome) {
        Err(BridgeError::Compile(m)) => assert_eq!(m, "InternalError: Could not find error"),
        other => panic!("expected a compile error, got {:?}", other),
    }
}

#[test]
fn public_inputs_object_parses() {
    assert!(parse_public_inputs("{}").is_ok());
    let parsed = parse_public_inputs("{\"a\": true, \"b\": [true, null]}").unwrap();
    assert_eq!(parsed.len(), 2);
    assert_eq!(parsed.get("a"), Some(&serde_json::Value::Bool(true)));
    assert_eq!(
        parsed.get("b"),
        Some(&serde_json::Value::Array(vec![
            serde_json::Value::Bool(true),
            serde_json::Value::Null,
        ]))
    );
}

#[test]
fn public_inputs_malformed_is_input_error() {
    match parse_public_inputs("not json") {
        Err(BridgeError::Input(m)) => {
            assert!(m.starts_with("Failed to parse public inputs: "));
        }
        other => panic!("expected an input error, got {:?}", other.map(|m| m.len())),
    }
}

#[test]
fn public_inputs_non_object_is_input_error() {
    assert!(matches!(parse_public_inputs("[1, 2]"), Err(BridgeError::Input(_))));
}

#[test]
fn error_messages_are_carried() {
    let e = BridgeError::Serialization("could not serialize".to_string());
    assert_eq!(e.message().as_str(), "could not serialize");
    assert!(!e.is_resolution());
    assert!(BridgeError::Resolution("gone".to_string()).is_resolution());
}

#[test]
fn repeated_runs_agree() {
    let build = || {
        let idx = index_of(vec![
            ("a.sm", vec![diag(Level::Lint, "style")]),
            ("b.sm", vec![diag(Level::Error, "boom")]),
        ]);
        idx.single_error_message()
    };
    assert_eq!(build(), build());
    let pairs = || {
        vec![("a.sm".to_string(), "let x = 1;".to_string())]
    };
    let m1 = FileMap::from_pairs(pairs()).unwrap();
    let m2 = FileMap::from_pairs(pairs()).unwrap();
    assert_eq!(
        m1.resolve(&"a.sm".to_string()).unwrap().as_str(),
        m2.resolve(&"a.sm".to_string()).unwrap().as_str()
    );
}

#[test]
fn prepare_compile_checks_inputs_then_entry() {
    let map =
        FileMap::from_pairs(vec![("main.sm".to_string(), "let x = 1;".to_string())]).unwrap();
    let entry = "main.sm".to_string();
    let missing = "other.sm".to_string();
    let inputs = prepare_compile(&map, &entry, "{\"w\": true}").unwrap();
    assert_eq!(inputs.get("w"), Some(&serde_json::Value::Bool(true)));
    assert!(matches!(prepare_compile(&map, &entry, "nope"), Err(BridgeError::Input(_))));
    assert!(matches!(prepare_compile(&map, &missing, "{}"), Err(BridgeError::Resolution(_))));
    assert!(matches!(prepare_compile(&map, &missing, "nope"), Err(BridgeError::Input(_))));
}

#[test]
fn empty_index_has_no_terminating_entry() {
    let idx = DiagnosticsIndex::new();
    assert!(idx.find_first_terminating().is_none());
    assert_eq!(idx.single_error_message(), "InternalError: Could not find error");
}

#[test]
fn normalized_success_diagnostics_stay_non_terminating() {
    let idx = index_of(vec![
        ("a.sm", vec![diag(Level::Lint, "style"), diag(Level::CompilerDebug, "trace")]),
        ("empty.sm", vec![]),
    ]);
    assert!(idx.find_first_terminating().is_none());
}

#[test]
fn empty_file_map_resolves_nothing() {
    let map = FileMap::from_pairs(Vec::new()).unwrap();
    assert_eq!(map.len(), 0);
    assert!(map.resolve(&"a.sm".to_string()).is_err());
}

#[test]
fn host_object_bridge_accepts_string_values() {
    let pairs = vec![
        ("a.sm".to_string(), Some("let x = 1;".to_string())),
        ("b.sm".to_string(), Some("let y = 2;".to_string())),
    ];
    let map = bridge_host_object(pairs).unwrap();
    assert_eq!(map.len(), 2);
    assert_eq!(map.resolve(&"b.sm".to_string()).unwrap().as_str(), "let y = 2;");
}

#[test]
fn host_object_bridge_rejects_non_string_value() {
    let pairs = vec![
        ("a.sm".to_string(), Some("let x = 1;".to_string())),
        ("b.sm".to_string(), None),
    ];
    assert!(matches!(bridge_host_object(pairs), Err(BridgeError::Input(_))));
}

#[test]
fn host_object_bridge_rejects_repeated_key() {
    let pairs = vec![
        ("a.sm".to_string(), Some("one".to_string())),
        ("a.sm".to_string(), Some("two".to_string())),
    ];
    assert!(matches!(bridge_host_object(pairs), Err(BridgeError::Input(_))));
}
