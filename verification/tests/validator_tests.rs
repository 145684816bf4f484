use mermaid_preview::validator::InputValidator;
use mermaid_preview::validator::ValidationError;
use mermaid_preview::validator::MAX_LINES;
use mermaid_preview::validator::MAX_SIZE_BYTES;

#[test]
fn test_valid_mermaid() {
    let validator = InputValidator::new();
    let source = "graph TD\n    A[Start] --> B[End]";
    assert!(validator.validate(source).is_ok());
}

#[test]
fn test_empty_input() {
    let validator = InputValidator::new();
    let source = "";
    assert!(matches!(
        validator.validate(source),
        Err(ValidationError::EmptyInput)
    ));
}

#[test]
fn test_too_large() {
    let validator = InputValidator::new();
    let source = "A".repeat(MAX_SIZE_BYTES + 1);
    assert!(matches!(
        validator.validate(&source),
        Err(ValidationError::TooLarge { .. })
    ));
}

#[test]
fn test_too_many_lines() {
    let validator = InputValidator::new();
    let source = "line\n".repeat(MAX_LINES + 1);
    assert!(matches!(
        validator.validate(&source),
        Err(ValidationError::TooManyLines { .. })
    ));
}

#[test]
fn test_shell_metacharacters_blocked() {
    let validator = InputValidator::new();

    // Test various shell metacharacters
    let dangerous_inputs = vec![
        "graph TD; rm -rf /",
        "graph TD\n    A[`whoami`]",
        "graph TD\n    A[$SHELL]",
        "graph TD\n    A[test | grep]",
        "graph TD\n    A[test & bg]",
        "graph TD\n    A[test > file]",
    ];

    for input in dangerous_inputs {
        assert!(
            matches!(
                validator.validate(input),
                Err(ValidationError::InvalidCharacters { .. })
            ),
            "Should block: {}",
            input
        );
    }
}

#[test]
fn invalid_characters_error_cites_the_rule() {
    let validator = InputValidator::new();
    match validator.validate("graph TD; rm -rf /") {
        Err(ValidationError::InvalidCharacters { hint }) => {
            assert_eq!(
                hint,
                "Only alphanumeric, whitespace, and basic punctuation allowed (no shell metacharacters)"
            );
        }
        other => panic!("expected an invalid-characters error, got {:?}", other),
    }
}

#[test]
fn unknown_diagram_type_is_rejected_with_the_token() {
    let validator = InputValidator::new();
    match validator.validate("mystery TD\n  A --> B") {
        Err(ValidationError::UnknownDiagramType { found, allowed }) => {
            assert_eq!(found, "mystery");
            assert!(allowed.iter().any(|k| k == "graph"));
            assert!(allowed.iter().any(|k| k == "block"));
        }
        other => panic!("expected an unknown-type error, got {:?}", other),
    }
}

#[test]
fn every_known_keyword_is_accepted() {
    let validator = InputValidator::new();
    for kw in [
        "graph", "flowchart", "sequenceDiagram", "classDiagram", "stateDiagram", "erDiagram",
        "journey", "gantt", "pie", "gitGraph", "mindmap", "timeline", "quadrantChart",
        "requirementDiagram", "zenuml", "sankey", "xyChart", "block",
    ] {
        let source = format!("{} something", kw);
        assert!(validator.validate(&source).is_ok(), "should accept {}", kw);
    }
}

#[test]
fn checks_run_in_order() {
    let validator = InputValidator::new();
    // Oversized input with bad characters is reported as oversized first.
    let source = format!("graph TD; {}", "A".repeat(MAX_SIZE_BYTES));
    assert!(matches!(
        validator.validate(&source),
        Err(ValidationError::TooLarge { .. })
    ));
    // Whitespace-only input is empty before anything else.
    assert!(matches!(
        validator.validate("   \n\t  "),
        Err(ValidationError::EmptyInput)
    ));
}
