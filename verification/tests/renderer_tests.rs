use mermaid_preview::renderer::MermaidRenderer;
use mermaid_preview::renderer::RenderError;

#[test]
fn test_valid_diagram() {
    let renderer = MermaidRenderer::new();
    let source = "graph TD\n    A --> B";
    assert!(renderer.render(source).is_ok());
}

#[test]
fn test_invalid_diagram() {
    let renderer = MermaidRenderer::new();
    let source = "invalid diagram";
    assert!(matches!(
        renderer.render(source),
        Err(RenderError::SyntaxError(_))
    ));
}

#[test]
fn test_various_diagram_types() {
    let renderer = MermaidRenderer::new();

    let diagrams = vec![
        ("graph TD\n    A --> B", true),
        ("flowchart LR\n    A --> B", true),
        ("sequenceDiagram\n    A->>B: Hello", true),
        ("pie title Pets\n    \"Dogs\" : 42", true),
        ("not a diagram", false),
    ];

    for (source, should_succeed) in diagrams {
        let result = renderer.render(source);
        assert_eq!(result.is_ok(), should_succeed, "Failed for: {}", source);
    }
}

#[test]
fn test_svg_output() {
    let renderer = MermaidRenderer::new();
    let source = "graph TD\n    A --> B";
    let svg = renderer.render(source).unwrap();

    assert!(svg.contains("<svg"));
    assert!(svg.contains("</svg>"));
    assert!(svg.contains("xmlns"));
}

#[test]
fn summary_svg_reports_the_byte_count() {
    let renderer = MermaidRenderer::new();
    let source = "graph TD";
    let svg = renderer.render(source).unwrap();
    assert!(svg.contains("8 chars"));
}

#[test]
fn validate_matches_render() {
    let renderer = MermaidRenderer::new();
    assert!(renderer.validate("gantt\n  title T").is_ok());
    assert!(renderer.validate("nonsense").is_err());
}
