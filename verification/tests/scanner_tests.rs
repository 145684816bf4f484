use mermaid_preview::scanner::find_all_mermaid_fences;
use mermaid_preview::scanner::find_all_rendered_blocks;
use mermaid_preview::scanner::find_mermaid_fence;
use mermaid_preview::scanner::find_rendered_block_at;
use mermaid_preview::scanner::extract_source_file_path;
use mermaid_preview::scanner::has_fence_open_line;
use mermaid_preview::scanner::has_marker_line;
use mermaid_preview::text::split_lines;

#[test]
fn finds_mermaid_fences() {
    let doc = "# Hello\n\n```mermaid\ngraph TD\n  A --> B\n```\n\nSome text\n";
    let lines = split_lines(doc);
    let fences = find_all_mermaid_fences(&lines);

    assert_eq!(fences.len(), 1);
    assert_eq!(fences[0].start_line, 2);
    assert_eq!(fences[0].end_line, 5);
    assert_eq!(fences[0].code, "graph TD\n  A --> B");
}

#[test]
fn finds_multiple_fences() {
    let doc = "```mermaid\ngraph TD\n  A-->B\n```\n\n```mermaid\nsequenceDiagram\n  A->>B: Hi\n```\n";
    let lines = split_lines(doc);
    let fences = find_all_mermaid_fences(&lines);

    assert_eq!(fences.len(), 2);
    assert_eq!(fences[0].code, "graph TD\n  A-->B");
    assert_eq!(fences[1].code, "sequenceDiagram\n  A->>B: Hi");
}

#[test]
fn ignores_non_mermaid_fences() {
    let doc = "```rust\nfn main() {}\n```\n\n```mermaid\ngraph TD\n```\n";
    let lines = split_lines(doc);
    let fences = find_all_mermaid_fences(&lines);

    assert_eq!(fences.len(), 1);
    assert!(fences[0].code.contains("graph TD"));
}

#[test]
fn finds_fence_at_cursor() {
    let doc = "Text\n```mermaid\ngraph TD\n  A-->B\n```\nMore text\n";
    let lines = split_lines(doc);

    assert!(find_mermaid_fence(&lines, 0).is_none());
    assert!(find_mermaid_fence(&lines, 1).is_some());
    assert!(find_mermaid_fence(&lines, 2).is_some());
    assert!(find_mermaid_fence(&lines, 3).is_some());
    assert!(find_mermaid_fence(&lines, 4).is_some());
    assert!(find_mermaid_fence(&lines, 5).is_none());
}

#[test]
fn extracts_source_file_path() {
    assert_eq!(
        extract_source_file_path("<!-- mermaid-source-file:.mermaid/doc_20240101.mmd -->"),
        Some(".mermaid/doc_20240101.mmd".to_string())
    );
    assert_eq!(extract_source_file_path("Some random text"), None);
    assert_eq!(extract_source_file_path("<!-- other comment -->"), None);
}

#[test]
fn finds_rendered_blocks() {
    let doc = "<!-- mermaid-source-file:.mermaid/doc.mmd -->\n\n![Mermaid Diagram](.mermaid/doc.svg)\n";
    let lines = split_lines(doc);
    let blocks = find_all_rendered_blocks(&lines);

    assert_eq!(blocks.len(), 1);
    assert_eq!(blocks[0].comment_line, 0);
    assert_eq!(blocks[0].end_line, 2);
    assert_eq!(blocks[0].source_file, ".mermaid/doc.mmd");
}

#[test]
fn unclosed_fence_is_dropped() {
    let doc = "```mermaid\ngraph TD\n  A --> B\n";
    let lines = split_lines(doc);
    let fences = find_all_mermaid_fences(&lines);
    assert_eq!(fences.len(), 0);
}

#[test]
fn wider_fence_is_not_a_diagram_fence() {
    let doc = "````mermaid\ngraph TD\n````\n";
    let lines = split_lines(doc);
    let fences = find_all_mermaid_fences(&lines);
    assert_eq!(fences.len(), 0);
}

#[test]
fn marker_without_image_ends_at_marker_line() {
    let doc = "<!-- mermaid-source-file:.mermaid/doc.mmd -->\n\nJust prose here\n";
    let lines = split_lines(doc);
    let blocks = find_all_rendered_blocks(&lines);
    assert_eq!(blocks.len(), 1);
    assert_eq!(blocks[0].comment_line, 0);
    assert_eq!(blocks[0].end_line, 0);
}

#[test]
fn block_cursor_boundaries() {
    let doc = "Intro\n<!-- mermaid-source-file:.mermaid/doc.mmd -->\n\n![Mermaid Diagram](.mermaid/doc.svg)\nOutro\n";
    let lines = split_lines(doc);
    assert!(find_rendered_block_at(&lines, 0).is_none());
    assert!(find_rendered_block_at(&lines, 1).is_some());
    assert!(find_rendered_block_at(&lines, 3).is_some());
    assert!(find_rendered_block_at(&lines, 4).is_none());
}

#[test]
fn document_helpers_see_fences_and_markers() {
    let doc = "text\n```mermaid\ngraph TD\n```\n<!-- mermaid-source-file:x.mmd -->\n";
    let lines = split_lines(doc);
    assert!(has_fence_open_line(&lines));
    assert!(has_marker_line(&lines));
    let plain = split_lines("nothing to see\nhere\n");
    assert!(!has_fence_open_line(&plain));
    assert!(!has_marker_line(&plain));
}

#[test]
fn split_lines_matches_str_lines() {
    for doc in [
        "",
        "a",
        "a\n",
        "a\r\nb",
        "a\nb\nc",
        "\n\n",
        "mixed\r\nendings\nhere\r\n",
    ] {
        let expected: Vec<String> = doc.lines().map(|l| l.to_string()).collect();
        assert_eq!(split_lines(doc), expected);
    }
}

#[test]
fn single_fence_document_spans_all_lines() {
    let doc = "```mermaid\ngraph TD\n  A --> B\n```";
    let lines = split_lines(doc);
    let fences = find_all_mermaid_fences(&lines);
    assert_eq!(fences.len(), 1);
    assert_eq!(fences[0].start_line, 0);
    assert_eq!(fences[0].end_line, 3);
    assert_eq!(fences[0].code, "graph TD\n  A --> B");
}
