use mermaid_preview::edits::fence_replacement;
use mermaid_preview::edits::mermaid_rel_path;
use mermaid_preview::edits::mmd_asset_filename;
use mermaid_preview::edits::region_edit;
use mermaid_preview::edits::render_replacement;
use mermaid_preview::edits::reverse_edits;
use mermaid_preview::edits::svg_asset_filename;
use mermaid_preview::scanner::find_all_mermaid_fences;
use mermaid_preview::scanner::find_all_rendered_blocks;
use mermaid_preview::text::split_lines;

#[test]
fn render_replacement_has_marker_and_image() {
    let text = render_replacement(".mermaid/d_1.mmd", ".mermaid/d_diagram_1.svg");
    assert_eq!(
        text,
        "<!-- mermaid-source-file:.mermaid/d_1.mmd -->\n\n![Mermaid Diagram](.mermaid/d_diagram_1.svg)"
    );
}

#[test]
fn fence_replacement_wraps_the_source() {
    assert_eq!(
        fence_replacement("graph TD\n  A --> B"),
        "```mermaid\ngraph TD\n  A --> B\n```"
    );
}

#[test]
fn asset_names_carry_document_and_timestamp() {
    assert_eq!(svg_asset_filename("doc", "20240101_120000"), "doc_diagram_20240101_120000.svg");
    assert_eq!(mmd_asset_filename("doc", "20240101_120000"), "doc_20240101_120000.mmd");
    assert_eq!(mermaid_rel_path("doc_20240101_120000.mmd"), ".mermaid/doc_20240101_120000.mmd");
}

#[test]
fn restore_then_scan_reproduces_the_source() {
    // Rendering persists the fence code; restoring wraps it back in a
    // fence, and a rescan hands back byte-identical code.
    for code in ["graph TD\n  A --> B", "pie title Pets", "a\nb\nc", "trailing\n"] {
        let restored = fence_replacement(code);
        let lines = split_lines(&restored);
        let fences = find_all_mermaid_fences(&lines);
        assert_eq!(fences.len(), 1);
        assert_eq!(fences[0].code, code);
        assert_eq!(fences[0].start_line, 0);
        assert_eq!(fences[0].end_line, lines.len() - 1);
    }
}

#[test]
fn render_then_scan_finds_the_block() {
    let text = render_replacement(".mermaid/doc_1.mmd", ".mermaid/doc_diagram_1.svg");
    let lines = split_lines(&text);
    let blocks = find_all_rendered_blocks(&lines);
    assert_eq!(blocks.len(), 1);
    assert_eq!(blocks[0].comment_line, 0);
    assert_eq!(blocks[0].end_line, 2);
    assert_eq!(blocks[0].source_file, ".mermaid/doc_1.mmd");
}

#[test]
fn repeated_render_emits_identical_reference() {
    // With equal asset names (same document and timestamp), a second
    // render of the same fence emits the identical replacement.
    let mmd = mermaid_rel_path(&mmd_asset_filename("doc", "20240101_120000"));
    let svg = mermaid_rel_path(&svg_asset_filename("doc", "20240101_120000"));
    let first = render_replacement(&mmd, &svg);
    let second = render_replacement(&mmd, &svg);
    assert_eq!(first, second);
}

#[test]
fn region_edit_spans_whole_lines() {
    let lines = split_lines("first\nsecond line\nthird\n");
    let edit = region_edit(&lines, 0, 1, "NEW".to_string());
    assert_eq!(edit.start_line, 0);
    assert_eq!(edit.end_line, 1);
    assert_eq!(edit.end_col, "second line".len());
    assert_eq!(edit.new_text, "NEW");
    let past = region_edit(&lines, 0, 9, "X".to_string());
    assert_eq!(past.end_col, 0);
}

#[test]
fn reverse_edits_reverses() {
    let lines = split_lines("a\nb\nc\n");
    let edits = vec![
        region_edit(&lines, 0, 0, "one".to_string()),
        region_edit(&lines, 1, 1, "two".to_string()),
        region_edit(&lines, 2, 2, "three".to_string()),
    ];
    let rev = reverse_edits(edits);
    assert_eq!(rev.len(), 3);
    assert_eq!(rev[0].new_text, "three");
    assert_eq!(rev[1].new_text, "two");
    assert_eq!(rev[2].new_text, "one");
    assert!(rev[0].start_line > rev[1].end_line);
    assert!(rev[1].start_line > rev[2].end_line);
}
