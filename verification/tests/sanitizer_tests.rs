use mermaid_preview::sanitizer::convert_foreign_objects;
use mermaid_preview::sanitizer::extract_attr;
use mermaid_preview::sanitizer::extract_text_from_html;
use mermaid_preview::sanitizer::sanitize_svg;
use mermaid_preview::sanitizer::strip_event_handlers;
use mermaid_preview::sanitizer::strip_javascript_hrefs;

#[test]
fn rejects_script_tags() {
    let svg = "<svg><script>alert('xss')</script></svg>";
    assert!(sanitize_svg(svg).is_err());
}

#[test]
fn rejects_script_tags_case_insensitive() {
    for svg in &[
        "<svg><SCRIPT>alert('xss')</SCRIPT></svg>",
        "<svg><Script>alert('xss')</Script></svg>",
        "<svg><ScRiPt>alert('xss')</ScRiPt></svg>",
    ] {
        assert!(sanitize_svg(svg).is_err());
    }
}

#[test]
fn removes_event_handlers() {
    let svg = r#"<svg><rect onclick="alert()" width="10" /></svg>"#;
    let result = sanitize_svg(svg).unwrap();
    assert!(!result.contains("onclick"));
    assert!(!result.contains("alert()"));
    assert!(result.contains("<rect"));
}

#[test]
fn removes_event_handlers_single_quotes() {
    let svg = r#"<svg><rect onmouseover='doSomething()' width="10" /></svg>"#;
    let result = sanitize_svg(svg).unwrap();
    assert!(!result.contains("onmouseover"));
}

#[test]
fn removes_javascript_hrefs() {
    let svg = r#"<svg><a href="javascript:alert('xss')">link</a></svg>"#;
    let result = sanitize_svg(svg).unwrap();
    assert!(!result.contains("javascript:"));
}

#[test]
fn removes_xlink_javascript_hrefs() {
    let svg = r#"<svg><a xlink:href='javascript:malicious()'>link</a></svg>"#;
    let result = sanitize_svg(svg).unwrap();
    assert!(!result.contains("javascript:"));
}

#[test]
fn converts_foreign_objects() {
    let svg = r#"<svg width="100" height="50"><foreignObject x="10" y="10" width="80" height="30"><div>Hello</div></foreignObject></svg>"#;
    let result = sanitize_svg(svg).unwrap();
    assert!(!result.contains("foreignObject"));
    assert!(result.contains("<text"));
    assert!(result.contains("Hello"));
}

#[test]
fn skips_empty_foreign_objects() {
    let svg = r#"<svg><foreignObject x="0" y="0" width="0" height="0"><div></div></foreignObject></svg>"#;
    let result = sanitize_svg(svg).unwrap();
    assert!(!result.contains("foreignObject"));
    assert!(!result.contains("<text"));
}

#[test]
fn centers_text_in_foreign_object() {
    let svg = r#"<svg><foreignObject x="20" y="30" width="160" height="40"><p>Label</p></foreignObject></svg>"#;
    let result = sanitize_svg(svg).unwrap();
    assert!(result.contains(r#"x="100.00"#));
    assert!(result.contains(r#"y="50.00"#));
    assert!(result.contains("Label"));
}

#[test]
fn strips_html_tags_from_foreign_object() {
    let svg = r#"<svg><foreignObject x="10" y="10" width="80" height="30"><div><p>Label</p></div></foreignObject></svg>"#;
    let result = sanitize_svg(svg).unwrap();
    assert!(result.contains("Label"));
    assert!(!result.contains("<p>"));
    assert!(!result.contains("<div>"));
}

#[test]
fn zero_area_container_disappears_even_with_text() {
    for svg in [
        r#"<svg><foreignObject x="5" y="5" width="0" height="30"><div>Gone</div></foreignObject></svg>"#,
        r#"<svg><foreignObject x="5" y="5" width="30" height="0"><div>Gone</div></foreignObject></svg>"#,
    ] {
        let result = sanitize_svg(svg).unwrap();
        assert!(!result.contains("foreignObject"));
        assert!(!result.contains("<text"));
        assert!(!result.contains("Gone"));
    }
}

#[test]
fn transform_is_preserved_verbatim() {
    let svg = r#"<svg><foreignObject transform="translate(3,4)" width="10" height="10"><b>T</b></foreignObject></svg>"#;
    let result = sanitize_svg(svg).unwrap();
    assert!(result.contains(r#"transform="translate(3,4)""#));
    assert!(result.contains(r#"text-anchor="start""#));
    assert!(result.contains(">T</text>"));
}

#[test]
fn unterminated_container_is_left_as_it_stands() {
    let svg = r#"<svg><foreignObject x="1" y="1" width="5" height="5"><div>oops</div></svg>"#;
    let result = convert_foreign_objects(svg);
    assert_eq!(result, svg);
}

#[test]
fn entities_are_decoded_in_labels() {
    let text = extract_text_from_html("<p>a &amp; b</p>");
    assert_eq!(text, "a & b");
    let svg = r#"<svg><foreignObject x="0" y="0" width="10" height="10"><p>a &lt; b</p></foreignObject></svg>"#;
    let result = sanitize_svg(svg).unwrap();
    assert!(result.contains("a < b"));
}

#[test]
fn sibling_attributes_survive_event_stripping() {
    let out = strip_event_handlers(r#"<rect onclick="x()" width="10" fill="red"/>"#);
    assert_eq!(out, r#"<rect width="10" fill="red"/>"#);
}

#[test]
fn bare_event_handler_values_are_stripped() {
    let out = strip_event_handlers("<rect ONLOAD=init() width=\"1\"/>");
    assert_eq!(out, "<rect width=\"1\"/>");
}

#[test]
fn plain_hrefs_survive_href_stripping() {
    let out = strip_javascript_hrefs(r#"<a href="https://example.org/x">k</a>"#);
    assert_eq!(out, r#"<a href="https://example.org/x">k</a>"#);
    let gone = strip_javascript_hrefs(r#"<a href=" javascript:boom()">k</a>"#);
    assert_eq!(gone, "<a>k</a>");
}

#[test]
fn extract_attr_takes_the_leftmost_occurrence() {
    assert_eq!(
        extract_attr(r#"<foreignObject x="20" y="30">"#, "x"),
        Some("20".to_string())
    );
    assert_eq!(extract_attr(r#"<foreignObject y="30">"#, "x"), None);
    assert_eq!(
        extract_attr(r#"<g stroke-width="2" width="7">"#, "width"),
        Some("2".to_string())
    );
}

#[test]
fn fractional_geometry_is_centered_to_two_decimals() {
    let svg = r#"<svg><foreignObject x="1.5" y="2.25" width="3" height="4.5"><i>m</i></foreignObject></svg>"#;
    let result = sanitize_svg(svg).unwrap();
    assert!(result.contains(r#"x="3.00""#), "got {}", result);
    assert!(result.contains(r#"y="4.50""#), "got {}", result);
}
