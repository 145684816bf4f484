//! A lightweight diagram renderer: it checks that the source opens with
//! a supported diagram-type keyword and emits a simple summary SVG for
//! it.  Real image rendering is done by the external renderer process,
//! which the application layer drives; this type gives callers a fast,
//! dependency-free stand-in and a syntax gate with the same acceptance
//! rule.

use vstd::prelude::*;

verus! {

use crate::text::byte_size;
use crate::text::dec_str;
use crate::text::has_prefix;
use crate::text::lemma_sub_at_skip;
use crate::text::push_u64_dec;
use crate::text::str_chars;
use crate::text::trim_start_index;
use crate::text::trim_start_spec;
use crate::text::view_lines;
use crate::text::chars_match_at;

/// Rendering errors.
#[derive(Debug, Clone, PartialEq, Eq)]
pub enum RenderError {
    SyntaxError(String),
    RenderFailed(String),
    Timeout,
    UnsupportedType(String),
}

/// The diagram types this renderer accepts.
pub open spec fn renderer_keywords() -> Seq<Seq<char>> {
    seq![
        "graph"@,
        "flowchart"@,
        "sequenceDiagram"@,
        "classDiagram"@,
        "stateDiagram"@,
        "erDiagram"@,
        "journey"@,
        "gantt"@,
        "pie"@,
        "gitGraph"@,
        "mindmap"@,
        "timeline"@,
        "quadrantChart"@,
    ]
}

/// The source opens, after leading whitespace, with a supported keyword.
pub open spec fn renderer_known_type(s: Seq<char>) -> bool {
    exists|k: int|
        0 <= k < renderer_keywords().len() && has_prefix(
            trim_start_spec(s),
            #[trigger] renderer_keywords()[k],
        )
}

/// The summary SVG emitted for an accepted source: a fixed frame naming
/// the source's byte count.
pub open spec fn spec_summary_svg(s: Seq<char>) -> Seq<char> {
    "<svg xmlns=\"http://www.w3.org/2000/svg\" width=\"400\" height=\"300\">\n  <rect width=\"400\" height=\"300\" fill=\"#f9f9f9\"/>\n  <text x=\"200\" y=\"150\" text-anchor=\"middle\" font-size=\"16\" fill=\"#333\">\n    Mermaid Diagram\n  </text>\n  <text x=\"200\" y=\"180\" text-anchor=\"middle\" font-size=\"12\" fill=\"#666\">\n    "@
        + dec_str(byte_size(s) as int) + " chars\n  </text>\n</svg>"@
}

pub open spec fn syntax_error_text() -> Seq<char> {
    "Diagram must start with a valid type (graph, flowchart, etc.)"@
}

/// Mermaid diagram renderer.
pub struct MermaidRenderer {
    pub timeout_seconds: u64,
}

impl MermaidRenderer {
    /// A renderer with the default timeout of five seconds.
    pub fn new() -> (r: Self)
        ensures
            r.timeout_seconds == 5,
    {
        Self { timeout_seconds: 5 }
    }

    /// Renders a diagram source to the summary SVG, after checking that
    /// it opens with a supported diagram type.
    pub fn render(&self, source: &str) -> (r: Result<String, RenderError>)
        ensures
            r is Ok <==> renderer_known_type(source@),
            r matches Ok(svg) ==> svg@ == spec_summary_svg(source@),
            r matches Err(e) ==> (e matches RenderError::SyntaxError(m) && m@
                == syntax_error_text()),
    {
        let v = str_chars(source);
        let a = trim_start_index(&v);
        let kws = renderer_keyword_list();
        let mut k: usize = 0;
        let mut known = false;
        while k < kws.len() && !known
            invariant
                view_lines(kws@) == renderer_keywords(),
                k <= kws@.len(),
                v@ == source@,
                a <= v@.len(),
                v@.skip(a as int) == trim_start_spec(v@),
                known ==> renderer_known_type(source@),
                !known ==> forall|m: int|
                    0 <= m < k ==> !has_prefix(
                        trim_start_spec(v@),
                        #[trigger] renderer_keywords()[m],
                    ),
            decreases kws@.len() - k,
        {
            let kc = str_chars(kws[k].as_str());
            proof {
                assert(kws@[k as int]@ == renderer_keywords()[k as int]);
                lemma_sub_at_skip(v@, kc@, a as int);
            }
            if chars_match_at(&v, &kc, a) {
                known = true;
            }
            k = k + 1;
        }
        if !known {
            return Err(
                RenderError::SyntaxError(
                    String::from_str("Diagram must start with a valid type (graph, flowchart, etc.)"),
                ),
            );
        }
        let mut svg = String::from_str(
            "<svg xmlns=\"http://www.w3.org/2000/svg\" width=\"400\" height=\"300\">\n  <rect width=\"400\" height=\"300\" fill=\"#f9f9f9\"/>\n  <text x=\"200\" y=\"150\" text-anchor=\"middle\" font-size=\"16\" fill=\"#333\">\n    Mermaid Diagram\n  </text>\n  <text x=\"200\" y=\"180\" text-anchor=\"middle\" font-size=\"12\" fill=\"#666\">\n    ",
        );
        push_u64_dec(&mut svg, source.len() as u64);
        svg.append(" chars\n  </text>\n</svg>");
        proof {
            assert(svg@ =~= spec_summary_svg(source@));
        }
        Ok(svg)
    }

    /// Checks the diagram source without keeping the rendering.
    pub fn validate(&self, source: &str) -> (r: Result<(), RenderError>)
        ensures
            r is Ok <==> renderer_known_type(source@),
            r matches Err(e) ==> (e matches RenderError::SyntaxError(m) && m@
                == syntax_error_text()),
    {
        match self.render(source) {
            Ok(_) => Ok(()),
            Err(e) => Err(e),
        }
    }
}

impl Default for MermaidRenderer {
    /// The same renderer as `new` builds.
    fn default() -> (r: Self)
        ensures
            r.timeout_seconds == 5,
    {
        Self::new()
    }
}

/// The supported diagram-type keywords as strings.
pub fn renderer_keyword_list() -> (r: Vec<String>)
    ensures
        view_lines(r@) == renderer_keywords(),
{
    let mut r: Vec<String> = Vec::new();
    r.push(String::from_str("graph"));
    r.push(String::from_str("flowchart"));
    r.push(String::from_str("sequenceDiagram"));
    r.push(String::from_str("classDiagram"));
    r.push(String::from_str("stateDiagram"));
    r.push(String::from_str("erDiagram"));
    r.push(String::from_str("journey"));
    r.push(String::from_str("gantt"));
    r.push(String::from_str("pie"));
    r.push(String::from_str("gitGraph"));
    r.push(String::from_str("mindmap"));
    r.push(String::from_str("timeline"));
    r.push(String::from_str("quadrantChart"));
    proof {
        assert(view_lines(r@) =~~= renderer_keywords());
    }
    r
}

} // verus!

use vstd::string::StrSliceExecFns;
use vstd::string::StringExecFns;
