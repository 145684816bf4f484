//! The edit builder: the replacement texts that turn a fence into a
//! rendered block and a rendered block back into a fence, the line-range
//! edits that carry them, and the round-trip laws tying the replacements
//! to the scanner.

use vstd::prelude::*;

verus! {

use crate::text::byte_size;
use crate::text::has_prefix;
use crate::text::is_space;
use crate::text::lemma_join_split_nl;
use crate::text::lemma_lines_of_is_split_nl;
use crate::text::lemma_split_nl_append;
use crate::text::lemma_split_nl_chunk;
use crate::text::lemma_split_nl_nonempty;
use crate::text::lines_of;
use crate::text::split_nl;
use crate::text::trim_spec;
use crate::text::trim_start_spec;
use crate::scanner::line_closes_fence;
use crate::scanner::line_is_blank;
use crate::scanner::line_is_image_ref;
use crate::scanner::line_marker_path;
use crate::scanner::line_opens_fence;
use crate::scanner::spec_blocks;
use crate::scanner::spec_fences;
use crate::scanner::BlockModel;
use crate::scanner::FenceModel;

// ---------------------------------------------------------------------------
// Replacement texts
// ---------------------------------------------------------------------------

/// The text that replaces a fence: a marker comment naming the stored
/// diagram source, a blank line, and an image reference to the rendered
/// asset.
pub open spec fn spec_render_replacement(mmd_rel: Seq<char>, svg_rel: Seq<char>) -> Seq<char> {
    "<!-- mermaid-source-file:"@ + mmd_rel + " -->\n\n![Mermaid Diagram]("@ + svg_rel + ")"@
}

pub fn render_replacement(mmd_rel: &str, svg_rel: &str) -> (r: String)
    ensures
        r@ == spec_render_replacement(mmd_rel@, svg_rel@),
{
    let mut r = String::from_str("<!-- mermaid-source-file:");
    r.append(mmd_rel);
    r.append(" -->\n\n![Mermaid Diagram](");
    r.append(svg_rel);
    r.append(")");
    proof {
        assert(r@ =~= spec_render_replacement(mmd_rel@, svg_rel@));
    }
    r
}

/// The text that restores a fence around a diagram source.
pub open spec fn spec_fence_replacement(code: Seq<char>) -> Seq<char> {
    "```mermaid\n"@ + code + "\n```"@
}

pub fn fence_replacement(code: &str) -> (r: String)
    ensures
        r@ == spec_fence_replacement(code@),
{
    let mut r = String::from_str("```mermaid\n");
    r.append(code);
    r.append("\n```");
    proof {
        assert(r@ =~= spec_fence_replacement(code@));
    }
    r
}

// ---------------------------------------------------------------------------
// Asset names
// ---------------------------------------------------------------------------

/// The rendered asset's file name, derived from the document's short name
/// and a timestamp for human readability.
pub fn svg_asset_filename(doc_name: &str, timestamp: &str) -> (r: String)
    ensures
        r@ == doc_name@ + "_diagram_"@ + timestamp@ + ".svg"@,
{
    let mut r = String::from_str(doc_name);
    r.append("_diagram_");
    r.append(timestamp);
    r.append(".svg");
    r
}

/// The stored diagram source's file name.
pub fn mmd_asset_filename(doc_name: &str, timestamp: &str) -> (r: String)
    ensures
        r@ == doc_name@ + "_"@ + timestamp@ + ".mmd"@,
{
    let mut r = String::from_str(doc_name);
    r.append("_");
    r.append(timestamp);
    r.append(".mmd");
    r
}

/// A file name made relative to the hidden asset directory.
pub fn mermaid_rel_path(filename: &str) -> (r: String)
    ensures
        r@ == ".mermaid/"@ + filename@,
{
    let mut r = String::from_str(".mermaid/");
    r.append(filename);
    r
}

// ---------------------------------------------------------------------------
// Line-range edits
// ---------------------------------------------------------------------------

/// A whole-region text replacement: the lines `start_line..=end_line` are
/// replaced by `new_text`, where the region ends at column `end_col` of
/// its last line.
pub struct LineEdit {
    pub start_line: usize,
    pub end_line: usize,
    pub end_col: usize,
    pub new_text: String,
}

/// The edit that replaces the region `start_line..=end_line` of the given
/// document with `new_text`; the end column is the byte length of the
/// region's last line (or zero for a region ending past the document).
pub fn region_edit(lines: &Vec<String>, start_line: usize, end_line: usize, new_text: String) -> (r:
    LineEdit)
    ensures
        r.start_line == start_line,
        r.end_line == end_line,
        r.new_text == new_text,
        end_line < lines@.len() ==> r.end_col == byte_size(lines@[end_line as int]@),
        end_line >= lines@.len() ==> r.end_col == 0,
{
    let end_col = if end_line < lines.len() {
        lines[end_line].as_str().len()
    } else {
        0
    };
    LineEdit { start_line, end_line, end_col, new_text }
}

/// The given edits in reverse order, so that a list computed in document
/// order is applied from the back of the document to the front.
pub fn reverse_edits(edits: Vec<LineEdit>) -> (r: Vec<LineEdit>)
    ensures
        r@ == edits@.reverse(),
{
    let ghost orig = edits@;
    let mut rest = edits;
    let mut r: Vec<LineEdit> = Vec::new();
    proof {
        assert(rest@ =~= orig.take(rest@.len() as int));
        assert(r@ =~= orig.skip(rest@.len() as int).reverse());
    }
    while rest.len() > 0
        invariant
            rest@.len() <= orig.len(),
            rest@ == orig.take(rest@.len() as int),
            r@ == orig.skip(rest@.len() as int).reverse(),
        decreases rest@.len(),
    {
        let ghost n = rest@.len() as int;
        match rest.pop() {
            Some(e) => {
                proof {
                    assert(rest@ =~= orig.take(n - 1));
                    assert(e == orig[n - 1]);
                }
                r.push(e);
                proof {
                    assert(r@ =~= orig.skip(n - 1).reverse());
                }
            },
            None => {},
        }
    }
    proof {
        assert(r@ =~= orig.reverse());
    }
    r
}

// ---------------------------------------------------------------------------
// Round-trip laws
// ---------------------------------------------------------------------------

/// Restoring a diagram source wraps it in a fence that the scanner finds
/// again, with byte-identical code: for any source whose lines close no
/// fence, which holds no carriage return before a newline, and which does
/// not end in a carriage return, the restored text scans to exactly one
/// fence spanning the whole replacement and carrying the source
/// unchanged.
pub proof fn lemma_restore_round_trip(code: Seq<char>)
    requires
        forall|m: int|
            0 <= m < code.len() - 1 ==> !((#[trigger] code[m]) == '\r' && code[m + 1] == '\n'),
        code.len() > 0 ==> code[code.len() - 1] != '\r',
        forall|k: int|
            0 <= k < split_nl(code).len() ==> !line_closes_fence(#[trigger] split_nl(code)[k]),
    ensures
        spec_fences(lines_of(spec_fence_replacement(code)), 0) == seq![
            FenceModel {
                start_line: 0,
                end_line: split_nl(code).len() as int + 1,
                code: code,
            },
        ],
{
    reveal_strlit("```mermaid\n");
    reveal_strlit("```mermaid");
    reveal_strlit("````");
    reveal_strlit("```");
    reveal_strlit("\n```");
    let open_line = "```mermaid"@;
    let close_line = "```"@;
    let doc = spec_fence_replacement(code);
    assert(doc =~= open_line + seq!['\n'] + (code + seq!['\n'] + close_line));

    // The replacement splits into the opening line, the source's own
    // newline segments, and the closing line.
    lemma_split_nl_append(open_line, code + seq!['\n'] + close_line);
    lemma_split_nl_append(code, close_line);
    lemma_split_nl_chunk(open_line, open_line.len() as int);
    lemma_split_nl_chunk(close_line, close_line.len() as int);
    let mid = split_nl(code);
    lemma_split_nl_nonempty(code);
    let ls = seq![open_line] + mid + seq![close_line];
    assert(split_nl(doc) =~~= ls);

    // Under the carriage-return conditions, the replacement's lines are
    // exactly that split.
    assert(doc.len() > 0);
    assert(doc[doc.len() - 1] == '`');
    assert forall|m: int|
        0 <= m < doc.len() - 1 implies !((#[trigger] doc[m]) == '\r' && doc[m + 1] == '\n') by {
        let a = open_line.len() + 1;
        if m < a {
            assert(doc[m] == "```mermaid\n"@[m]);
        } else if m < a + code.len() {
            assert(doc[m] == code[m - a]);
            if m + 1 < a + code.len() {
                assert(doc[m + 1] == code[m + 1 - a]);
            } else {
                assert(doc[m + 1] == '\n');
                assert(code[code.len() - 1] != '\r');
            }
        } else {
            if m == a + code.len() {
                assert(doc[m] == '\n');
            } else {
                assert(doc[m] == close_line[m - a - code.len() - 1]);
            }
            assert(doc[m] != '\r');
        }
    }
    lemma_lines_of_is_split_nl(doc);

    // The opening line opens a fence and the closing line closes one.
    assert(trim_start_spec(open_line) == open_line);
    assert(has_prefix(open_line, "```mermaid"@)) by {
        assert(open_line.subrange(0, 10) =~= open_line);
    }
    assert(!has_prefix(open_line, "````"@)) by {
        if has_prefix(open_line, "````"@) {
            assert(open_line.subrange(0, 4)[3] == open_line[3]);
        }
    }
    assert(line_opens_fence(open_line));
    assert(trim_start_spec(close_line) == close_line);
    assert(line_closes_fence(close_line));

    // The source's own lines close nothing, so the first close is the
    // final line.
    let n = mid.len() as int;
    assert forall|m: int| 1 <= m < n + 1 implies !line_closes_fence(#[trigger] ls[m]) by {
        assert(ls[m] == mid[m - 1]);
    }
    assert(ls[n + 1] == close_line);
    crate::scanner::lemma_find_close_at(ls, 1, n + 1);

    // Scanning finds exactly the one fence, carrying the source back.
    assert(ls[0] == open_line);
    lemma_join_split_nl(code);
    assert(ls.subrange(1, n + 1) =~~= mid);
    assert(spec_fences(ls, n + 2) =~~= Seq::<FenceModel>::empty());
    assert(spec_fences(ls, 0) =~~= seq![
        FenceModel { start_line: 0, end_line: n + 1, code: code },
    ]);
}

/// Rendering emits a replacement that the scanner recognizes as exactly
/// one rendered block, spanning all three of its lines and naming the
/// stored source path unchanged: for any stored-source path without
/// newlines or surrounding whitespace, and any asset path without
/// newlines that lies under the hidden asset directory.
pub proof fn lemma_render_block_round_trip(mmd_rel: Seq<char>, svg_rel: Seq<char>)
    requires
        forall|m: int| 0 <= m < mmd_rel.len() ==> (#[trigger] mmd_rel[m]) != '\n',
        mmd_rel.len() > 0 ==> !is_space(mmd_rel[0]) && !is_space(mmd_rel[mmd_rel.len() - 1]),
        forall|m: int| 0 <= m < svg_rel.len() ==> (#[trigger] svg_rel[m]) != '\n',
        has_prefix(svg_rel, ".mermaid/"@),
    ensures
        spec_blocks(lines_of(spec_render_replacement(mmd_rel, svg_rel)), 0) == seq![
            BlockModel { comment_line: 0, end_line: 2, source_file: mmd_rel },
        ],
{
    reveal_strlit("<!-- mermaid-source-file:");
    reveal_strlit(" -->\n\n![Mermaid Diagram](");
    reveal_strlit(" -->");
    reveal_strlit("-->");
    reveal_strlit("![Mermaid Diagram](");
    reveal_strlit(")");
    reveal_strlit("![");
    reveal_strlit("(.mermaid/");
    reveal_strlit(".mermaid/");
    let doc = spec_render_replacement(mmd_rel, svg_rel);
    let line0 = "<!-- mermaid-source-file:"@ + mmd_rel + " -->"@;
    let line2 = "![Mermaid Diagram]("@ + svg_rel + ")"@;
    assert(doc =~= line0 + seq!['\n'] + (Seq::<char>::empty() + seq!['\n'] + line2));

    // The replacement splits into the marker line, a blank line, and the
    // image line.
    lemma_split_nl_append(line0, Seq::<char>::empty() + seq!['\n'] + line2);
    lemma_split_nl_append(Seq::<char>::empty(), line2);
    assert(forall|m: int| 0 <= m < line0.len() ==> (#[trigger] line0[m]) != '\n') by {
        assert(forall|m: int|
            0 <= m < 25 ==> (#[trigger] line0[m]) == "<!-- mermaid-source-file:"@[m]);
        assert(forall|m: int|
            25 <= m < 25 + mmd_rel.len() ==> (#[trigger] line0[m]) == mmd_rel[m - 25]);
        assert(forall|m: int|
            25 + mmd_rel.len() <= m < line0.len() ==> (#[trigger] line0[m]) == " -->"@[m - 25
                - mmd_rel.len()]);
    }
    assert(forall|m: int| 0 <= m < line2.len() ==> (#[trigger] line2[m]) != '\n') by {
        assert(forall|m: int|
            0 <= m < 19 ==> (#[trigger] line2[m]) == "![Mermaid Diagram]("@[m]);
        assert(forall|m: int|
            19 <= m < 19 + svg_rel.len() ==> (#[trigger] line2[m]) == svg_rel[m - 19]);
        assert(forall|m: int|
            19 + svg_rel.len() <= m < line2.len() ==> (#[trigger] line2[m]) == ")"@[m - 19
                - svg_rel.len()]);
    }
    lemma_split_nl_chunk(line0, line0.len() as int);
    lemma_split_nl_chunk(line2, line2.len() as int);
    let ls = seq![line0, Seq::<char>::empty(), line2];
    assert(split_nl(doc) =~~= ls);

    assert(doc.len() > 0);
    assert(doc[doc.len() - 1] == ')');
    assert forall|m: int|
        0 <= m < doc.len() - 1 implies !((#[trigger] doc[m]) == '\r' && doc[m + 1] == '\n') by {
        if doc[m + 1] == '\n' {
            assert(m + 1 == line0.len() || m + 1 == line0.len() + 1);
            if m + 1 == line0.len() {
                assert(doc[m] == line0[line0.len() - 1]);
                assert(line0[line0.len() - 1] == " -->"@[3]);
            } else {
                assert(doc[m] == '\n');
            }
        }
    }
    lemma_lines_of_is_split_nl(doc);

    // The marker line carries exactly the stored-source path.
    assert(trim_spec(line0) == line0) by {
        crate::text::lemma_trim_of_unspaced_ends(line0);
    }
    assert(line_marker_path(line0) matches Some(p) && p == mmd_rel) by {
        assert(line0.subrange(0, 25) =~= "<!-- mermaid-source-file:"@);
        assert(line0.subrange(line0.len() - 3, line0.len() as int) =~= "-->"@) by {
            assert(forall|m: int|
                0 <= m < 3 ==> (#[trigger] line0.subrange(line0.len() - 3, line0.len() as int)[m])
                    == " -->"@[m + 1]);
            assert(" -->"@[1] == '-' && " -->"@[2] == '-' && " -->"@[3] == '>');
            assert("-->"@[0] == '-' && "-->"@[1] == '-' && "-->"@[2] == '>');
        }
        let inner = line0.subrange(25, line0.len() - 3);
        assert(inner =~= mmd_rel + seq![' ']);
        assert(trim_spec(inner) == mmd_rel) by {
            crate::text::lemma_trim_drops_last_space(mmd_rel);
        }
    }

    // The middle line is blank; the image line is an image reference.
    assert(line_is_blank(Seq::<char>::empty()));
    assert(trim_spec(line2) == line2) by {
        crate::text::lemma_trim_of_unspaced_ends(line2);
    }
    assert(line_is_image_ref(line2)) by {
        assert(line2.subrange(0, 2) =~= "!["@);
        assert(crate::text::sub_at(line2, "(.mermaid/"@, 18)) by {
            assert(svg_rel.subrange(0, 9) == ".mermaid/"@);
            assert(forall|m: int|
                0 <= m < 9 ==> (#[trigger] svg_rel[m]) == svg_rel.subrange(0, 9)[m]);
            assert(line2.subrange(18, 28) =~= "(.mermaid/"@) by {
                assert(line2[18] == "![Mermaid Diagram]("@[18]);
                assert(forall|m: int| 19 <= m < 28 ==> (#[trigger] line2[m]) == svg_rel[m - 19]);
            }
        }
    }

    // Scanning finds exactly the one block.
    assert(crate::scanner::first_nonblank(ls, 1) == 2) by {
        assert(ls[1] =~= Seq::<char>::empty());
        assert(line_is_blank(ls[1]));
        crate::scanner::lemma_first_nonblank_at(ls, 1, 2);
    }
    assert(ls.len() == 3);
    assert(ls[0] == line0);
    assert(ls[2] == line2);
    assert(line_marker_path(ls[0]) == Some(mmd_rel));
    assert(crate::scanner::block_end(ls, 0) == 2);
    assert(spec_blocks(ls, 3) =~~= Seq::<BlockModel>::empty());
    assert(spec_blocks(ls, 0) =~~= seq![
        BlockModel { comment_line: 0, end_line: 2, source_file: mmd_rel },
    ]);
}

} // verus!

use vstd::string::StrSliceExecFns;
use vstd::string::StringExecFns;
