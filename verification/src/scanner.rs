//! The document scanner: single-pass, line-based recognition of diagram
//! fences and of previously rendered blocks (a marker comment naming the
//! stored diagram source, followed by an image reference).
//!
//! All scans are pure functions of the line sequence; their results are
//! pinned down by the recursive specifications `spec_fences` and
//! `spec_blocks`.

use vstd::prelude::*;

verus! {

use vstd::math::max;
use crate::text::trim_spec;
use crate::text::trim_start_spec;
use crate::text::has_prefix;
use crate::text::has_suffix;
use crate::text::has_sub;
use crate::text::view_lines;
use crate::text::join_lines;
use crate::text::lemma_join_lines_push;
use crate::text::lemma_sub_at_skip;
use crate::text::str_chars;
use crate::text::string_from_chars;
use crate::text::subvec;
use crate::text::trim_start_index;
use crate::text::trim_bounds;
use crate::text::chars_match_at;
use crate::text::find_sub_from;

// ---------------------------------------------------------------------------
// Line classification
// ---------------------------------------------------------------------------

/// A line opening a diagram fence: after leading whitespace it starts
/// with the three-backtick mermaid token, and is not a wider fence of
/// four or more backticks.
pub open spec fn line_opens_fence(l: Seq<char>) -> bool {
    has_prefix(trim_start_spec(l), "```mermaid"@) && !has_prefix(trim_start_spec(l), "````"@)
}

/// A line closing a fence: after leading whitespace it is exactly the
/// bare three-backtick token, or that token followed by a carriage
/// return.
pub open spec fn line_closes_fence(l: Seq<char>) -> bool {
    trim_start_spec(l) == "```"@ || has_prefix(trim_start_spec(l), "```\r"@)
}

/// The marker comment format that names the stored diagram source.
pub open spec fn marker_prefix() -> Seq<char> {
    "<!-- mermaid-source-file:"@
}

pub open spec fn marker_suffix() -> Seq<char> {
    "-->"@
}

/// The source path carried by a marker comment line, if the line is one:
/// the trimmed line must match the marker format exactly at both ends,
/// and the carried path is trimmed as well.
pub open spec fn line_marker_path(l: Seq<char>) -> Option<Seq<char>> {
    let t = trim_spec(l);
    if has_prefix(t, marker_prefix()) && has_suffix(t, marker_suffix()) && t.len()
        >= marker_prefix().len() + marker_suffix().len() {
        Some(
            trim_spec(
                t.subrange(marker_prefix().len() as int, t.len() - marker_suffix().len()),
            ),
        )
    } else {
        None
    }
}

/// An image reference into the hidden asset directory.
pub open spec fn line_is_image_ref(l: Seq<char>) -> bool {
    has_prefix(trim_spec(l), "!["@) && has_sub(trim_spec(l), "(.mermaid/"@)
}

pub open spec fn line_is_blank(l: Seq<char>) -> bool {
    trim_spec(l).len() == 0
}

// ---------------------------------------------------------------------------
// Scan results and their models
// ---------------------------------------------------------------------------

/// A diagram fence: the opening and closing line indices (inclusive) and
/// the joined source text between them.
pub struct MermaidFence {
    pub start_line: usize,
    pub end_line: usize,
    pub code: String,
}

#[verifier::ext_equal]
pub ghost struct FenceModel {
    pub start_line: int,
    pub end_line: int,
    pub code: Seq<char>,
}

impl View for MermaidFence {
    type V = FenceModel;

    open spec fn view(&self) -> FenceModel {
        FenceModel {
            start_line: self.start_line as int,
            end_line: self.end_line as int,
            code: self.code@,
        }
    }
}

/// A rendered block: the marker comment line, the block's last line (the
/// image reference, or the comment line itself), and the stored source
/// path the marker names.
pub struct RenderedBlock {
    pub comment_line: usize,
    pub end_line: usize,
    pub source_file: String,
}

#[verifier::ext_equal]
pub ghost struct BlockModel {
    pub comment_line: int,
    pub end_line: int,
    pub source_file: Seq<char>,
}

impl View for RenderedBlock {
    type V = BlockModel;

    open spec fn view(&self) -> BlockModel {
        BlockModel {
            comment_line: self.comment_line as int,
            end_line: self.end_line as int,
            source_file: self.source_file@,
        }
    }
}

pub open spec fn fences_view(v: Seq<MermaidFence>) -> Seq<FenceModel> {
    Seq::new(v.len(), |i: int| v[i]@)
}

pub open spec fn blocks_view(v: Seq<RenderedBlock>) -> Seq<BlockModel> {
    Seq::new(v.len(), |i: int| v[i]@)
}

// ---------------------------------------------------------------------------
// The fence scan, specified
// ---------------------------------------------------------------------------

/// Smallest index at or after `i` whose line closes a fence, or the line
/// count if no line does.
pub open spec fn find_close_from(lines: Seq<Seq<char>>, i: int) -> int
    decreases lines.len() - i,
{
    if i < 0 || i >= lines.len() {
        lines.len() as int
    } else if line_closes_fence(lines[i]) {
        i
    } else {
        find_close_from(lines, i + 1)
    }
}

pub proof fn lemma_find_close_from(lines: Seq<Seq<char>>, i: int)
    requires
        0 <= i <= lines.len(),
    ensures
        i <= find_close_from(lines, i) <= lines.len(),
        find_close_from(lines, i) < lines.len() ==> line_closes_fence(
            lines[find_close_from(lines, i)],
        ),
        forall|m: int| i <= m < find_close_from(lines, i) ==> !line_closes_fence(lines[m]),
    decreases lines.len() - i,
{
    if i < lines.len() && !line_closes_fence(lines[i]) {
        lemma_find_close_from(lines, i + 1);
    }
}

/// The fences of the document from line `i` on: an opening line and the
/// first closing line after it delimit a fence whose code is the joined
/// interior; an opening line with no close is dropped, and scanning
/// resumes after each close.
pub open spec fn spec_fences(lines: Seq<Seq<char>>, i: int) -> Seq<FenceModel>
    decreases lines.len() - i,
{
    if i < 0 || i >= lines.len() {
        Seq::empty()
    } else if line_opens_fence(lines[i]) {
        let j = find_close_from(lines, i + 1);
        if j < lines.len() {
            seq![
                FenceModel {
                    start_line: i,
                    end_line: j,
                    code: join_lines(lines.subrange(i + 1, j)),
                },
            ] + spec_fences(lines, max(i + 1, j + 1))
        } else {
            Seq::empty()
        }
    } else {
        spec_fences(lines, i + 1)
    }
}

// ---------------------------------------------------------------------------
// The rendered-block scan, specified
// ---------------------------------------------------------------------------

/// Smallest index at or after `i` whose line is not blank, or the line
/// count.
pub open spec fn first_nonblank(lines: Seq<Seq<char>>, i: int) -> int
    decreases lines.len() - i,
{
    if i < 0 || i >= lines.len() {
        lines.len() as int
    } else if !line_is_blank(lines[i]) {
        i
    } else {
        first_nonblank(lines, i + 1)
    }
}

pub proof fn lemma_first_nonblank(lines: Seq<Seq<char>>, i: int)
    requires
        0 <= i <= lines.len(),
    ensures
        i <= first_nonblank(lines, i) <= lines.len(),
        first_nonblank(lines, i) < lines.len() ==> !line_is_blank(
            lines[first_nonblank(lines, i)],
        ),
        forall|m: int| i <= m < first_nonblank(lines, i) ==> line_is_blank(lines[m]),
    decreases lines.len() - i,
{
    if i < lines.len() && line_is_blank(lines[i]) {
        lemma_first_nonblank(lines, i + 1);
    }
}

/// Where a rendered block starting at marker line `i` ends: at the first
/// non-blank line after it when that is an image reference, else at the
/// marker line itself.
pub open spec fn block_end(lines: Seq<Seq<char>>, i: int) -> int {
    let j = first_nonblank(lines, i + 1);
    if j < lines.len() && line_is_image_ref(lines[j]) {
        j
    } else {
        i
    }
}

/// The rendered blocks of the document from line `i` on.  A marker line
/// opens a block; the block ends at its image reference (or the marker
/// line); scanning resumes strictly after the block, so blocks never
/// overlap.
pub open spec fn spec_blocks(lines: Seq<Seq<char>>, i: int) -> Seq<BlockModel>
    decreases lines.len() - i,
{
    if i < 0 || i >= lines.len() {
        Seq::empty()
    } else {
        match line_marker_path(lines[i]) {
            Some(path) => {
                let e = block_end(lines, i);
                seq![BlockModel { comment_line: i, end_line: e, source_file: path }]
                    + spec_blocks(lines, max(i + 1, e + 1))
            },
            None => spec_blocks(lines, i + 1),
        }
    }
}

/// Fences come out of a scan in document order, pairwise disjoint: each
/// spans at least two lines inside the document, and each ends strictly
/// before the next begins.  Edits built over them in reverse order can
/// therefore never invalidate one another's line numbers.
pub proof fn lemma_fences_ordered(lines: Seq<Seq<char>>, i: int)
    requires
        0 <= i,
    ensures
        forall|k: int|
            0 <= k < spec_fences(lines, i).len() ==> {
                let f = #[trigger] spec_fences(lines, i)[k];
                i <= f.start_line && f.start_line < f.end_line && f.end_line < lines.len()
            },
        forall|k: int|
            0 <= k < spec_fences(lines, i).len() - 1 ==> (#[trigger] spec_fences(lines, i)[k]).end_line
                < spec_fences(lines, i)[k + 1].start_line,
    decreases lines.len() - i,
{
    if i >= lines.len() {
    } else if line_opens_fence(lines[i]) {
        let j = find_close_from(lines, i + 1);
        lemma_find_close_from(lines, i + 1);
        if j < lines.len() {
            lemma_fences_ordered(lines, j + 1);
            let rest = spec_fences(lines, j + 1);
            assert(max(i + 1, j + 1) == j + 1);
            assert forall|k: int|
                1 <= k < spec_fences(lines, i).len() implies (#[trigger] spec_fences(lines, i)[k])
                == rest[k - 1] by {}
        }
    } else {
        lemma_fences_ordered(lines, i + 1);
        assert forall|k: int|
            0 <= k < spec_fences(lines, i).len() implies (#[trigger] spec_fences(lines, i)[k])
            == spec_fences(lines, i + 1)[k] by {}
    }
}

/// Rendered blocks come out of a scan in document order, pairwise
/// disjoint: each spans from its marker line to an end line no earlier,
/// inside the document, and each ends strictly before the next begins.
pub proof fn lemma_blocks_ordered(lines: Seq<Seq<char>>, i: int)
    requires
        0 <= i,
    ensures
        forall|k: int|
            0 <= k < spec_blocks(lines, i).len() ==> {
                let b = #[trigger] spec_blocks(lines, i)[k];
                i <= b.comment_line && b.comment_line <= b.end_line && b.end_line < lines.len()
            },
        forall|k: int|
            0 <= k < spec_blocks(lines, i).len() - 1 ==> (#[trigger] spec_blocks(lines, i)[k]).end_line
                < spec_blocks(lines, i)[k + 1].comment_line,
    decreases lines.len() - i,
{
    if i >= lines.len() {
    } else {
        match line_marker_path(lines[i]) {
            Some(path) => {
                let e = block_end(lines, i);
                lemma_first_nonblank(lines, i + 1);
                assert(i <= e < lines.len());
                lemma_blocks_ordered(lines, e + 1);
                let rest = spec_blocks(lines, max(i + 1, e + 1));
                assert(max(i + 1, e + 1) == e + 1);
                assert forall|k: int|
                    1 <= k < spec_blocks(lines, i).len() implies (#[trigger] spec_blocks(
                    lines,
                    i,
                )[k]) == rest[k - 1] by {}
            },
            None => {
                lemma_blocks_ordered(lines, i + 1);
                assert forall|k: int|
                    0 <= k < spec_blocks(lines, i).len() implies (#[trigger] spec_blocks(
                    lines,
                    i,
                )[k]) == spec_blocks(lines, i + 1)[k] by {}
            },
        }
    }
}

// ---------------------------------------------------------------------------
// Classifying one line, executably
// ---------------------------------------------------------------------------

fn line_opens(l: &String) -> (r: bool)
    ensures
        r == line_opens_fence(l@),
{
    let v = str_chars(l.as_str());
    let a = trim_start_index(&v);
    let p1 = str_chars("```mermaid");
    let p2 = str_chars("````");
    let r1 = chars_match_at(&v, &p1, a);
    let r2 = chars_match_at(&v, &p2, a);
    proof {
        lemma_sub_at_skip(v@, p1@, a as int);
        lemma_sub_at_skip(v@, p2@, a as int);
    }
    r1 && !r2
}

fn line_closes(l: &String) -> (r: bool)
    ensures
        r == line_closes_fence(l@),
{
    let v = str_chars(l.as_str());
    let a = trim_start_index(&v);
    let p1 = str_chars("```");
    let p2 = str_chars("```\r");
    let exact = chars_match_at(&v, &p1, a) && v.len() - a == 3;
    let cr = chars_match_at(&v, &p2, a);
    proof {
        reveal_strlit("```");
        lemma_sub_at_skip(v@, p1@, a as int);
        lemma_sub_at_skip(v@, p2@, a as int);
        let t = trim_start_spec(l@);
        assert(t == v@.skip(a as int));
        if has_prefix(t, p1@) && t.len() == 3 {
            assert(t =~= p1@);
        }
        if t == p1@ {
            assert(has_prefix(t, p1@));
        }
    }
    exact || cr
}

fn line_blank(l: &String) -> (r: bool)
    ensures
        r == line_is_blank(l@),
{
    let v = str_chars(l.as_str());
    let b = trim_bounds(&v);
    b.1 == b.0
}

fn line_image_ref(l: &String) -> (r: bool)
    ensures
        r == line_is_image_ref(l@),
{
    let v = str_chars(l.as_str());
    let b = trim_bounds(&v);
    let t = subvec(&v, b.0, b.1);
    let p1 = str_chars("![");
    let p2 = str_chars("(.mermaid/");
    let pre = chars_match_at(&t, &p1, 0);
    if !pre {
        return false;
    }
    let found = find_sub_from(&t, &p2, 0);
    match found {
        Some(_) => true,
        None => false,
    }
}

/// Extracts the stored-source path from a marker comment line, if the
/// trimmed line matches the marker format exactly at both ends.
pub fn extract_source_file_path(line: &str) -> (r: Option<String>)
    ensures
        match r {
            Some(p) => line_marker_path(line@) matches Some(q) && p@ == q,
            None => line_marker_path(line@) is None,
        },
{
    let v = str_chars(line);
    let b = trim_bounds(&v);
    let t = subvec(&v, b.0, b.1);
    let pre = str_chars("<!-- mermaid-source-file:");
    let suf = str_chars("-->");
    proof {
        reveal_strlit("<!-- mermaid-source-file:");
        reveal_strlit("-->");
        assert(t@ == trim_spec(line@));
    }
    if t.len() < 28 {
        return None;
    }
    let has_pre = chars_match_at(&t, &pre, 0);
    let has_suf = chars_match_at(&t, &suf, t.len() - 3);
    if !(has_pre && has_suf) {
        return None;
    }
    let inner = subvec(&t, 25, t.len() - 3);
    let ib = trim_bounds(&inner);
    let path = string_from_chars(&inner, ib.0, ib.1);
    proof {
        let tt = trim_spec(line@);
        assert(tt == t@);
        assert(has_suffix(tt, marker_suffix()));
        assert(inner@ == tt.subrange(
            marker_prefix().len() as int,
            tt.len() - marker_suffix().len(),
        ));
    }
    Some(path)
}

// ---------------------------------------------------------------------------
// The scans, executably
// ---------------------------------------------------------------------------

/// Finds all diagram fences of a document, in document order.
pub fn find_all_mermaid_fences(lines: &Vec<String>) -> (r: Vec<MermaidFence>)
    ensures
        fences_view(r@) == spec_fences(view_lines(lines@), 0),
{
    let ghost ls = view_lines(lines@);
    let n = lines.len();
    let mut fences: Vec<MermaidFence> = Vec::new();
    let mut i: usize = 0;
    proof {
        assert(fences_view(fences@) + spec_fences(ls, 0) =~~= spec_fences(ls, 0));
    }
    while i < n
        invariant
            n == lines@.len(),
            ls == view_lines(lines@),
            i <= n,
            fences_view(fences@) + spec_fences(ls, i as int) == spec_fences(ls, 0),
        decreases n - i,
    {
        proof {
            assert(ls[i as int] == lines@[i as int]@);
        }
        if line_opens(&lines[i]) {
            let mut j = i + 1;
            while j < n && !line_closes(&lines[j])
                invariant
                    n == lines@.len(),
                    ls == view_lines(lines@),
                    i + 1 <= j <= n,
                    forall|m: int| i + 1 <= m < j ==> !line_closes_fence(ls[m]),
                decreases n - j,
            {
                proof {
                    assert(ls[j as int] == lines@[j as int]@);
                }
                j = j + 1;
            }
            proof {
                if j < n {
                    assert(ls[j as int] == lines@[j as int]@);
                }
                lemma_find_close_at(ls, i + 1, j as int);
            }
            if j < n {
                let code = join_range(lines, i + 1, j);
                let fence = MermaidFence { start_line: i, end_line: j, code };
                proof {
                    let f = FenceModel {
                        start_line: i as int,
                        end_line: j as int,
                        code: join_lines(ls.subrange(i + 1, j as int)),
                    };
                    assert(fence@ =~= f);
                    assert(spec_fences(ls, i as int) =~~= seq![f] + spec_fences(ls, j + 1));
                }
                let ghost pre = fences@;
                fences.push(fence);
                proof {
                    assert(fences_view(fences@) =~~= fences_view(pre).push(fence@));
                    assert(fences_view(fences@) + spec_fences(ls, j + 1) =~~= spec_fences(ls, 0));
                }
                i = j + 1;
            } else {
                proof {
                    assert(spec_fences(ls, i as int) =~~= Seq::<FenceModel>::empty());
                    assert(fences_view(fences@) =~~= spec_fences(ls, 0));
                }
                return fences;
            }
        } else {
            proof {
                assert(spec_fences(ls, i as int) == spec_fences(ls, i + 1));
            }
            i = i + 1;
        }
    }
    proof {
        assert(spec_fences(ls, i as int) =~~= Seq::<FenceModel>::empty());
        assert(fences_view(fences@) =~~= spec_fences(ls, 0));
    }
    fences
}

pub proof fn lemma_find_close_at(ls: Seq<Seq<char>>, from: int, j: int)
    requires
        0 <= from <= j <= ls.len(),
        forall|m: int| from <= m < j ==> !line_closes_fence(ls[m]),
        j < ls.len() ==> line_closes_fence(ls[j]),
    ensures
        find_close_from(ls, from) == j,
    decreases j - from,
{
    if from < j {
        lemma_find_close_at(ls, from + 1, j);
    }
}

/// Joins the given line range with newlines, as fence code.
fn join_range(lines: &Vec<String>, from: usize, to: usize) -> (r: String)
    requires
        from <= to <= lines@.len(),
    ensures
        r@ == join_lines(view_lines(lines@).subrange(from as int, to as int)),
{
    let ghost ls = view_lines(lines@);
    let mut r = String::new();
    let mut k = from;
    proof {
        assert(ls.subrange(from as int, from as int) =~~= Seq::<Seq<char>>::empty());
    }
    while k < to
        invariant
            from <= k <= to <= lines@.len(),
            ls == view_lines(lines@),
            r@ == join_lines(ls.subrange(from as int, k as int)),
        decreases to - k,
    {
        if k > from {
            crate::text::string_push(&mut r, '\n');
            r.append(lines[k].as_str());
        } else {
            r.append(lines[k].as_str());
        }
        proof {
            let prev = ls.subrange(from as int, k as int);
            assert(ls.subrange(from as int, k + 1) =~~= prev.push(ls[k as int]));
            lemma_join_lines_push(prev, ls[k as int]);
            assert(ls[k as int] == lines@[k as int]@);
        }
        k = k + 1;
    }
    r
}

/// The first fence whose inclusive line range holds the cursor.
pub fn find_mermaid_fence(lines: &Vec<String>, cursor_line: usize) -> (r: Option<MermaidFence>)
    ensures
        match r {
            Some(f) => fence_at(spec_fences(view_lines(lines@), 0), cursor_line as int)
                matches Some(m) && f@ == m,
            None => fence_at(spec_fences(view_lines(lines@), 0), cursor_line as int) is None,
        },
{
    let fences = find_all_mermaid_fences(lines);
    let ghost models = spec_fences(view_lines(lines@), 0);
    let mut k: usize = 0;
    proof {
        assert(models.skip(0) =~~= models);
    }
    while k < fences.len()
        invariant
            models == spec_fences(view_lines(lines@), 0),
            fences_view(fences@) == models,
            k <= fences@.len(),
            fence_at(models, cursor_line as int) == fence_at(
                models.skip(k as int),
                cursor_line as int,
            ),
        decreases fences@.len() - k,
    {
        let f = &fences[k];
        proof {
            assert(models.skip(k as int)[0] == models[k as int]);
            assert(models[k as int] == fences@[k as int]@);
        }
        if f.start_line <= cursor_line && cursor_line <= f.end_line {
            let found = MermaidFence {
                start_line: f.start_line,
                end_line: f.end_line,
                code: f.code.clone(),
            };
            proof {
                assert(found@ =~= fences@[k as int]@);
                assert(fence_at(models.skip(k as int), cursor_line as int) == Some(
                    models[k as int],
                ));
            }
            return Some(found);
        }
        proof {
            assert(models.skip(k as int).skip(1) =~~= models.skip(k + 1));
        }
        k = k + 1;
    }
    proof {
        assert(models.skip(k as int) =~~= Seq::<FenceModel>::empty());
    }
    None
}

/// The first fence of a list that holds the cursor in its inclusive
/// line range.
pub open spec fn fence_at(fences: Seq<FenceModel>, cursor: int) -> Option<FenceModel>
    decreases fences.len(),
{
    if fences.len() == 0 {
        None
    } else if fences[0].start_line <= cursor <= fences[0].end_line {
        Some(fences[0])
    } else {
        fence_at(fences.skip(1), cursor)
    }
}

/// The first block of a list that holds the cursor in its inclusive
/// line range.
pub open spec fn block_at(blocks: Seq<BlockModel>, cursor: int) -> Option<BlockModel>
    decreases blocks.len(),
{
    if blocks.len() == 0 {
        None
    } else if blocks[0].comment_line <= cursor <= blocks[0].end_line {
        Some(blocks[0])
    } else {
        block_at(blocks.skip(1), cursor)
    }
}

/// Cursor containment is inclusive at both fence boundaries and nowhere
/// else: a cursor lookup answers a fence exactly when some fence's
/// inclusive line range holds the cursor — so a cursor on the opening or
/// closing line is inside, and one outside every fence's range (a line
/// before an opening or after a closing) finds nothing.
pub proof fn lemma_fence_at_hit(fences: Seq<FenceModel>, cursor: int)
    ensures
        match fence_at(fences, cursor) {
            Some(f) => fences.contains(f) && f.start_line <= cursor <= f.end_line,
            None => forall|k: int|
                0 <= k < fences.len() ==> !((#[trigger] fences[k]).start_line <= cursor
                    <= fences[k].end_line),
        },
    decreases fences.len(),
{
    if fences.len() > 0 && !(fences[0].start_line <= cursor <= fences[0].end_line) {
        lemma_fence_at_hit(fences.skip(1), cursor);
        match fence_at(fences.skip(1), cursor) {
            Some(f) => {
                let idx = choose|j: int| 0 <= j < fences.skip(1).len() && fences.skip(1)[j] == f;
                assert(fences[idx + 1] == f);
            },
            None => {
                assert forall|k: int|
                    0 <= k < fences.len() implies !((#[trigger] fences[k]).start_line <= cursor
                    <= fences[k].end_line) by {
                    if k > 0 {
                        assert(fences.skip(1)[k - 1] == fences[k]);
                    }
                }
            },
        }
    } else if fences.len() > 0 {
        assert(fences.contains(fences[0])) by {
            assert(0 <= 0 < fences.len() && fences[0] == fences[0]);
        }
    }
}

/// The same containment law for rendered blocks: a cursor lookup answers
/// a block exactly when some block's inclusive line range holds the
/// cursor.
pub proof fn lemma_block_at_hit(blocks: Seq<BlockModel>, cursor: int)
    ensures
        match block_at(blocks, cursor) {
            Some(b) => blocks.contains(b) && b.comment_line <= cursor <= b.end_line,
            None => forall|k: int|
                0 <= k < blocks.len() ==> !((#[trigger] blocks[k]).comment_line <= cursor
                    <= blocks[k].end_line),
        },
    decreases blocks.len(),
{
    if blocks.len() > 0 && !(blocks[0].comment_line <= cursor <= blocks[0].end_line) {
        lemma_block_at_hit(blocks.skip(1), cursor);
        match block_at(blocks.skip(1), cursor) {
            Some(b) => {
                let idx = choose|j: int| 0 <= j < blocks.skip(1).len() && blocks.skip(1)[j] == b;
                assert(blocks[idx + 1] == b);
            },
            None => {
                assert forall|k: int|
                    0 <= k < blocks.len() implies !((#[trigger] blocks[k]).comment_line <= cursor
                    <= blocks[k].end_line) by {
                    if k > 0 {
                        assert(blocks.skip(1)[k - 1] == blocks[k]);
                    }
                }
            },
        }
    } else if blocks.len() > 0 {
        assert(blocks.contains(blocks[0])) by {
            assert(0 <= 0 < blocks.len() && blocks[0] == blocks[0]);
        }
    }
}

/// Finds all rendered blocks of a document, in document order.
pub fn find_all_rendered_blocks(lines: &Vec<String>) -> (r: Vec<RenderedBlock>)
    ensures
        blocks_view(r@) == spec_blocks(view_lines(lines@), 0),
{
    let ghost ls = view_lines(lines@);
    let n = lines.len();
    let mut blocks: Vec<RenderedBlock> = Vec::new();
    let mut i: usize = 0;
    proof {
        assert(blocks_view(blocks@) + spec_blocks(ls, 0) =~~= spec_blocks(ls, 0));
    }
    while i < n
        invariant
            n == lines@.len(),
            ls == view_lines(lines@),
            i <= n,
            blocks_view(blocks@) + spec_blocks(ls, i as int) == spec_blocks(ls, 0),
        decreases n - i,
    {
        proof {
            assert(ls[i as int] == lines@[i as int]@);
        }
        match extract_source_file_path(lines[i].as_str()) {
            Some(source_file) => {
                let mut j = i + 1;
                while j < n && line_blank(&lines[j])
                    invariant
                        n == lines@.len(),
                        ls == view_lines(lines@),
                        i + 1 <= j <= n,
                        forall|m: int| i + 1 <= m < j ==> line_is_blank(ls[m]),
                    decreases n - j,
                {
                    proof {
                        assert(ls[j as int] == lines@[j as int]@);
                    }
                    j = j + 1;
                }
                proof {
                    if j < n {
                        assert(ls[j as int] == lines@[j as int]@);
                    }
                    lemma_first_nonblank_at(ls, i + 1, j as int);
                }
                let end = if j < n && line_image_ref(&lines[j]) {
                    j
                } else {
                    i
                };
                let block = RenderedBlock { comment_line: i, end_line: end, source_file };
                proof {
                    let m = BlockModel {
                        comment_line: i as int,
                        end_line: end as int,
                        source_file: block.source_file@,
                    };
                    assert(block@ =~= m);
                    assert(spec_blocks(ls, i as int) =~~= seq![m] + spec_blocks(ls, end + 1));
                }
                let ghost pre = blocks@;
                let ghost bm = block@;
                blocks.push(block);
                proof {
                    assert(blocks_view(blocks@) =~~= blocks_view(pre).push(bm));
                    assert(blocks_view(blocks@) + spec_blocks(ls, end + 1) =~~= spec_blocks(
                        ls,
                        0,
                    ));
                }
                i = end + 1;
            },
            None => {
                proof {
                    assert(spec_blocks(ls, i as int) == spec_blocks(ls, i + 1));
                }
                i = i + 1;
            },
        }
    }
    proof {
        assert(spec_blocks(ls, i as int) =~~= Seq::<BlockModel>::empty());
        assert(blocks_view(blocks@) =~~= spec_blocks(ls, 0));
    }
    blocks
}

pub proof fn lemma_first_nonblank_at(ls: Seq<Seq<char>>, from: int, j: int)
    requires
        0 <= from <= j <= ls.len(),
        forall|m: int| from <= m < j ==> line_is_blank(ls[m]),
        j < ls.len() ==> !line_is_blank(ls[j]),
    ensures
        first_nonblank(ls, from) == j,
    decreases j - from,
{
    if from < j {
        lemma_first_nonblank_at(ls, from + 1, j);
    }
}

/// The first rendered block whose inclusive line range holds the cursor.
pub fn find_rendered_block_at(lines: &Vec<String>, cursor_line: usize) -> (r: Option<
    RenderedBlock,
>)
    ensures
        match r {
            Some(b) => block_at(spec_blocks(view_lines(lines@), 0), cursor_line as int)
                matches Some(m) && b@ == m,
            None => block_at(spec_blocks(view_lines(lines@), 0), cursor_line as int) is None,
        },
{
    let blocks = find_all_rendered_blocks(lines);
    let ghost models = spec_blocks(view_lines(lines@), 0);
    let mut k: usize = 0;
    proof {
        assert(models.skip(0) =~~= models);
    }
    while k < blocks.len()
        invariant
            models == spec_blocks(view_lines(lines@), 0),
            blocks_view(blocks@) == models,
            k <= blocks@.len(),
            block_at(models, cursor_line as int) == block_at(
                models.skip(k as int),
                cursor_line as int,
            ),
        decreases blocks@.len() - k,
    {
        let b = &blocks[k];
        proof {
            assert(models.skip(k as int)[0] == models[k as int]);
            assert(models[k as int] == blocks@[k as int]@);
        }
        if b.comment_line <= cursor_line && cursor_line <= b.end_line {
            let found = RenderedBlock {
                comment_line: b.comment_line,
                end_line: b.end_line,
                source_file: b.source_file.clone(),
            };
            proof {
                assert(found@ =~= blocks@[k as int]@);
                assert(block_at(models.skip(k as int), cursor_line as int) == Some(
                    models[k as int],
                ));
            }
            return Some(found);
        }
        proof {
            assert(models.skip(k as int).skip(1) =~~= models.skip(k + 1));
        }
        k = k + 1;
    }
    proof {
        assert(models.skip(k as int) =~~= Seq::<BlockModel>::empty());
    }
    None
}

// ---------------------------------------------------------------------------
// Document-level helpers
// ---------------------------------------------------------------------------

/// Whether any line opens with the mermaid fence token (after leading
/// whitespace); used to decide whether bulk rendering is worth offering.
pub fn has_fence_open_line(lines: &Vec<String>) -> (r: bool)
    ensures
        r == exists|k: int|
            0 <= k < lines@.len() && has_prefix(
                trim_start_spec(#[trigger] view_lines(lines@)[k]),
                "```mermaid"@,
            ),
{
    let ghost ls = view_lines(lines@);
    let mut i: usize = 0;
    while i < lines.len()
        invariant
            ls == view_lines(lines@),
            i <= lines@.len(),
            forall|k: int|
                0 <= k < i ==> !has_prefix(trim_start_spec(#[trigger] ls[k]), "```mermaid"@),
        decreases lines@.len() - i,
    {
        let v = str_chars(lines[i].as_str());
        let a = trim_start_index(&v);
        let p = str_chars("```mermaid");
        let m = chars_match_at(&v, &p, a);
        proof {
            lemma_sub_at_skip(v@, p@, a as int);
            assert(ls[i as int] == lines@[i as int]@);
        }
        if m {
            return true;
        }
        i = i + 1;
    }
    false
}

/// Whether any line holds the marker comment prefix anywhere; used to
/// decide whether bulk restoring is worth offering.
pub fn has_marker_line(lines: &Vec<String>) -> (r: bool)
    ensures
        r == exists|k: int|
            0 <= k < lines@.len() && has_sub(#[trigger] view_lines(lines@)[k], marker_prefix()),
{
    let ghost ls = view_lines(lines@);
    let mut i: usize = 0;
    while i < lines.len()
        invariant
            ls == view_lines(lines@),
            i <= lines@.len(),
            forall|k: int| 0 <= k < i ==> !has_sub(#[trigger] ls[k], marker_prefix()),
        decreases lines@.len() - i,
    {
        let v = str_chars(lines[i].as_str());
        let p = str_chars("<!-- mermaid-source-file:");
        let m = find_sub_from(&v, &p, 0);
        proof {
            assert(ls[i as int] == lines@[i as int]@);
        }
        match m {
            Some(_) => {
                return true;
            },
            None => {},
        }
        i = i + 1;
    }
    false
}

} // verus!

use vstd::string::StrSliceExecFns;
use vstd::string::StringExecFns;
