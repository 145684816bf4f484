//! Input validation of diagram sources.
//!
//! A source is rejected when it is empty after trimming, larger than a
//! fixed byte ceiling, longer than a fixed line ceiling, holds a character
//! outside a whitelist (which excludes every shell metacharacter), or does
//! not open with a known diagram-type keyword.  The checks run in that
//! order and stop at the first failure.

use vstd::prelude::*;

verus! {

use crate::text::byte_size;
use crate::text::is_space;
use crate::text::trim_spec;
use crate::text::trim_start_spec;
use crate::text::trim_end_spec;
use crate::text::trim_start_index;
use crate::text::lines_of;
use crate::text::first_nl;
use crate::text::lemma_first_nl;
use crate::text::view_lines;
use crate::text::has_prefix;
use crate::text::lemma_sub_at_skip;
use crate::text::str_chars;
use crate::text::string_from_chars;
use crate::text::chars_match_at;

/// Ceiling on the byte length of a diagram source.
pub const MAX_SIZE_BYTES: usize = 1048576;

/// Ceiling on the line count of a diagram source.
pub const MAX_LINES: usize = 5000;

// ---------------------------------------------------------------------------
// The character whitelist
// ---------------------------------------------------------------------------

/// Characters a diagram source may hold anywhere: ASCII letters and
/// digits, whitespace, and a small punctuation set.  Shell metacharacters
/// such as `;`, `$`, backquote, `|`, `&`, `>` and `<` are all outside the
/// set; a closing angle bracket is accepted only as the tip of an arrow
/// (see `char_ok_at`).
pub open spec fn allowed_char(c: char) -> bool {
    ||| ('a' <= c && c <= 'z')
    ||| ('A' <= c && c <= 'Z')
    ||| ('0' <= c && c <= '9')
    ||| is_space(c)
    ||| c == '-'
    ||| c == '_'
    ||| c == '['
    ||| c == ']'
    ||| c == '('
    ||| c == ')'
    ||| c == '{'
    ||| c == '}'
    ||| c == ':'
    ||| c == ','
    ||| c == '.'
}

pub fn char_allowed(c: char) -> (r: bool)
    ensures
        r == allowed_char(c),
{
    ('a' <= c && c <= 'z') || ('A' <= c && c <= 'Z') || ('0' <= c && c <= '9')
        || crate::text::char_is_space(c) || c == '-' || c == '_' || c == '[' || c == ']'
        || c == '(' || c == ')' || c == '{' || c == '}' || c == ':' || c == ',' || c == '.'
}

/// The character at `i` is acceptable: on the whitelist, or a closing
/// angle bracket right after a dash or another one — the tip of a diagram
/// arrow, which is no shell redirect.  A bracket anywhere else is
/// rejected.
pub open spec fn char_ok_at(s: Seq<char>, i: int) -> bool {
    allowed_char(s[i]) || (s[i] == '>' && i > 0 && (s[i - 1] == '-' || s[i - 1] == '>'))
}

pub open spec fn all_chars_allowed(s: Seq<char>) -> bool {
    forall|i: int| 0 <= i < s.len() ==> #[trigger] char_ok_at(s, i)
}

// ---------------------------------------------------------------------------
// Diagram-type keywords
// ---------------------------------------------------------------------------

/// The known diagram-type keywords; a valid source starts with one of
/// them, after leading whitespace.
pub open spec fn diagram_keywords() -> Seq<Seq<char>> {
    seq![
        "graph"@,
        "flowchart"@,
        "sequenceDiagram"@,
        "classDiagram"@,
        "stateDiagram"@,
        "erDiagram"@,
        "journey"@,
        "gantt"@,
        "pie"@,
        "gitGraph"@,
        "mindmap"@,
        "timeline"@,
        "quadrantChart"@,
        "requirementDiagram"@,
        "zenuml"@,
        "sankey"@,
        "xyChart"@,
        "block"@,
    ]
}

/// The known diagram-type keywords as strings.
pub fn keyword_list() -> (r: Vec<String>)
    ensures
        view_lines(r@) == diagram_keywords(),
{
    let mut r: Vec<String> = Vec::new();
    r.push(String::from_str("graph"));
    r.push(String::from_str("flowchart"));
    r.push(String::from_str("sequenceDiagram"));
    r.push(String::from_str("classDiagram"));
    r.push(String::from_str("stateDiagram"));
    r.push(String::from_str("erDiagram"));
    r.push(String::from_str("journey"));
    r.push(String::from_str("gantt"));
    r.push(String::from_str("pie"));
    r.push(String::from_str("gitGraph"));
    r.push(String::from_str("mindmap"));
    r.push(String::from_str("timeline"));
    r.push(String::from_str("quadrantChart"));
    r.push(String::from_str("requirementDiagram"));
    r.push(String::from_str("zenuml"));
    r.push(String::from_str("sankey"));
    r.push(String::from_str("xyChart"));
    r.push(String::from_str("block"));
    proof {
        assert(view_lines(r@) =~~= diagram_keywords());
    }
    r
}

/// The source opens, after leading whitespace, with a known keyword.
pub open spec fn known_diagram_type(s: Seq<char>) -> bool {
    exists|k: int|
        0 <= k < diagram_keywords().len() && has_prefix(
            trim_start_spec(s),
            #[trigger] diagram_keywords()[k],
        )
}

// ---------------------------------------------------------------------------
// The first whitespace-delimited token
// ---------------------------------------------------------------------------

pub open spec fn first_space_idx(t: Seq<char>) -> nat
    decreases t.len(),
{
    if t.len() == 0 {
        0
    } else if is_space(t[0]) {
        0
    } else {
        1 + first_space_idx(t.skip(1))
    }
}

proof fn lemma_first_space_at(t: Seq<char>, k: nat)
    requires
        k <= t.len(),
        forall|m: int| 0 <= m < k ==> !is_space(t[m]),
        k < t.len() ==> is_space(t[k as int]),
    ensures
        first_space_idx(t) == k,
    decreases k,
{
    if k > 0 {
        let t1 = t.skip(1);
        assert(forall|m: int| 0 <= m < k - 1 ==> (#[trigger] t1[m]) == t[m + 1]);
        assert(k - 1 < t1.len() ==> t1[k - 1] == t[k as int]);
        lemma_first_space_at(t1, (k - 1) as nat);
    }
}

/// The first whitespace-delimited token of the trimmed source.
pub open spec fn first_token(s: Seq<char>) -> Seq<char> {
    let t = trim_start_spec(s);
    t.take(first_space_idx(t) as int)
}

// ---------------------------------------------------------------------------
// Counting lines
// ---------------------------------------------------------------------------

pub open spec fn nl_count(s: Seq<char>) -> nat
    decreases s.len(),
{
    if s.len() == 0 {
        0
    } else {
        (if s[0] == '\n' {
            1nat
        } else {
            0nat
        }) + nl_count(s.skip(1))
    }
}

proof fn lemma_nl_count_bound(s: Seq<char>)
    ensures
        nl_count(s) <= s.len(),
        s.len() > 0 && s[s.len() - 1] != '\n' ==> nl_count(s) < s.len(),
    decreases s.len(),
{
    if s.len() > 0 {
        lemma_nl_count_bound(s.skip(1));
        if s.len() > 1 {
            assert(s.skip(1)[s.skip(1).len() - 1] == s[s.len() - 1]);
        }
    }
}

proof fn lemma_nl_count_chunk(s: Seq<char>, k: nat)
    requires
        k < s.len(),
        forall|m: int| 0 <= m < k ==> s[m] != '\n',
        s[k as int] == '\n',
    ensures
        nl_count(s) == 1 + nl_count(s.skip(k + 1 as int)),
    decreases k,
{
    if k == 0 {
    } else {
        let s1 = s.skip(1);
        assert(forall|m: int| 0 <= m < k - 1 ==> (#[trigger] s1[m]) == s[m + 1]);
        assert(s1[k - 1] == s[k as int]);
        lemma_nl_count_chunk(s1, (k - 1) as nat);
        assert(s1.skip(k as int) =~= s.skip(k + 1 as int));
    }
}

/// The number of lines is the newline count, plus one when the text does
/// not end at a newline.
pub proof fn lemma_line_count(t: Seq<char>)
    ensures
        lines_of(t).len() == nl_count(t) + (if t.len() > 0 && t[t.len() - 1] != '\n' {
            1int
        } else {
            0int
        }),
    decreases t.len(),
{
    if t.len() > 0 {
        let k = first_nl(t);
        lemma_first_nl(t);
        if k >= t.len() {
            lemma_nl_count_bound(t);
            assert(nl_count(t) == 0) by {
                lemma_nl_count_none(t);
            }
        } else {
            lemma_nl_count_chunk(t, k);
            let u = t.skip(k + 1 as int);
            lemma_line_count(u);
            if u.len() > 0 {
                assert(u[u.len() - 1] == t[t.len() - 1]);
            } else {
                assert(t[t.len() - 1] == '\n');
            }
        }
    }
}

proof fn lemma_nl_count_none(s: Seq<char>)
    requires
        forall|m: int| 0 <= m < s.len() ==> s[m] != '\n',
    ensures
        nl_count(s) == 0,
    decreases s.len(),
{
    if s.len() > 0 {
        let s1 = s.skip(1);
        assert(forall|m: int| 0 <= m < s1.len() ==> (#[trigger] s1[m]) == s[m + 1]);
        lemma_nl_count_none(s1);
    }
}

fn count_lines(v: &Vec<char>) -> (r: usize)
    ensures
        r == lines_of(v@).len(),
{
    let n = v.len();
    let mut cnt: usize = 0;
    let mut i: usize = 0;
    proof {
        assert(v@.skip(0) =~= v@);
    }
    while i < n
        invariant
            n == v@.len(),
            i <= n,
            cnt <= i,
            cnt + nl_count(v@.skip(i as int)) == nl_count(v@),
        decreases n - i,
    {
        proof {
            assert(v@.skip(i as int)[0] == v@[i as int]);
            assert(v@.skip(i as int).skip(1) =~= v@.skip(i + 1));
        }
        if v[i] == '\n' {
            cnt = cnt + 1;
        }
        i = i + 1;
    }
    proof {
        assert(nl_count(v@.skip(n as int)) == 0);
        lemma_line_count(v@);
        lemma_nl_count_bound(v@);
    }
    if n > 0 && v[n - 1] != '\n' {
        cnt + 1
    } else {
        cnt
    }
}

// ---------------------------------------------------------------------------
// The validator
// ---------------------------------------------------------------------------

/// Input validation errors.
#[derive(Debug, Clone, PartialEq, Eq)]
pub enum ValidationError {
    TooLarge { size: usize, max: usize },
    TooManyLines { lines: usize, max: usize },
    InvalidCharacters { hint: String },
    EmptyInput,
    UnknownDiagramType { found: String, allowed: Vec<String> },
}

/// A source passes every check of a validator with the given limits.
pub open spec fn validation_passes(s: Seq<char>, max_bytes: int, max_lines: int) -> bool {
    &&& trim_spec(s).len() > 0
    &&& byte_size(s) <= max_bytes
    &&& lines_of(s).len() <= max_lines
    &&& all_chars_allowed(s)
    &&& known_diagram_type(s)
}

/// Input validator with security limits.
pub struct InputValidator {
    pub max_size_bytes: usize,
    pub max_lines: usize,
}

impl InputValidator {
    /// A validator with the default limits.
    pub fn new() -> (r: Self)
        ensures
            r.max_size_bytes == MAX_SIZE_BYTES,
            r.max_lines == MAX_LINES,
    {
        Self { max_size_bytes: MAX_SIZE_BYTES, max_lines: MAX_LINES }
    }

    /// Validates a diagram source, stopping at the first failed check:
    /// emptiness, byte size, line count, character whitelist, and known
    /// diagram type, in that order.
    #[verifier::rlimit(60)]
    pub fn validate(&self, source: &str) -> (r: Result<(), ValidationError>)
        ensures
            r is Ok <==> validation_passes(
                source@,
                self.max_size_bytes as int,
                self.max_lines as int,
            ),
            r matches Err(e) ==> match e {
                ValidationError::EmptyInput => trim_spec(source@).len() == 0,
                ValidationError::TooLarge { size, max } => {
                    &&& trim_spec(source@).len() > 0
                    &&& size == byte_size(source@)
                    &&& max == self.max_size_bytes
                    &&& size > max
                },
                ValidationError::TooManyLines { lines, max } => {
                    &&& trim_spec(source@).len() > 0
                    &&& byte_size(source@) <= self.max_size_bytes
                    &&& lines == lines_of(source@).len()
                    &&& max == self.max_lines
                    &&& lines > max
                },
                ValidationError::InvalidCharacters { hint } => {
                    &&& trim_spec(source@).len() > 0
                    &&& byte_size(source@) <= self.max_size_bytes
                    &&& lines_of(source@).len() <= self.max_lines
                    &&& !all_chars_allowed(source@)
                    &&& hint@ == invalid_chars_hint()
                },
                ValidationError::UnknownDiagramType { found, allowed } => {
                    &&& trim_spec(source@).len() > 0
                    &&& byte_size(source@) <= self.max_size_bytes
                    &&& lines_of(source@).len() <= self.max_lines
                    &&& all_chars_allowed(source@)
                    &&& !known_diagram_type(source@)
                    &&& found@ == first_token(source@)
                    &&& view_lines(allowed@) == diagram_keywords()
                },
            },
    {
        let v = str_chars(source);
        let n = v.len();

        // Emptiness after trimming.
        let a = trim_start_index(&v);
        if a == n {
            proof {
                lemma_trim_empty(v@);
            }
            return Err(ValidationError::EmptyInput);
        }
        proof {
            assert(trim_start_spec(v@).len() > 0);
            lemma_trim_start_head(v@);
            lemma_trim_end_keeps_head(trim_start_spec(v@));
        }

        // Byte size.
        let size = source.len();
        if size > self.max_size_bytes {
            return Err(ValidationError::TooLarge { size, max: self.max_size_bytes });
        }

        // Line count.
        let lines = count_lines(&v);
        if lines > self.max_lines {
            return Err(ValidationError::TooManyLines { lines, max: self.max_lines });
        }

        // Character whitelist.
        let mut i: usize = 0;
        while i < n
            invariant
                n == v@.len(),
                v@ == source@,
                i <= n,
                trim_spec(source@).len() > 0,
                byte_size(source@) <= self.max_size_bytes,
                lines_of(source@).len() <= self.max_lines,
                forall|k: int| 0 <= k < i ==> #[trigger] char_ok_at(v@, k),
            decreases n - i,
        {
            let ok = char_allowed(v[i]) || (v[i] == '>' && i > 0 && (v[i - 1] == '-' || v[i - 1]
                == '>'));
            if !ok {
                proof {
                    assert(!char_ok_at(source@, i as int));
                    assert(!all_chars_allowed(source@));
                }
                return Err(ValidationError::InvalidCharacters {
                    hint: String::from_str(
                        "Only alphanumeric, whitespace, and basic punctuation allowed (no shell metacharacters)",
                    ),
                });
            }
            i = i + 1;
        }

        // Diagram-type keyword.
        let kws = keyword_list();
        let mut k: usize = 0;
        while k < kws.len()
            invariant
                view_lines(kws@) == diagram_keywords(),
                k <= kws@.len(),
                v@ == source@,
                a <= v@.len(),
                v@.skip(a as int) == trim_start_spec(v@),
                trim_spec(source@).len() > 0,
                byte_size(source@) <= self.max_size_bytes,
                lines_of(source@).len() <= self.max_lines,
                all_chars_allowed(source@),
                forall|m: int|
                    0 <= m < k ==> !has_prefix(trim_start_spec(v@), #[trigger] diagram_keywords()[m]),
            decreases kws@.len() - k,
        {
            let kc = str_chars(kws[k].as_str());
            proof {
                assert(kws@[k as int]@ == diagram_keywords()[k as int]);
            }
            if chars_match_at(&v, &kc, a) {
                proof {
                    lemma_sub_at_skip(v@, kc@, a as int);
                }
                return Ok(());
            }
            proof {
                lemma_sub_at_skip(v@, kc@, a as int);
            }
            k = k + 1;
        }

        // No keyword matched: report the first token and the allowed set.
        let mut j: usize = a;
        while j < n && !crate::text::char_is_space(v[j])
            invariant
                n == v@.len(),
                v@ == source@,
                a <= j <= n,
                v@.skip(a as int) == trim_start_spec(v@),
                trim_spec(source@).len() > 0,
                byte_size(source@) <= self.max_size_bytes,
                lines_of(source@).len() <= self.max_lines,
                all_chars_allowed(source@),
                !known_diagram_type(source@),
                view_lines(kws@) == diagram_keywords(),
                forall|m: int| a <= m < j ==> !is_space(v@[m]),
            decreases n - j,
        {
            j = j + 1;
        }
        let found = string_from_chars(&v, a, j);
        proof {
            let t = trim_start_spec(v@);
            assert(t =~= v@.skip(a as int));
            assert(forall|m: int| 0 <= m < j - a ==> (#[trigger] t[m]) == v@[m + a]);
            assert(j - a < t.len() ==> t[j - a] == v@[j as int]);
            lemma_first_space_at(t, (j - a) as nat);
            assert(t.take((j - a) as int) =~= v@.subrange(a as int, j as int));
        }
        Err(ValidationError::UnknownDiagramType { found, allowed: kws })
    }
}

impl Default for InputValidator {
    /// The same validator as `new` builds.
    fn default() -> (r: Self)
        ensures
            r.max_size_bytes == MAX_SIZE_BYTES,
            r.max_lines == MAX_LINES,
    {
        Self::new()
    }
}

pub open spec fn invalid_chars_hint() -> Seq<char> {
    "Only alphanumeric, whitespace, and basic punctuation allowed (no shell metacharacters)"@
}

proof fn lemma_trim_empty(s: Seq<char>)
    requires
        trim_start_spec(s).len() == 0,
    ensures
        trim_spec(s).len() == 0,
{
}

proof fn lemma_trim_start_head(s: Seq<char>)
    ensures
        trim_start_spec(s).len() > 0 ==> !is_space(trim_start_spec(s)[0]),
    decreases s.len(),
{
    if s.len() > 0 && is_space(s[0]) {
        lemma_trim_start_head(s.skip(1));
    }
}

/// Trimming from the end keeps a head that is not whitespace.
proof fn lemma_trim_end_keeps_head(x: Seq<char>)
    requires
        x.len() > 0,
        !is_space(x[0]),
    ensures
        trim_end_spec(x).len() > 0,
    decreases x.len(),
{
    if x.len() > 0 && is_space(x[x.len() - 1]) {
        assert(x.take(x.len() - 1)[0] == x[0]);
        lemma_trim_end_keeps_head(x.take(x.len() - 1));
    }
}

} // verus!

use vstd::string::StrSliceExecFns;
use vstd::string::StringExecFns;
