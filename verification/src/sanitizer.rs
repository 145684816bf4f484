//! SVG sanitization: text from an external renderer is rejected outright
//! when it holds a script element, stripped of event-handler attributes
//! and of `javascript:`-scheme references, and has every rich-text
//! container rewritten into a plain vector text element.
//!
//! The grammar of each rewrite is this crate's own security rule, stated
//! by the spec functions here and computed by verified scans; only the
//! decoding of markup entities relies on an outside crate.

use vstd::prelude::*;

verus! {

use crate::text::dec_digit;
use crate::text::dec_str;
use crate::text::find_sub_ci;
use crate::text::has_sub;
use crate::text::is_space;
use crate::text::lower_char;
use crate::text::lower_seq;
use crate::text::str_chars;
use crate::text::string_from_chars;
use crate::text::string_push;
use crate::text::sub_at;
use crate::text::subvec;
use crate::text::trim_bounds;
use crate::text::trim_spec;
use crate::text::char_is_space;
use crate::text::char_to_lower;
use crate::text::chars_match_at;
use crate::text::dec_digit_char;
use crate::text::push_u64_dec;

// ---------------------------------------------------------------------------
// Errors
// ---------------------------------------------------------------------------

/// Sanitization failure: the input held content that must not be
/// repaired, only refused.
#[derive(Debug, Clone, PartialEq, Eq)]
pub enum SanitizeError {
    Blocked(String),
}

pub open spec fn blocked_text() -> Seq<char> {
    "SVG holds <script> elements - blocked for security"@
}

/// The hard-stop condition: a script element opener anywhere, in any
/// character case.
pub open spec fn has_script(s: Seq<char>) -> bool {
    has_sub(lower_seq(s), "<script"@)
}

// ---------------------------------------------------------------------------
// Character runs and searches
// ---------------------------------------------------------------------------

/// Length of the whitespace run at `i`.
pub open spec fn space_run(s: Seq<char>, i: int) -> int
    decreases s.len() - i,
{
    if i < 0 || i >= s.len() || !is_space(s[i]) {
        0
    } else {
        1 + space_run(s, i + 1)
    }
}

/// A character of an event-handler attribute name (after the `on`).
pub open spec fn is_name_char(c: char) -> bool {
    ('a' <= c && c <= 'z') || ('A' <= c && c <= 'Z') || ('0' <= c && c <= '9') || c == '_' || c
        == '.' || c == ':' || c == '-'
}

/// Length of the attribute-name run at `i`.
pub open spec fn name_run(s: Seq<char>, i: int) -> int
    decreases s.len() - i,
{
    if i < 0 || i >= s.len() || !is_name_char(s[i]) {
        0
    } else {
        1 + name_run(s, i + 1)
    }
}

/// Length of the bare-value run at `i`: up to whitespace or a closing
/// angle bracket.
pub open spec fn bare_run(s: Seq<char>, i: int) -> int
    decreases s.len() - i,
{
    if i < 0 || i >= s.len() || is_space(s[i]) || s[i] == '>' {
        0
    } else {
        1 + bare_run(s, i + 1)
    }
}

/// Length of the run at `i` of characters other than a closing angle
/// bracket.
pub open spec fn nongt_run(s: Seq<char>, i: int) -> int
    decreases s.len() - i,
{
    if i < 0 || i >= s.len() || s[i] == '>' {
        0
    } else {
        1 + nongt_run(s, i + 1)
    }
}

/// Length of the ASCII digit run at `i`.
pub open spec fn digit_run(s: Seq<char>, i: int) -> int
    decreases s.len() - i,
{
    if i < 0 || i >= s.len() || !('0' <= s[i] && s[i] <= '9') {
        0
    } else {
        1 + digit_run(s, i + 1)
    }
}

/// First position of `c` at or after `i`, or the length.
pub open spec fn find_char(s: Seq<char>, i: int, c: char) -> int
    decreases s.len() - i,
{
    if i < 0 || i >= s.len() {
        s.len() as int
    } else if s[i] == c {
        i
    } else {
        find_char(s, i + 1, c)
    }
}

/// The pattern (given in lower case) occurs at `p` up to ASCII case.
pub open spec fn match_ci(s: Seq<char>, p: int, pat: Seq<char>) -> bool {
    0 <= p && p + pat.len() <= s.len() && forall|j: int|
        0 <= j < pat.len() ==> lower_char(s[p + j]) == pat[j]
}

// ---------------------------------------------------------------------------
// Bounds of the runs and searches
// ---------------------------------------------------------------------------

proof fn lemma_space_run_bound(s: Seq<char>, i: int)
    requires
        0 <= i <= s.len(),
    ensures
        0 <= space_run(s, i),
        i + space_run(s, i) <= s.len(),
    decreases s.len() - i,
{
    if i < s.len() && is_space(s[i]) {
        lemma_space_run_bound(s, i + 1);
    }
}

proof fn lemma_name_run_bound(s: Seq<char>, i: int)
    requires
        0 <= i <= s.len(),
    ensures
        0 <= name_run(s, i),
        i + name_run(s, i) <= s.len(),
    decreases s.len() - i,
{
    if i < s.len() && is_name_char(s[i]) {
        lemma_name_run_bound(s, i + 1);
    }
}

proof fn lemma_bare_run_bound(s: Seq<char>, i: int)
    requires
        0 <= i <= s.len(),
    ensures
        0 <= bare_run(s, i),
        i + bare_run(s, i) <= s.len(),
    decreases s.len() - i,
{
    if i < s.len() && !is_space(s[i]) && s[i] != '>' {
        lemma_bare_run_bound(s, i + 1);
    }
}

proof fn lemma_nongt_run_bound(s: Seq<char>, i: int)
    requires
        0 <= i <= s.len(),
    ensures
        0 <= nongt_run(s, i),
        i + nongt_run(s, i) <= s.len(),
    decreases s.len() - i,
{
    if i < s.len() && s[i] != '>' {
        lemma_nongt_run_bound(s, i + 1);
    }
}

proof fn lemma_find_char_bound(s: Seq<char>, i: int, c: char)
    requires
        0 <= i <= s.len(),
    ensures
        i <= find_char(s, i, c) <= s.len(),
    decreases s.len() - i,
{
    if i < s.len() && s[i] != c {
        lemma_find_char_bound(s, i + 1, c);
    }
}

// ---------------------------------------------------------------------------
// The event-handler attribute pattern
// ---------------------------------------------------------------------------

/// Length of an attribute value at `p`: a double- or single-quoted value
/// when its closing quote exists, else a bare run of characters that are
/// neither whitespace nor a closing angle bracket.  Zero when none of
/// these matches.
pub open spec fn value_match_len(s: Seq<char>, p: int) -> int {
    if p < 0 || p >= s.len() {
        0
    } else if s[p] == '"' && find_char(s, p + 1, '"') < s.len() {
        find_char(s, p + 1, '"') - p + 1
    } else if s[p] == '\'' && find_char(s, p + 1, '\'') < s.len() {
        find_char(s, p + 1, '\'') - p + 1
    } else {
        bare_run(s, p)
    }
}

/// Length of an event-handler attribute at `i` (zero when none starts
/// there): whitespace, `on` plus an attribute name in any character
/// case, an equals sign with optional whitespace around it, and a value.
pub open spec fn event_match_len(s: Seq<char>, i: int) -> int {
    if i < 0 || space_run(s, i) == 0 {
        0
    } else {
        let p0 = i + space_run(s, i);
        if p0 + 1 < s.len() && lower_char(s[p0]) == 'o' && lower_char(s[p0 + 1]) == 'n'
            && name_run(s, p0 + 2) > 0 {
            let p1 = p0 + 2 + name_run(s, p0 + 2);
            let p2 = p1 + space_run(s, p1);
            if p2 < s.len() && s[p2] == '=' {
                let p3 = p2 + 1 + space_run(s, p2 + 1);
                if value_match_len(s, p3) > 0 {
                    p3 + value_match_len(s, p3) - i
                } else {
                    0
                }
            } else {
                0
            }
        } else {
            0
        }
    }
}

proof fn lemma_value_match_bound(s: Seq<char>, p: int)
    requires
        0 <= p <= s.len(),
    ensures
        0 <= value_match_len(s, p),
        p + value_match_len(s, p) <= s.len(),
{
    if p < s.len() {
        lemma_find_char_bound(s, p + 1, '"');
        lemma_find_char_bound(s, p + 1, '\'');
        lemma_bare_run_bound(s, p);
    }
}

proof fn lemma_event_match_bound(s: Seq<char>, i: int)
    requires
        0 <= i <= s.len(),
    ensures
        event_match_len(s, i) == 0 || (0 < event_match_len(s, i) && i + event_match_len(s, i)
            <= s.len()),
{
    lemma_space_run_bound(s, i);
    if space_run(s, i) > 0 {
        let p0 = i + space_run(s, i);
        if p0 + 1 < s.len() && lower_char(s[p0]) == 'o' && lower_char(s[p0 + 1]) == 'n'
            && name_run(s, p0 + 2) > 0 {
            lemma_name_run_bound(s, p0 + 2);
            let p1 = p0 + 2 + name_run(s, p0 + 2);
            lemma_space_run_bound(s, p1);
            let p2 = p1 + space_run(s, p1);
            if p2 < s.len() && s[p2] == '=' {
                lemma_space_run_bound(s, p2 + 1);
                let p3 = p2 + 1 + space_run(s, p2 + 1);
                lemma_value_match_bound(s, p3);
            }
        }
    }
}

/// The text with every event-handler attribute removed, scanning from
/// `i`: each leftmost match is dropped whole, and scanning resumes right
/// after it.
pub open spec fn strip_events_from(s: Seq<char>, i: int) -> Seq<char>
    decreases s.len() - i,
{
    if i < 0 || i >= s.len() {
        Seq::empty()
    } else {
        let m = event_match_len(s, i);
        if 0 < m && i + m <= s.len() {
            strip_events_from(s, i + m)
        } else {
            seq![s[i]] + strip_events_from(s, i + 1)
        }
    }
}

// ---------------------------------------------------------------------------
// The javascript-scheme reference pattern
// ---------------------------------------------------------------------------

/// Length of a quoted `javascript:` value at `p` (zero when none): a
/// quoted value whose content is optional whitespace and then the scheme
/// name, in any character case.
pub open spec fn js_value_len(s: Seq<char>, p: int) -> int {
    if p < 0 || p >= s.len() {
        0
    } else if s[p] == '"' && find_char(s, p + 1, '"') < s.len() && js_inside(
        s,
        p + 1,
        find_char(s, p + 1, '"'),
    ) {
        find_char(s, p + 1, '"') - p + 1
    } else if s[p] == '\'' && find_char(s, p + 1, '\'') < s.len() && js_inside(
        s,
        p + 1,
        find_char(s, p + 1, '\''),
    ) {
        find_char(s, p + 1, '\'') - p + 1
    } else {
        0
    }
}

pub open spec fn js_inside(s: Seq<char>, a: int, q: int) -> bool {
    match_ci(s, a + space_run(s, a), "javascript:"@) && a + space_run(s, a) + 11 <= q
}

/// Length of a `javascript:`-scheme reference attribute at `i` (zero
/// when none starts there): whitespace, optionally `xlink:`, then
/// `href`, an equals sign with optional whitespace, and a quoted value
/// opening with the scheme name.
pub open spec fn href_match_len(s: Seq<char>, i: int) -> int {
    if i < 0 || space_run(s, i) == 0 {
        0
    } else {
        let p0 = i + space_run(s, i);
        let p1 = if match_ci(s, p0, "xlink:"@) {
            p0 + 6
        } else {
            p0
        };
        if match_ci(s, p1, "href"@) {
            let p2 = p1 + 4 + space_run(s, p1 + 4);
            if p2 < s.len() && s[p2] == '=' {
                let p3 = p2 + 1 + space_run(s, p2 + 1);
                if js_value_len(s, p3) > 0 {
                    p3 + js_value_len(s, p3) - i
                } else {
                    0
                }
            } else {
                0
            }
        } else {
            0
        }
    }
}

proof fn lemma_href_match_bound(s: Seq<char>, i: int)
    requires
        0 <= i <= s.len(),
    ensures
        href_match_len(s, i) == 0 || (0 < href_match_len(s, i) && i + href_match_len(s, i)
            <= s.len()),
{
    reveal_strlit("xlink:");
    reveal_strlit("href");
    lemma_space_run_bound(s, i);
    if space_run(s, i) > 0 {
        let p0 = i + space_run(s, i);
        let p1 = if match_ci(s, p0, "xlink:"@) {
            p0 + 6
        } else {
            p0
        };
        if match_ci(s, p1, "href"@) {
            lemma_space_run_bound(s, p1 + 4);
            let p2 = p1 + 4 + space_run(s, p1 + 4);
            if p2 < s.len() && s[p2] == '=' {
                lemma_space_run_bound(s, p2 + 1);
                let p3 = p2 + 1 + space_run(s, p2 + 1);
                if 0 <= p3 && p3 < s.len() {
                    lemma_find_char_bound(s, p3 + 1, '"');
                    lemma_find_char_bound(s, p3 + 1, '\'');
                }
            }
        }
    }
}

/// The text with every `javascript:`-scheme reference attribute removed,
/// scanning from `i`.
pub open spec fn strip_hrefs_from(s: Seq<char>, i: int) -> Seq<char>
    decreases s.len() - i,
{
    if i < 0 || i >= s.len() {
        Seq::empty()
    } else {
        let m = href_match_len(s, i);
        if 0 < m && i + m <= s.len() {
            strip_hrefs_from(s, i + m)
        } else {
            seq![s[i]] + strip_hrefs_from(s, i + 1)
        }
    }
}

// ---------------------------------------------------------------------------
// Executable runs and searches
// ---------------------------------------------------------------------------

fn scan_spaces(v: &Vec<char>, i: usize) -> (r: usize)
    requires
        i <= v@.len(),
    ensures
        r == space_run(v@, i as int),
        i + r <= v@.len(),
{
    let mut j = i;
    while j < v.len() && char_is_space(v[j])
        invariant
            i <= j <= v@.len(),
            forall|m: int| i <= m < j ==> is_space(v@[m]),
        decreases v@.len() - j,
    {
        j = j + 1;
    }
    proof {
        lemma_run_at_spaces(v@, i as int, j as int);
    }
    j - i
}

proof fn lemma_run_at_spaces(s: Seq<char>, i: int, j: int)
    requires
        0 <= i <= j <= s.len(),
        forall|m: int| i <= m < j ==> is_space(s[m]),
        j < s.len() ==> !is_space(s[j]),
    ensures
        space_run(s, i) == j - i,
    decreases j - i,
{
    if i < j {
        lemma_run_at_spaces(s, i + 1, j);
    }
}

fn is_name_char_exec(c: char) -> (r: bool)
    ensures
        r == is_name_char(c),
{
    ('a' <= c && c <= 'z') || ('A' <= c && c <= 'Z') || ('0' <= c && c <= '9') || c == '_' || c
        == '.' || c == ':' || c == '-'
}

fn scan_name_chars(v: &Vec<char>, i: usize) -> (r: usize)
    requires
        i <= v@.len(),
    ensures
        r == name_run(v@, i as int),
        i + r <= v@.len(),
{
    let mut j = i;
    while j < v.len() && is_name_char_exec(v[j])
        invariant
            i <= j <= v@.len(),
            forall|m: int| i <= m < j ==> is_name_char(v@[m]),
        decreases v@.len() - j,
    {
        j = j + 1;
    }
    proof {
        lemma_run_at_names(v@, i as int, j as int);
    }
    j - i
}

proof fn lemma_run_at_names(s: Seq<char>, i: int, j: int)
    requires
        0 <= i <= j <= s.len(),
        forall|m: int| i <= m < j ==> is_name_char(s[m]),
        j < s.len() ==> !is_name_char(s[j]),
    ensures
        name_run(s, i) == j - i,
    decreases j - i,
{
    if i < j {
        lemma_run_at_names(s, i + 1, j);
    }
}

fn scan_bare(v: &Vec<char>, i: usize) -> (r: usize)
    requires
        i <= v@.len(),
    ensures
        r == bare_run(v@, i as int),
        i + r <= v@.len(),
{
    let mut j = i;
    while j < v.len() && !char_is_space(v[j]) && v[j] != '>'
        invariant
            i <= j <= v@.len(),
            forall|m: int| i <= m < j ==> !is_space(v@[m]) && v@[m] != '>',
        decreases v@.len() - j,
    {
        j = j + 1;
    }
    proof {
        lemma_run_at_bare(v@, i as int, j as int);
    }
    j - i
}

proof fn lemma_run_at_bare(s: Seq<char>, i: int, j: int)
    requires
        0 <= i <= j <= s.len(),
        forall|m: int| i <= m < j ==> !is_space(s[m]) && s[m] != '>',
        j < s.len() ==> is_space(s[j]) || s[j] == '>',
    ensures
        bare_run(s, i) == j - i,
    decreases j - i,
{
    if i < j {
        lemma_run_at_bare(s, i + 1, j);
    }
}

fn scan_non_gt(v: &Vec<char>, i: usize) -> (r: usize)
    requires
        i <= v@.len(),
    ensures
        r == nongt_run(v@, i as int),
        i + r <= v@.len(),
{
    let mut j = i;
    while j < v.len() && v[j] != '>'
        invariant
            i <= j <= v@.len(),
            forall|m: int| i <= m < j ==> v@[m] != '>',
        decreases v@.len() - j,
    {
        j = j + 1;
    }
    proof {
        lemma_run_at_nongt(v@, i as int, j as int);
    }
    j - i
}

proof fn lemma_run_at_nongt(s: Seq<char>, i: int, j: int)
    requires
        0 <= i <= j <= s.len(),
        forall|m: int| i <= m < j ==> s[m] != '>',
        j < s.len() ==> s[j] == '>',
    ensures
        nongt_run(s, i) == j - i,
    decreases j - i,
{
    if i < j {
        lemma_run_at_nongt(s, i + 1, j);
    }
}

fn scan_digits(v: &Vec<char>, i: usize) -> (r: usize)
    requires
        i <= v@.len(),
    ensures
        r == digit_run(v@, i as int),
        i + r <= v@.len(),
{
    let mut j = i;
    while j < v.len() && '0' <= v[j] && v[j] <= '9'
        invariant
            i <= j <= v@.len(),
            forall|m: int| i <= m < j ==> '0' <= v@[m] && v@[m] <= '9',
        decreases v@.len() - j,
    {
        j = j + 1;
    }
    proof {
        lemma_run_at_digits(v@, i as int, j as int);
    }
    j - i
}

proof fn lemma_run_at_digits(s: Seq<char>, i: int, j: int)
    requires
        0 <= i <= j <= s.len(),
        forall|m: int| i <= m < j ==> '0' <= s[m] && s[m] <= '9',
        j < s.len() ==> !('0' <= s[j] && s[j] <= '9'),
    ensures
        digit_run(s, i) == j - i,
    decreases j - i,
{
    if i < j {
        lemma_run_at_digits(s, i + 1, j);
    }
}

fn find_char_from(v: &Vec<char>, i: usize, c: char) -> (r: usize)
    requires
        i <= v@.len(),
    ensures
        r == find_char(v@, i as int, c),
        i <= r <= v@.len(),
        r < v@.len() ==> v@[r as int] == c,
{
    let mut j = i;
    while j < v.len() && v[j] != c
        invariant
            i <= j <= v@.len(),
            forall|m: int| i <= m < j ==> v@[m] != c,
        decreases v@.len() - j,
    {
        j = j + 1;
    }
    proof {
        lemma_find_char_at(v@, i as int, j as int, c);
    }
    j
}

proof fn lemma_find_char_at(s: Seq<char>, i: int, j: int, c: char)
    requires
        0 <= i <= j <= s.len(),
        forall|m: int| i <= m < j ==> s[m] != c,
        j < s.len() ==> s[j] == c,
    ensures
        find_char(s, i, c) == j,
    decreases j - i,
{
    if i < j {
        lemma_find_char_at(s, i + 1, j, c);
    }
}

/// Case-insensitive match of a lowercase pattern at `p`.
fn ci_match_at(v: &Vec<char>, pat: &Vec<char>, p: usize) -> (r: bool)
    ensures
        r == match_ci(v@, p as int, pat@),
{
    if p > v.len() || pat.len() > v.len() - p {
        return false;
    }
    let n = v.len();
    let mut j: usize = 0;
    while j < pat.len()
        invariant
            n == v@.len(),
            j <= pat@.len(),
            p + pat@.len() <= v@.len(),
            forall|m: int| 0 <= m < j ==> lower_char(v@[p + m]) == pat@[m],
        decreases pat@.len() - j,
    {
        proof {
            assert(p + j < n);
        }
        if char_to_lower(v[p + j]) != pat[j] {
            return false;
        }
        j = j + 1;
    }
    true
}

// ---------------------------------------------------------------------------
// Stripping, executably
// ---------------------------------------------------------------------------

fn event_match_at(v: &Vec<char>, i: usize) -> (m: usize)
    requires
        i <= v@.len(),
    ensures
        m == event_match_len(v@, i as int),
        i + m <= v@.len(),
{
    proof {
        lemma_event_match_bound(v@, i as int);
    }
    let n = v.len();
    let w1 = scan_spaces(v, i);
    if w1 == 0 {
        return 0;
    }
    let p0 = i + w1;
    if !(p0 < n && p0 + 1 < n && char_to_lower(v[p0]) == 'o' && char_to_lower(v[p0 + 1]) == 'n') {
        return 0;
    }
    let nr = scan_name_chars(v, p0 + 2);
    if nr == 0 {
        return 0;
    }
    let p1 = p0 + 2 + nr;
    let w2 = scan_spaces(v, p1);
    let p2 = p1 + w2;
    if !(p2 < v.len() && v[p2] == '=') {
        return 0;
    }
    let w3 = scan_spaces(v, p2 + 1);
    let p3 = p2 + 1 + w3;
    let vl = value_match_at(v, p3);
    if vl == 0 {
        return 0;
    }
    p3 + vl - i
}

fn value_match_at(v: &Vec<char>, p: usize) -> (m: usize)
    requires
        p <= v@.len(),
    ensures
        m == value_match_len(v@, p as int),
        p + m <= v@.len(),
{
    proof {
        lemma_value_match_bound(v@, p as int);
    }
    if p >= v.len() {
        return 0;
    }
    if v[p] == '"' {
        let q = find_char_from(v, p + 1, '"');
        if q < v.len() {
            return q - p + 1;
        }
    } else if v[p] == '\'' {
        let q = find_char_from(v, p + 1, '\'');
        if q < v.len() {
            return q - p + 1;
        }
    }
    scan_bare(v, p)
}

/// Removes every event-handler attribute (`onclick="…"`,
/// `onmouseover='…'`, and the like, in any character case and quoting
/// style) while leaving all other text untouched.
pub fn strip_event_handlers(svg: &str) -> (r: String)
    ensures
        r@ == strip_events_from(svg@, 0),
{
    let v = str_chars(svg);
    let mut out = String::new();
    let mut i: usize = 0;
    while i < v.len()
        invariant
            v@ == svg@,
            i <= v@.len(),
            out@ + strip_events_from(v@, i as int) == strip_events_from(v@, 0),
        decreases v@.len() - i,
    {
        let m = event_match_at(&v, i);
        if m > 0 {
            i = i + m;
        } else {
            let ghost pre = out@;
            string_push(&mut out, v[i]);
            proof {
                assert(strip_events_from(v@, i as int) == seq![v@[i as int]]
                    + strip_events_from(v@, i + 1));
                assert(pre.push(v@[i as int]) + strip_events_from(v@, i + 1) =~= pre + (seq![
                    v@[i as int],
                ] + strip_events_from(v@, i + 1)));
            }
            i = i + 1;
        }
    }
    proof {
        assert(strip_events_from(v@, i as int) =~= Seq::<char>::empty());
        assert(out@ =~= strip_events_from(v@, 0));
    }
    out
}

fn js_value_at(v: &Vec<char>, p: usize) -> (m: usize)
    requires
        p <= v@.len(),
    ensures
        m == js_value_len(v@, p as int),
        p + m <= v@.len(),
{
    proof {
        reveal_strlit("javascript:");
    }
    if p >= v.len() {
        return 0;
    }
    let pat = str_chars("javascript:");
    if v[p] == '"' {
        let q = find_char_from(v, p + 1, '"');
        if q < v.len() {
            let sp = scan_spaces(v, p + 1);
            let sc = ci_match_at(v, &pat, p + 1 + sp);
            if sc && p + 1 + sp + 11 <= q {
                return q - p + 1;
            } else {
                return 0;
            }
        }
        return 0;
    }
    if v[p] == '\'' {
        let q = find_char_from(v, p + 1, '\'');
        if q < v.len() {
            let sp = scan_spaces(v, p + 1);
            let sc = ci_match_at(v, &pat, p + 1 + sp);
            if sc && p + 1 + sp + 11 <= q {
                return q - p + 1;
            } else {
                return 0;
            }
        }
        return 0;
    }
    0
}

fn href_match_at(v: &Vec<char>, i: usize) -> (m: usize)
    requires
        i <= v@.len(),
    ensures
        m == href_match_len(v@, i as int),
        i + m <= v@.len(),
{
    proof {
        lemma_href_match_bound(v@, i as int);
        reveal_strlit("xlink:");
        reveal_strlit("href");
    }
    let n = v.len();
    let w1 = scan_spaces(v, i);
    if w1 == 0 {
        return 0;
    }
    let p0 = i + w1;
    let xl = str_chars("xlink:");
    let hr = str_chars("href");
    proof {
        assert(xl@.len() == 6);
        assert(hr@.len() == 4);
    }
    let p1 = if ci_match_at(v, &xl, p0) {
        p0 + 6
    } else {
        p0
    };
    if !ci_match_at(v, &hr, p1) {
        return 0;
    }
    let w2 = scan_spaces(v, p1 + 4);
    let p2 = p1 + 4 + w2;
    if !(p2 < v.len() && v[p2] == '=') {
        return 0;
    }
    let w3 = scan_spaces(v, p2 + 1);
    let p3 = p2 + 1 + w3;
    let vl = js_value_at(v, p3);
    if vl == 0 {
        return 0;
    }
    p3 + vl - i
}

/// Removes every `href` or `xlink:href` attribute whose quoted value
/// opens with the `javascript:` scheme, in any character case.
pub fn strip_javascript_hrefs(svg: &str) -> (r: String)
    ensures
        r@ == strip_hrefs_from(svg@, 0),
{
    let v = str_chars(svg);
    let mut out = String::new();
    let mut i: usize = 0;
    while i < v.len()
        invariant
            v@ == svg@,
            i <= v@.len(),
            out@ + strip_hrefs_from(v@, i as int) == strip_hrefs_from(v@, 0),
        decreases v@.len() - i,
    {
        let m = href_match_at(&v, i);
        if m > 0 {
            i = i + m;
        } else {
            let ghost pre = out@;
            string_push(&mut out, v[i]);
            proof {
                assert(strip_hrefs_from(v@, i as int) == seq![v@[i as int]] + strip_hrefs_from(
                    v@,
                    i + 1,
                ));
                assert(pre.push(v@[i as int]) + strip_hrefs_from(v@, i + 1) =~= pre + (seq![
                    v@[i as int],
                ] + strip_hrefs_from(v@, i + 1)));
            }
            i = i + 1;
        }
    }
    proof {
        assert(strip_hrefs_from(v@, i as int) =~= Seq::<char>::empty());
        assert(out@ =~= strip_hrefs_from(v@, 0));
    }
    out
}

// ---------------------------------------------------------------------------
// Stripping markup tags, and decoding entities
// ---------------------------------------------------------------------------

/// The text with every angle-bracketed tag removed, scanning from `i`: an
/// opening bracket with a closing bracket somewhere after it drops
/// everything through that closing bracket.
pub open spec fn strip_tags_from(s: Seq<char>, i: int) -> Seq<char>
    decreases s.len() - i,
{
    if i < 0 || i >= s.len() {
        Seq::empty()
    } else {
        let g = find_char(s, i + 1, '>');
        if s[i] == '<' && i < g && g < s.len() {
            strip_tags_from(s, g + 1)
        } else {
            seq![s[i]] + strip_tags_from(s, i + 1)
        }
    }
}

/// The given text with every markup character reference decoded.
pub uninterp spec fn decoded_entities(s: Seq<char>) -> Seq<char>;

/// Relies on `html_escape::decode_html_entities`: decodes exact named
/// and numeric character references ending in a semicolon; the result is
/// a function of the input text alone.
#[verifier::external_body]
fn decode_entities(s: &str) -> (r: String)
    ensures
        r@ == decoded_entities(s@),
{
    html_escape::decode_html_entities(s).into_owned()
}

/// The plain text of a rich-markup fragment: tags stripped, character
/// references decoded, surrounding whitespace trimmed.
pub open spec fn extract_text_spec(h: Seq<char>) -> Seq<char> {
    trim_spec(decoded_entities(strip_tags_from(h, 0)))
}

/// Extracts the visible text of a rich-markup fragment.
pub fn extract_text_from_html(html: &str) -> (r: String)
    ensures
        r@ == extract_text_spec(html@),
{
    let v = str_chars(html);
    let mut stripped = String::new();
    let mut i: usize = 0;
    while i < v.len()
        invariant
            v@ == html@,
            i <= v@.len(),
            stripped@ + strip_tags_from(v@, i as int) == strip_tags_from(v@, 0),
        decreases v@.len() - i,
    {
        let g = find_char_from(&v, i + 1, '>');
        if v[i] == '<' && g < v.len() {
            i = g + 1;
        } else {
            let ghost pre = stripped@;
            string_push(&mut stripped, v[i]);
            proof {
                assert(strip_tags_from(v@, i as int) == seq![v@[i as int]] + strip_tags_from(
                    v@,
                    i + 1,
                ));
                assert(pre.push(v@[i as int]) + strip_tags_from(v@, i + 1) =~= pre + (seq![
                    v@[i as int],
                ] + strip_tags_from(v@, i + 1)));
            }
            i = i + 1;
        }
    }
    proof {
        assert(strip_tags_from(v@, i as int) =~= Seq::<char>::empty());
        assert(stripped@ =~= strip_tags_from(v@, 0));
    }
    let decoded = decode_entities(stripped.as_str());
    let dv = str_chars(decoded.as_str());
    let b = trim_bounds(&dv);
    string_from_chars(&dv, b.0, b.1)
}

// ---------------------------------------------------------------------------
// Attribute values
// ---------------------------------------------------------------------------

/// First position at or after `i` where `attr="` occurs with a closing
/// quote somewhere after it, or the length.
pub open spec fn find_attr_from(s: Seq<char>, attr: Seq<char>, i: int) -> int
    decreases s.len() - i,
{
    if i < 0 || i >= s.len() {
        s.len() as int
    } else if sub_at(s, attr + "=\""@, i) && find_char(s, i + attr.len() + 2, '"') < s.len() {
        i
    } else {
        find_attr_from(s, attr, i + 1)
    }
}

/// The value of the leftmost complete `attr="…"` occurrence, if any.
pub open spec fn attr_value(s: Seq<char>, attr: Seq<char>) -> Option<Seq<char>> {
    let p = find_attr_from(s, attr, 0);
    if p < s.len() {
        Some(s.subrange(p + attr.len() + 2, find_char(s, p + attr.len() + 2, '"')))
    } else {
        None
    }
}

proof fn lemma_find_attr_at(s: Seq<char>, attr: Seq<char>, lo: int, j: int)
    requires
        0 <= lo <= j <= s.len(),
        forall|m: int|
            lo <= m < j ==> !(sub_at(s, attr + "=\""@, m) && find_char(s, m + attr.len() + 2, '"')
                < s.len()),
        j < s.len() ==> sub_at(s, attr + "=\""@, j) && find_char(s, j + attr.len() + 2, '"')
            < s.len(),
    ensures
        find_attr_from(s, attr, lo) == j,
    decreases j - lo,
{
    if lo < j {
        lemma_find_attr_at(s, attr, lo + 1, j);
    }
}

/// The bounds of the value of the leftmost complete `attr="…"`
/// occurrence in `v`.
fn attr_find(v: &Vec<char>, attr: &Vec<char>) -> (r: Option<(usize, usize)>)
    ensures
        match r {
            Some(b) => {
                &&& attr_value(v@, attr@) matches Some(val) && val == v@.subrange(
                    b.0 as int,
                    b.1 as int,
                )
                &&& b.0 <= b.1 <= v@.len()
            },
            None => attr_value(v@, attr@) is None,
        },
{
    proof {
        reveal_strlit("=\"");
    }
    let mut pat = clone_chars(attr);
    pat.push('=');
    pat.push('"');
    proof {
        assert(pat@ =~= attr@ + "=\""@);
    }
    let mut p: usize = 0;
    loop
        invariant
            pat@ == attr@ + "=\""@,
            pat@.len() == attr@.len() + 2,
            p <= v@.len() + 1,
            forall|m: int|
                0 <= m < p ==> !(sub_at(v@, attr@ + "=\""@, m) && find_char(
                    v@,
                    m + attr@.len() + 2,
                    '"',
                ) < v@.len()),
        decreases v@.len() + 1 - p,
    {
        if p > v.len() {
            proof {
                lemma_find_attr_at(v@, attr@, 0, v@.len() as int);
            }
            return None;
        }
        match crate::text::find_sub_from(v, &pat, p) {
            None => {
                proof {
                    assert forall|m: int|
                        0 <= m < v@.len() implies !(sub_at(v@, attr@ + "=\""@, m) && find_char(
                        v@,
                        m + attr@.len() + 2,
                        '"',
                    ) < v@.len()) by {
                        if p <= m {
                            assert(!sub_at(v@, pat@, m));
                        }
                    }
                    lemma_find_attr_at(v@, attr@, 0, v@.len() as int);
                }
                return None;
            },
            Some(q) => {
                proof {
                    assert(q + pat@.len() <= v@.len());
                }
                let g = find_char_from(v, q + pat.len(), '"');
                if g < v.len() {
                    proof {
                        assert forall|m: int|
                            0 <= m < q implies !(sub_at(v@, attr@ + "=\""@, m) && find_char(
                            v@,
                            m + attr@.len() + 2,
                            '"',
                        ) < v@.len()) by {
                            if p <= m {
                                assert(!sub_at(v@, pat@, m));
                            }
                        }
                        assert(sub_at(v@, attr@ + "=\""@, q as int));
                        assert(g == find_char(v@, q + attr@.len() + 2, '"'));
                        lemma_find_attr_at(v@, attr@, 0, q as int);
                    }
                    return Some((q + pat.len(), g));
                }
                proof {
                    lemma_find_char_bound(v@, q + pat@.len(), '"');
                }
                p = q + 1;
            },
        }
    }
}

fn clone_chars(v: &Vec<char>) -> (r: Vec<char>)
    ensures
        r@ == v@,
{
    let mut r: Vec<char> = Vec::new();
    let mut i: usize = 0;
    while i < v.len()
        invariant
            i <= v@.len(),
            r@ == v@.take(i as int),
        decreases v@.len() - i,
    {
        r.push(v[i]);
        proof {
            assert(v@.take(i as int).push(v@[i as int]) =~= v@.take(i + 1));
        }
        i = i + 1;
    }
    proof {
        assert(v@.take(i as int) =~= v@);
    }
    r
}

/// Extracts an attribute value from a markup tag: the leftmost
/// double-quoted `attr="…"` occurrence.
pub fn extract_attr(tag: &str, attr: &str) -> (r: Option<String>)
    ensures
        match r {
            Some(val) => attr_value(tag@, attr@) matches Some(q) && val@ == q,
            None => attr_value(tag@, attr@) is None,
        },
{
    let v = str_chars(tag);
    let a = str_chars(attr);
    match attr_find(&v, &a) {
        Some(b) => Some(string_from_chars(&v, b.0, b.1)),
        None => None,
    }
}

// ---------------------------------------------------------------------------
// Fixed-point numbers
// ---------------------------------------------------------------------------

/// Value of the decimal digits `s[a..b]`.
pub open spec fn digits_val(s: Seq<char>, a: int, b: int) -> int
    decreases b - a,
{
    if a >= b {
        0
    } else {
        digits_val(s, a, b - 1) * 10 + (s[b - 1] as int - '0' as int)
    }
}

pub open spec fn frac_scale(k: int) -> int {
    if k <= 0 {
        10000
    } else if k == 1 {
        1000
    } else if k == 2 {
        100
    } else if k == 3 {
        10
    } else {
        1
    }
}

/// A decimal attribute value parsed to a signed count of ten-thousandths:
/// an optional sign, an integer part of at most twelve digits, and an
/// optional fraction of which the first four digits are kept.  `None`
/// when the text is not entirely such a number.
pub open spec fn parse_fixed(sv: Seq<char>) -> Option<int> {
    let sgn: int = if sv.len() > 0 && sv[0] == '-' {
        -1
    } else {
        1
    };
    let i0: int = if sv.len() > 0 && (sv[0] == '-' || sv[0] == '+') {
        1
    } else {
        0
    };
    let d1 = digit_run(sv, i0);
    if d1 > 12 {
        None
    } else {
        let a = i0 + d1;
        if a == sv.len() {
            if d1 == 0 {
                None
            } else {
                Some(sgn * digits_val(sv, i0, a) * 10000)
            }
        } else if sv[a] == '.' {
            let d2 = digit_run(sv, a + 1);
            if a + 1 + d2 == sv.len() && d1 + d2 > 0 {
                let k = if d2 > 4 {
                    4int
                } else {
                    d2
                };
                Some(sgn * (digits_val(sv, i0, a) * 10000 + digits_val(sv, a + 1, a + 1 + k)
                    * frac_scale(k)))
            } else {
                None
            }
        } else {
            None
        }
    }
}

/// The numeric value of an attribute, defaulting to zero when the
/// attribute is missing or not a number.
pub open spec fn attr_num(s: Seq<char>, attr: Seq<char>) -> int {
    match attr_value(s, attr) {
        Some(v) => match parse_fixed(v) {
            Some(n) => n,
            None => 0,
        },
        None => 0,
    }
}

proof fn lemma_digits_val_bound(s: Seq<char>, a: int, b: int)
    requires
        0 <= a <= b <= s.len(),
        forall|m: int| a <= m < b ==> '0' <= s[m] && s[m] <= '9',
    ensures
        0 <= digits_val(s, a, b),
        b - a <= 12 ==> digits_val(s, a, b) < 1000000000000,
        b - a <= 4 ==> digits_val(s, a, b) < 10000,
    decreases b - a,
{
    if a < b {
        lemma_digits_val_bound(s, a, b - 1);
        assert(0 <= s[b - 1] as int - '0' as int <= 9);
        if b - a <= 12 {
            assert(digits_val(s, a, b - 1) < 100000000000) by {
                lemma_pow10s_vals();
                lemma_digits_val_tight(s, a, b - 1, 11);
            }
        }
        if b - a <= 4 {
            assert(digits_val(s, a, b - 1) < 1000) by {
                lemma_pow10s_vals();
                lemma_digits_val_tight(s, a, b - 1, 3);
            }
        }
    }
}

/// Digits of a run of at most `k` digits are below ten to the `k`, for
/// the handful of lengths the parser meets.
proof fn lemma_digits_val_tight(s: Seq<char>, a: int, b: int, k: int)
    requires
        0 <= a <= b <= s.len(),
        b - a <= k,
        0 <= k <= 12,
        forall|m: int| a <= m < b ==> '0' <= s[m] && s[m] <= '9',
    ensures
        0 <= digits_val(s, a, b),
        digits_val(s, a, b) < pow10s(k),
    decreases b - a,
{
    if a < b {
        lemma_digits_val_tight(s, a, b - 1, k - 1);
        assert(0 <= s[b - 1] as int - '0' as int <= 9);
        assert(pow10s(k) == 10 * pow10s(k - 1));
    } else {
        assert(pow10s(k) >= 1) by {
            lemma_pow10s_pos(k);
        }
    }
}

/// Ten to the `k`, for small `k`.
pub open spec fn pow10s(k: int) -> int
    decreases k,
{
    if k <= 0 {
        1
    } else {
        10 * pow10s(k - 1)
    }
}

proof fn lemma_pow10s_vals()
    ensures
        pow10s(3) == 1000,
        pow10s(11) == 100000000000,
{
    assert(pow10s(0) == 1);
    assert(pow10s(1) == 10);
    assert(pow10s(2) == 100);
    assert(pow10s(3) == 1000);
    assert(pow10s(4) == 10000);
    assert(pow10s(5) == 100000);
    assert(pow10s(6) == 1000000);
    assert(pow10s(7) == 10000000);
    assert(pow10s(8) == 100000000);
    assert(pow10s(9) == 1000000000);
    assert(pow10s(10) == 10000000000);
    assert(pow10s(11) == 100000000000);
}

proof fn lemma_pow10s_pos(k: int)
    ensures
        pow10s(k) >= 1,
    decreases k,
{
    if k > 0 {
        lemma_pow10s_pos(k - 1);
    }
}

proof fn lemma_parse_fixed_bound(sv: Seq<char>)
    ensures
        parse_fixed(sv) matches Some(n) ==> -20000000000000000 <= n <= 20000000000000000,
{
    if parse_fixed(sv) is Some {
        let sgn: int = if sv.len() > 0 && sv[0] == '-' {
            -1
        } else {
            1
        };
        let i0: int = if sv.len() > 0 && (sv[0] == '-' || sv[0] == '+') {
            1
        } else {
            0
        };
        let d1 = digit_run(sv, i0);
        lemma_digit_run_chars(sv, i0);
        let a = i0 + d1;
        lemma_digits_val_bound(sv, i0, a);
        let ip = digits_val(sv, i0, a);
        if a == sv.len() {
            let m0 = ip * 10000;
            assert(0 <= m0 <= 20000000000000000);
            if sgn == 1 {
                assert(sgn * m0 == m0);
            } else {
                assert(sgn * m0 == -m0);
            }
        } else if sv[a] == '.' {
            let d2 = digit_run(sv, a + 1);
            lemma_digit_run_chars(sv, a + 1);
            let k = if d2 > 4 {
                4int
            } else {
                d2
            };
            lemma_digits_val_bound(sv, a + 1, a + 1 + k);
            let fp = digits_val(sv, a + 1, a + 1 + k);
            let sc = frac_scale(k);
            assert(0 <= fp * sc <= 100000000) by (nonlinear_arith)
                requires
                    0 <= fp < 10000,
                    1 <= sc <= 10000,
            ;
            let m0 = ip * 10000 + fp * sc;
            assert(0 <= m0 <= 20000000000000000);
            if sgn == 1 {
                assert(sgn * m0 == m0);
            } else {
                assert(sgn * m0 == -m0);
            }
        }
    }
}

proof fn lemma_digit_run_chars(s: Seq<char>, i: int)
    requires
        0 <= i <= s.len(),
    ensures
        0 <= digit_run(s, i),
        i + digit_run(s, i) <= s.len(),
        forall|m: int| i <= m < i + digit_run(s, i) ==> '0' <= s[m] && s[m] <= '9',
    decreases s.len() - i,
{
    if i < s.len() && '0' <= s[i] && s[i] <= '9' {
        lemma_digit_run_chars(s, i + 1);
    }
}

/// Parses a decimal attribute value, mirroring `parse_fixed`.
fn parse_fixed_chars(v: &Vec<char>) -> (r: Option<i64>)
    ensures
        match r {
            Some(n) => {
                &&& parse_fixed(v@) == Some(n as int)
                &&& -20000000000000000 <= n <= 20000000000000000
            },
            None => parse_fixed(v@) is None,
        },
{
    proof {
        lemma_parse_fixed_bound(v@);
    }
    let n = v.len();
    let neg = n > 0 && v[0] == '-';
    let i0: usize = if n > 0 && (v[0] == '-' || v[0] == '+') {
        1
    } else {
        0
    };
    let d1 = scan_digits(v, i0);
    if d1 > 12 {
        return None;
    }
    let a = i0 + d1;
    proof {
        lemma_digit_run_chars(v@, i0 as int);
        lemma_digits_val_bound(v@, i0 as int, a as int);
    }
    let ip = digits_value(v, i0, a);
    if a == n {
        if d1 == 0 {
            return None;
        }
        let total: u64 = ip * 10000;
        proof {
            let ipi = digits_val(v@, i0 as int, a as int);
            let m0 = ipi * 10000;
            if neg {
                assert((-1int) * ipi == -ipi);
                assert((-ipi) * 10000 == -(ipi * 10000)) by (nonlinear_arith);
                assert(parse_fixed(v@) == Some(-m0));
            } else {
                assert((1int) * ipi == ipi);
                assert(parse_fixed(v@) == Some(m0));
            }
        }
        return Some(to_signed(neg, total));
    }
    if v[a] != '.' {
        return None;
    }
    let d2 = scan_digits(v, a + 1);
    if !(a + 1 + d2 == n && d1 + d2 > 0) {
        return None;
    }
    let k: usize = if d2 > 4 {
        4
    } else {
        d2
    };
    proof {
        lemma_digit_run_chars(v@, a + 1 as int);
        lemma_digits_val_bound(v@, a + 1 as int, (a + 1 + k) as int);
    }
    let fp = digits_value(v, a + 1, a + 1 + k);
    let scale: u64 = if k == 0 {
        10000
    } else if k == 1 {
        1000
    } else if k == 2 {
        100
    } else if k == 3 {
        10
    } else {
        1
    };
    proof {
        assert(fp < 10000);
        assert(0 <= fp * scale <= 100000000) by (nonlinear_arith)
            requires
                0 <= fp < 10000,
                1 <= scale <= 10000,
        ;
        assert(scale == frac_scale(k as int));
    }
    let total: u64 = ip * 10000 + fp * scale;
    proof {
        let ki = k as int;
        let ipi = digits_val(v@, i0 as int, a as int);
        let fpi = digits_val(v@, a + 1 as int, (a + 1 + k) as int);
        let m0 = ipi * 10000 + fpi * frac_scale(ki);
        assert(total == m0);
        if neg {
            assert((-1int) * m0 == -m0) by (nonlinear_arith);
            assert(parse_fixed(v@) == Some(-m0));
        } else {
            assert((1int) * m0 == m0) by (nonlinear_arith);
            assert(parse_fixed(v@) == Some(m0));
        }
    }
    Some(to_signed(neg, total))
}

fn to_signed(neg: bool, mag: u64) -> (r: i64)
    requires
        mag <= 20000000000000000,
    ensures
        r == if neg {
            -(mag as int)
        } else {
            mag as int
        },
{
    if neg {
        -(mag as i64)
    } else {
        mag as i64
    }
}

/// Value of the digit run `v[a..b]`, which the caller has scanned.
fn digits_value(v: &Vec<char>, a: usize, b: usize) -> (r: u64)
    requires
        a <= b <= v@.len(),
        b - a <= 12,
        forall|m: int| a <= m < b ==> '0' <= v@[m] && v@[m] <= '9',
    ensures
        r == digits_val(v@, a as int, b as int),
        r < 1000000000000,
{
    let mut acc: u64 = 0;
    let mut j = a;
    proof {
        lemma_digits_val_bound(v@, a as int, b as int);
    }
    while j < b
        invariant
            a <= j <= b <= v@.len(),
            b - a <= 12,
            forall|m: int| a <= m < b ==> '0' <= v@[m] && v@[m] <= '9',
            acc == digits_val(v@, a as int, j as int),
            acc < 1000000000000,
        decreases b - j,
    {
        proof {
            lemma_digits_val_bound(v@, a as int, j + 1);
        }
        let d = (v[j] as u32 - '0' as u32) as u64;
        proof {
            assert('0' <= v@[j as int] && v@[j as int] <= '9');
            assert(v@[j as int] as u32 >= '0' as u32);
            assert(d == v@[j as int] as int - '0' as int);
        }
        acc = acc * 10 + d;
        j = j + 1;
    }
    acc
}

/// The two-decimal rendering of `num` ten-thousandths halved: the
/// centroid coordinate `num / 2` rounded to hundredths, ties to even,
/// with a sign for any negative value.
pub open spec fn fixed2_of(num: int) -> Seq<char> {
    let mag = if num < 0 {
        -num
    } else {
        num
    };
    let q = mag / 200;
    let r = mag % 200;
    let h = q + if r > 100 {
        1int
    } else if r == 100 {
        q % 2
    } else {
        0int
    };
    (if num < 0 {
        seq!['-']
    } else {
        Seq::<char>::empty()
    }) + dec_str(h / 100) + seq!['.', dec_digit((h / 10) % 10), dec_digit(h % 10)]
}

/// Appends the two-decimal rendering of `num` ten-thousandths halved.
fn push_fixed2(out: &mut String, num: i64)
    requires
        -100000000000000000 <= num <= 100000000000000000,
    ensures
        final(out)@ == old(out)@ + fixed2_of(num as int),
{
    let neg = num < 0;
    let mag: u64 = if neg {
        (-num) as u64
    } else {
        num as u64
    };
    let q = mag / 200;
    let r = mag % 200;
    let h: u64 = if r > 100 {
        q + 1
    } else if r == 100 {
        q + q % 2
    } else {
        q
    };
    if neg {
        string_push(out, '-');
    }
    push_u64_dec(out, h / 100);
    string_push(out, '.');
    string_push(out, dec_digit_char((h / 10) % 10));
    string_push(out, dec_digit_char(h % 10));
    proof {
        assert(out@ =~= old(out)@ + fixed2_of(num as int));
    }
}

// ---------------------------------------------------------------------------
// The rich-text container pattern
// ---------------------------------------------------------------------------

pub open spec fn fo_open() -> Seq<char> {
    "<foreignObject"@
}

pub open spec fn fo_close() -> Seq<char> {
    "</foreignObject>"@
}

/// First position at or after `i` where the container's closing tag
/// occurs, or the length.
pub open spec fn find_fo_close(s: Seq<char>, i: int) -> int
    decreases s.len() - i,
{
    if i < 0 || i >= s.len() {
        s.len() as int
    } else if sub_at(s, fo_close(), i) {
        i
    } else {
        find_fo_close(s, i + 1)
    }
}

proof fn lemma_find_fo_close_at(s: Seq<char>, lo: int, j: int)
    requires
        0 <= lo <= j <= s.len(),
        forall|m: int| lo <= m < j ==> !sub_at(s, fo_close(), m),
        j < s.len() ==> sub_at(s, fo_close(), j),
    ensures
        find_fo_close(s, lo) == j,
    decreases j - lo,
{
    if lo < j {
        lemma_find_fo_close_at(s, lo + 1, j);
    }
}

/// Where the container's opening tag ends: past its attributes, at the
/// closing angle bracket.
pub open spec fn fo_hdr(s: Seq<char>, i: int) -> int {
    i + fo_open().len() + nongt_run(s, i + fo_open().len())
}

pub open spec fn fo_close_pos(s: Seq<char>, i: int) -> int {
    find_fo_close(s, fo_hdr(s, i) + 1)
}

/// Length of a rich-text container at `i` (zero when none starts there):
/// the opening tag with its attributes, content without a newline, and
/// the closing tag.  A container whose closing tag never comes, or whose
/// content spans lines, matches nothing and is left as it stands.
pub open spec fn fo_match_len(s: Seq<char>, i: int) -> int {
    if !sub_at(s, fo_open(), i) {
        0
    } else {
        let hdr = fo_hdr(s, i);
        if hdr < s.len() && s[hdr] == '>' {
            let c = fo_close_pos(s, i);
            if c < s.len() && (forall|m: int| hdr + 1 <= m < c ==> s[m] != '\n') {
                c + fo_close().len() - i
            } else {
                0
            }
        } else {
            0
        }
    }
}

/// What a matched container becomes: its plain text at the container's
/// position, or nothing for an empty label or a zero-area box.
pub open spec fn fo_emit(full: Seq<char>, content: Seq<char>) -> Seq<char> {
    let text = extract_text_spec(content);
    if text.len() == 0 {
        Seq::empty()
    } else {
        match attr_value(full, "transform"@) {
            Some(tr) => "<text transform=\""@ + tr
                + "\" text-anchor=\"start\" dominant-baseline=\"hanging\" font-family=\"Arial, sans-serif\" font-size=\"14\" fill=\"#333\">"@
                + text + "</text>"@,
            None => {
                let x = attr_num(full, "x"@);
                let y = attr_num(full, "y"@);
                let w = attr_num(full, "width"@);
                let h = attr_num(full, "height"@);
                if w <= 0 || h <= 0 {
                    Seq::empty()
                } else {
                    "<text x=\""@ + fixed2_of(2 * x + w) + "\" y=\""@ + fixed2_of(2 * y + h)
                        + "\" text-anchor=\"middle\" dominant-baseline=\"middle\" font-family=\"Arial, sans-serif\" font-size=\"14\" fill=\"#333\">"@
                        + text + "</text>"@
                }
            },
        }
    }
}

/// What the container at `i` becomes.
pub open spec fn fo_replacement_at(s: Seq<char>, i: int) -> Seq<char> {
    fo_emit(
        s.subrange(i, fo_close_pos(s, i) + fo_close().len()),
        s.subrange(fo_hdr(s, i) + 1, fo_close_pos(s, i)),
    )
}

/// The text with every rich-text container converted, scanning from `i`:
/// each leftmost container match is replaced by what it emits, and
/// scanning resumes right after it, so the scan terminates on any input.
pub open spec fn spec_convert_from(s: Seq<char>, i: int) -> Seq<char>
    decreases s.len() - i,
{
    if i < 0 || i >= s.len() {
        Seq::empty()
    } else {
        let m = fo_match_len(s, i);
        if 0 < m && i + m <= s.len() {
            fo_replacement_at(s, i) + spec_convert_from(s, i + m)
        } else {
            seq![s[i]] + spec_convert_from(s, i + 1)
        }
    }
}

// ---------------------------------------------------------------------------
// Converting containers, executably
// ---------------------------------------------------------------------------

/// The match at `i`: its length (zero when none) and the content bounds.
fn fo_match_at(v: &Vec<char>, i: usize) -> (r: (usize, usize, usize))
    requires
        i <= v@.len(),
    ensures
        r.0 == fo_match_len(v@, i as int),
        r.0 > 0 ==> {
            &&& i + r.0 <= v@.len()
            &&& r.1 == fo_hdr(v@, i as int) + 1
            &&& r.2 == fo_close_pos(v@, i as int)
            &&& r.1 <= r.2 <= v@.len()
            &&& i + r.0 == r.2 + fo_close().len()
        },
{
    proof {
        reveal_strlit("<foreignObject");
        reveal_strlit("</foreignObject>");
    }
    let open_pat = str_chars("<foreignObject");
    if !chars_match_at(v, &open_pat, i) {
        return (0, 0, 0);
    }
    let n = v.len();
    proof {
        assert(i + 14 <= n);
    }
    let ar = scan_non_gt(v, i + 14);
    let hdr = i + 14 + ar;
    if !(hdr < v.len() && v[hdr] == '>') {
        return (0, 0, 0);
    }
    let close_pat = str_chars("</foreignObject>");
    let found = crate::text::find_sub_from(v, &close_pat, hdr + 1);
    match found {
        None => {
            proof {
                lemma_find_fo_close_at(v@, hdr + 1 as int, v@.len() as int);
            }
            (0, 0, 0)
        },
        Some(c) => {
            proof {
                lemma_find_fo_close_at(v@, hdr + 1 as int, c as int);
            }
            let mut m = hdr + 1;
            while m < c && v[m] != '\n'
                invariant
                    hdr + 1 <= m <= c,
                    c + 16 <= v@.len(),
                    forall|k: int| hdr + 1 <= k < m ==> v@[k] != '\n',
                decreases c - m,
            {
                m = m + 1;
            }
            if m < c {
                proof {
                    assert(v@[m as int] == '\n');
                    assert(!(forall|k: int|
                        fo_hdr(v@, i as int) + 1 <= k < fo_close_pos(v@, i as int) ==> v@[k]
                            != '\n'));
                }
                (0, 0, 0)
            } else {
                (c + 16 - i, hdr + 1, c)
            }
        },
    }
}

/// What one matched container emits.
fn fo_emit_exec(full: &Vec<char>, content: &Vec<char>) -> (r: String)
    ensures
        r@ == fo_emit(full@, content@),
{
    let ctext = string_from_chars(content, 0, content.len());
    proof {
        assert(ctext@ =~= content@);
    }
    let text = extract_text_from_html(ctext.as_str());
    if text.as_str().is_empty() {
        return String::new();
    }
    let tr_attr = str_chars("transform");
    match attr_find(full, &tr_attr) {
        Some(b) => {
            let mut out = String::from_str("<text transform=\"");
            let val = string_from_chars(full, b.0, b.1);
            out.append(val.as_str());
            out.append(
                "\" text-anchor=\"start\" dominant-baseline=\"hanging\" font-family=\"Arial, sans-serif\" font-size=\"14\" fill=\"#333\">",
            );
            out.append(text.as_str());
            out.append("</text>");
            proof {
                assert(out@ =~= fo_emit(full@, content@));
            }
            out
        },
        None => {
            let x = attr_num_exec(full, "x");
            let y = attr_num_exec(full, "y");
            let w = attr_num_exec(full, "width");
            let h = attr_num_exec(full, "height");
            if w <= 0 || h <= 0 {
                return String::new();
            }
            let mut out = String::from_str("<text x=\"");
            push_fixed2(&mut out, 2 * x + w);
            out.append("\" y=\"");
            push_fixed2(&mut out, 2 * y + h);
            out.append(
                "\" text-anchor=\"middle\" dominant-baseline=\"middle\" font-family=\"Arial, sans-serif\" font-size=\"14\" fill=\"#333\">",
            );
            out.append(text.as_str());
            out.append("</text>");
            proof {
                assert(out@ =~= fo_emit(full@, content@));
            }
            out
        },
    }
}

/// The numeric value of an attribute of `v`, defaulting to zero.
fn attr_num_exec(v: &Vec<char>, attr: &str) -> (r: i64)
    ensures
        r == attr_num(v@, attr@),
        -20000000000000000 <= r <= 20000000000000000,
{
    let a = str_chars(attr);
    match attr_find(v, &a) {
        Some(b) => {
            let val = subvec(v, b.0, b.1);
            match parse_fixed_chars(&val) {
                Some(n) => n,
                None => 0,
            }
        },
        None => 0,
    }
}

/// Converts every rich-text container into a plain vector text element:
/// the container's inner markup becomes its trimmed, tag-free, decoded
/// text, positioned by the container's transform or centered in its box;
/// an empty label or a zero-area box leaves nothing behind.
pub fn convert_foreign_objects(svg: &str) -> (r: String)
    ensures
        r@ == spec_convert_from(svg@, 0),
{
    let v = str_chars(svg);
    let mut out = String::new();
    let mut i: usize = 0;
    while i < v.len()
        invariant
            v@ == svg@,
            i <= v@.len(),
            out@ + spec_convert_from(v@, i as int) == spec_convert_from(v@, 0),
        decreases v@.len() - i,
    {
        let m = fo_match_at(&v, i);
        if m.0 > 0 {
            let full = subvec(&v, i, i + m.0);
            let content = subvec(&v, m.1, m.2);
            let rep = fo_emit_exec(&full, &content);
            let ghost pre = out@;
            out.append(rep.as_str());
            proof {
                assert(full@ == v@.subrange(
                    i as int,
                    fo_close_pos(v@, i as int) + fo_close().len(),
                ));
                assert(content@ == v@.subrange(
                    fo_hdr(v@, i as int) + 1,
                    fo_close_pos(v@, i as int),
                ));
                assert(rep@ == fo_replacement_at(v@, i as int));
                assert(spec_convert_from(v@, i as int) == fo_replacement_at(v@, i as int)
                    + spec_convert_from(v@, i + m.0));
                assert(pre + rep@ + spec_convert_from(v@, i + m.0) =~= pre + (fo_replacement_at(
                    v@,
                    i as int,
                ) + spec_convert_from(v@, i + m.0)));
            }
            i = i + m.0;
        } else {
            let ghost pre = out@;
            string_push(&mut out, v[i]);
            proof {
                assert(spec_convert_from(v@, i as int) == seq![v@[i as int]] + spec_convert_from(
                    v@,
                    i + 1,
                ));
                assert(pre.push(v@[i as int]) + spec_convert_from(v@, i + 1) =~= pre + (seq![
                    v@[i as int],
                ] + spec_convert_from(v@, i + 1)));
            }
            i = i + 1;
        }
    }
    proof {
        assert(spec_convert_from(v@, i as int) =~= Seq::<char>::empty());
        assert(out@ =~= spec_convert_from(v@, 0));
    }
    out
}

// ---------------------------------------------------------------------------
// Pass-through laws
// ---------------------------------------------------------------------------

/// Text in which no event-handler attribute starts anywhere passes
/// through the stripper unchanged: everything outside a match — sibling
/// attributes, element tags, content — survives as it stands.
pub proof fn lemma_strip_events_noop(s: Seq<char>)
    requires
        forall|k: int| 0 <= k < s.len() ==> #[trigger] event_match_len(s, k) == 0,
    ensures
        strip_events_from(s, 0) == s,
{
    lemma_strip_events_noop_from(s, 0);
    assert(s.skip(0) =~= s);
}

proof fn lemma_strip_events_noop_from(s: Seq<char>, i: int)
    requires
        0 <= i <= s.len(),
        forall|k: int| 0 <= k < s.len() ==> #[trigger] event_match_len(s, k) == 0,
    ensures
        strip_events_from(s, i) == s.skip(i),
    decreases s.len() - i,
{
    if i < s.len() {
        lemma_strip_events_noop_from(s, i + 1);
        assert(seq![s[i]] + s.skip(i + 1) =~= s.skip(i));
    } else {
        assert(s.skip(i) =~= Seq::<char>::empty());
    }
}

/// The same pass-through law for scheme-reference stripping.
pub proof fn lemma_strip_hrefs_noop(s: Seq<char>)
    requires
        forall|k: int| 0 <= k < s.len() ==> #[trigger] href_match_len(s, k) == 0,
    ensures
        strip_hrefs_from(s, 0) == s,
{
    lemma_strip_hrefs_noop_from(s, 0);
    assert(s.skip(0) =~= s);
}

proof fn lemma_strip_hrefs_noop_from(s: Seq<char>, i: int)
    requires
        0 <= i <= s.len(),
        forall|k: int| 0 <= k < s.len() ==> #[trigger] href_match_len(s, k) == 0,
    ensures
        strip_hrefs_from(s, i) == s.skip(i),
    decreases s.len() - i,
{
    if i < s.len() {
        lemma_strip_hrefs_noop_from(s, i + 1);
        assert(seq![s[i]] + s.skip(i + 1) =~= s.skip(i));
    } else {
        assert(s.skip(i) =~= Seq::<char>::empty());
    }
}

/// The same pass-through law for container conversion: in particular, a
/// malformed container that never completes a match is left exactly as it
/// stands rather than looping or being dropped.
pub proof fn lemma_convert_noop(s: Seq<char>)
    requires
        forall|k: int| 0 <= k < s.len() ==> #[trigger] fo_match_len(s, k) == 0,
    ensures
        spec_convert_from(s, 0) == s,
{
    lemma_convert_noop_from(s, 0);
    assert(s.skip(0) =~= s);
}

proof fn lemma_convert_noop_from(s: Seq<char>, i: int)
    requires
        0 <= i <= s.len(),
        forall|k: int| 0 <= k < s.len() ==> #[trigger] fo_match_len(s, k) == 0,
    ensures
        spec_convert_from(s, i) == s.skip(i),
    decreases s.len() - i,
{
    if i < s.len() {
        lemma_convert_noop_from(s, i + 1);
        assert(seq![s[i]] + s.skip(i + 1) =~= s.skip(i));
    } else {
        assert(s.skip(i) =~= Seq::<char>::empty());
    }
}

// ---------------------------------------------------------------------------
// The pipeline
// ---------------------------------------------------------------------------

/// What sanitization produces for an input free of script elements.
pub open spec fn spec_sanitized(s: Seq<char>) -> Seq<char> {
    spec_convert_from(strip_hrefs_from(strip_events_from(s, 0), 0), 0)
}

/// Sanitizes SVG text from an untrusted renderer: text holding a script
/// element, in any character case, is rejected outright and never
/// repaired; otherwise event-handler attributes and `javascript:`-scheme
/// references are stripped and every rich-text container is converted to
/// plain vector text.
pub fn sanitize_svg(svg: &str) -> (r: Result<String, SanitizeError>)
    ensures
        r is Err <==> has_script(svg@),
        r matches Ok(out) ==> out@ == spec_sanitized(svg@),
        r matches Err(e) ==> (e matches SanitizeError::Blocked(m) && m@ == blocked_text()),
{
    let v = str_chars(svg);
    let script_pat = str_chars("<script");
    if find_sub_ci(&v, &script_pat) {
        return Err(
            SanitizeError::Blocked(
                String::from_str("SVG holds <script> elements - blocked for security"),
            ),
        );
    }
    let s1 = strip_event_handlers(svg);
    let s2 = strip_javascript_hrefs(s1.as_str());
    let s3 = convert_foreign_objects(s2.as_str());
    Ok(s3)
}

} // verus!

use vstd::string::StrSliceExecFns;
use vstd::string::StringExecFns;
