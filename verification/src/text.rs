//! Character-level text model and verified helpers shared by the whole
//! crate: whitespace and trimming, substring search, line splitting and
//! joining, and decimal formatting.

use vstd::prelude::*;

verus! {

use vstd::std_specs::iter::IteratorSpec;

// ---------------------------------------------------------------------------
// Whitespace
// ---------------------------------------------------------------------------

/// The whitespace characters recognized by this crate: the Unicode
/// `White_Space` set, matching what `char::is_whitespace` accepts.
pub open spec fn is_space(c: char) -> bool {
    ||| c == ' '
    ||| c == '\t'
    ||| c == '\n'
    ||| c == '\r'
    ||| c == '\u{b}'
    ||| c == '\u{c}'
    ||| c == '\u{85}'
    ||| c == '\u{a0}'
    ||| c == '\u{1680}'
    ||| c == '\u{2000}'
    ||| c == '\u{2001}'
    ||| c == '\u{2002}'
    ||| c == '\u{2003}'
    ||| c == '\u{2004}'
    ||| c == '\u{2005}'
    ||| c == '\u{2006}'
    ||| c == '\u{2007}'
    ||| c == '\u{2008}'
    ||| c == '\u{2009}'
    ||| c == '\u{200a}'
    ||| c == '\u{2028}'
    ||| c == '\u{2029}'
    ||| c == '\u{202f}'
    ||| c == '\u{205f}'
    ||| c == '\u{3000}'
}

pub fn char_is_space(c: char) -> (r: bool)
    ensures
        r == is_space(c),
{
    c == ' ' || c == '\t' || c == '\n' || c == '\r' || c == '\u{b}' || c == '\u{c}'
        || c == '\u{85}' || c == '\u{a0}' || c == '\u{1680}'
        || (c >= '\u{2000}' && c <= '\u{200a}') || c == '\u{2028}' || c == '\u{2029}'
        || c == '\u{202f}' || c == '\u{205f}' || c == '\u{3000}'
}

// ---------------------------------------------------------------------------
// Trimming
// ---------------------------------------------------------------------------

pub open spec fn trim_start_spec(s: Seq<char>) -> Seq<char>
    decreases s.len(),
{
    if s.len() > 0 && is_space(s[0]) {
        trim_start_spec(s.skip(1))
    } else {
        s
    }
}

pub open spec fn trim_end_spec(s: Seq<char>) -> Seq<char>
    decreases s.len(),
{
    if s.len() > 0 && is_space(s[s.len() - 1]) {
        trim_end_spec(s.take(s.len() - 1))
    } else {
        s
    }
}

pub open spec fn trim_spec(s: Seq<char>) -> Seq<char> {
    trim_end_spec(trim_start_spec(s))
}

/// Index of the first non-whitespace character, so that
/// `trim_start_spec(v)` is `v` from that index on.
pub fn trim_start_index(v: &Vec<char>) -> (i: usize)
    ensures
        i <= v@.len(),
        v@.skip(i as int) == trim_start_spec(v@),
        forall|k: int| 0 <= k < i ==> is_space(v@[k]),
{
    let mut i: usize = 0;
    proof {
        assert(v@.skip(0) =~= v@);
    }
    while i < v.len() && char_is_space(v[i])
        invariant
            i <= v@.len(),
            trim_start_spec(v@) == trim_start_spec(v@.skip(i as int)),
            forall|k: int| 0 <= k < i ==> is_space(v@[k]),
        decreases v@.len() - i,
    {
        proof {
            assert(v@.skip(i as int).skip(1) =~= v@.skip(i + 1));
        }
        i = i + 1;
    }
    proof {
        assert(trim_start_spec(v@.skip(i as int)) == v@.skip(i as int));
    }
    i
}

/// Both trim boundaries at once: `trim_spec(v)` is `v.subrange(a, b)`.
pub fn trim_bounds(v: &Vec<char>) -> (r: (usize, usize))
    ensures
        r.0 <= r.1 <= v@.len(),
        v@.subrange(r.0 as int, r.1 as int) == trim_spec(v@),
{
    let a = trim_start_index(v);
    proof {
        lemma_trim_end_of_skip(v@, a as int);
    }
    let mut b: usize = v.len();
    while b > a && char_is_space(v[b - 1])
        invariant
            a <= b <= v@.len(),
            forall|k: int| 0 <= k < a ==> is_space(v@[k]),
            v@.skip(a as int) == trim_start_spec(v@),
            trim_end_spec(v@.skip(a as int)) == trim_end_spec(v@.subrange(a as int, b as int)),
        decreases b,
    {
        proof {
            assert(v@.subrange(a as int, b as int).take(b - 1 - a) =~= v@.subrange(
                a as int,
                b - 1,
            ));
        }
        b = b - 1;
    }
    proof {
        let sub = v@.subrange(a as int, b as int);
        if b > a {
            assert(sub[sub.len() - 1] == v@[b - 1]);
        }
        assert(trim_end_spec(sub) == sub);
    }
    (a, b)
}

proof fn lemma_trim_end_of_skip(s: Seq<char>, a: int)
    requires
        0 <= a <= s.len(),
        s.skip(a) == trim_start_spec(s),
    ensures
        trim_end_spec(s.skip(a)) == trim_end_spec(s.subrange(a, s.len() as int)),
{
    assert(s.skip(a) =~= s.subrange(a, s.len() as int));
}

// ---------------------------------------------------------------------------
// Substring matching
// ---------------------------------------------------------------------------

/// The pattern `p` occurs in `s` at position `i`.
pub open spec fn sub_at(s: Seq<char>, p: Seq<char>, i: int) -> bool {
    0 <= i && i + p.len() <= s.len() && s.subrange(i, i + p.len()) == p
}

pub open spec fn has_prefix(s: Seq<char>, p: Seq<char>) -> bool {
    sub_at(s, p, 0)
}

pub open spec fn has_suffix(s: Seq<char>, p: Seq<char>) -> bool {
    p.len() <= s.len() && sub_at(s, p, s.len() - p.len())
}

pub open spec fn has_sub(s: Seq<char>, p: Seq<char>) -> bool {
    exists|i: int| sub_at(s, p, i)
}

pub fn chars_match_at(v: &Vec<char>, p: &Vec<char>, i: usize) -> (r: bool)
    ensures
        r == sub_at(v@, p@, i as int),
{
    if i > v.len() || p.len() > v.len() - i {
        proof {
            assert(!sub_at(v@, p@, i as int));
        }
        return false;
    }
    let n = v.len();
    let mut j: usize = 0;
    while j < p.len()
        invariant
            n == v@.len(),
            j <= p@.len(),
            i + p@.len() <= v@.len(),
            forall|k: int| 0 <= k < j ==> v@[i + k] == p@[k],
        decreases p@.len() - j,
    {
        proof {
            assert(i + j < n);
        }
        if v[i + j] != p[j] {
            proof {
                assert(v@.subrange(i as int, i + p@.len())[j as int] != p@[j as int]);
            }
            return false;
        }
        j = j + 1;
    }
    proof {
        assert(v@.subrange(i as int, i + p@.len()) =~= p@);
    }
    true
}

/// Leftmost occurrence of `p` in `v` at or after `from`.
pub fn find_sub_from(v: &Vec<char>, p: &Vec<char>, from: usize) -> (r: Option<usize>)
    ensures
        match r {
            Some(i) => {
                &&& from <= i
                &&& sub_at(v@, p@, i as int)
                &&& forall|k: int| from <= k < i ==> !sub_at(v@, p@, k)
            },
            None => forall|k: int| from <= k ==> !sub_at(v@, p@, k),
        },
{
    if p.len() > v.len() {
        return None;
    }
    if p.len() == 0 {
        if from <= v.len() {
            proof {
                assert(v@.subrange(from as int, from as int) =~= p@);
            }
            return Some(from);
        } else {
            return None;
        }
    }
    let mut i: usize = from;
    while i <= v.len() - p.len()
        invariant
            0 < p@.len() <= v@.len(),
            from <= i,
            forall|k: int| from <= k < i ==> !sub_at(v@, p@, k),
        decreases v@.len() - i,
    {
        if chars_match_at(v, p, i) {
            return Some(i);
        }
        i = i + 1;
    }
    None
}

/// Trimming changes nothing when both ends are not whitespace.
pub proof fn lemma_trim_of_unspaced_ends(s: Seq<char>)
    requires
        s.len() > 0,
        !is_space(s[0]),
        !is_space(s[s.len() - 1]),
    ensures
        trim_spec(s) == s,
{
}

/// Trimming after appending one space gives back the original, when the
/// original has no whitespace at either end.
pub proof fn lemma_trim_drops_last_space(s: Seq<char>)
    requires
        s.len() > 0 ==> !is_space(s[0]) && !is_space(s[s.len() - 1]),
    ensures
        trim_spec(s + seq![' ']) == s,
{
    let x = s + seq![' '];
    if s.len() == 0 {
        assert(x =~= seq![' ']);
        assert(trim_start_spec(x) == trim_start_spec(x.skip(1)));
        assert(x.skip(1) =~= Seq::<char>::empty());
        assert(trim_spec(x) =~= s);
    } else {
        assert(x[0] == s[0]);
        assert(trim_start_spec(x) == x);
        assert(x[x.len() - 1] == ' ');
        assert(trim_end_spec(x) == trim_end_spec(x.take(x.len() - 1)));
        assert(x.take(x.len() - 1) =~= s);
        assert(trim_end_spec(s) == s);
    }
}

/// A pattern occurs at `a` exactly when it is a prefix of the suffix at `a`.
pub proof fn lemma_sub_at_skip(s: Seq<char>, p: Seq<char>, a: int)
    requires
        0 <= a <= s.len(),
    ensures
        sub_at(s, p, a) == has_prefix(s.skip(a), p),
{
    if a + p.len() <= s.len() {
        assert(s.subrange(a, a + p.len()) =~= s.skip(a).subrange(0, p.len() as int));
    }
}

/// A copy of `v.subrange(from, to)`.
pub fn subvec(v: &Vec<char>, from: usize, to: usize) -> (r: Vec<char>)
    requires
        from <= to <= v@.len(),
    ensures
        r@ == v@.subrange(from as int, to as int),
{
    let mut r: Vec<char> = Vec::new();
    let mut i: usize = from;
    while i < to
        invariant
            from <= i <= to <= v@.len(),
            r@ == v@.subrange(from as int, i as int),
        decreases to - i,
    {
        r.push(v[i]);
        proof {
            assert(v@.subrange(from as int, i as int).push(v@[i as int]) =~= v@.subrange(
                from as int,
                i + 1,
            ));
        }
        i = i + 1;
    }
    r
}

// ---------------------------------------------------------------------------
// ASCII lowercasing (for case-insensitive matching)
// ---------------------------------------------------------------------------

pub open spec fn lower_char(c: char) -> char {
    if 'A' <= c && c <= 'Z' {
        (c as u8 + 32) as char
    } else {
        c
    }
}

pub fn char_to_lower(c: char) -> (r: char)
    ensures
        r == lower_char(c),
{
    if 'A' <= c && c <= 'Z' {
        (c as u8 + 32) as char
    } else {
        c
    }
}

pub open spec fn lower_seq(s: Seq<char>) -> Seq<char> {
    Seq::new(s.len(), |i: int| lower_char(s[i]))
}

/// Whether `p` (given already lowercased) occurs in `s` up to ASCII case.
pub fn find_sub_ci(v: &Vec<char>, p: &Vec<char>) -> (r: bool)
    ensures
        r == has_sub(lower_seq(v@), p@),
{
    let mut low: Vec<char> = Vec::new();
    let mut i: usize = 0;
    while i < v.len()
        invariant
            i <= v@.len(),
            low@ == lower_seq(v@).take(i as int),
        decreases v@.len() - i,
    {
        low.push(char_to_lower(v[i]));
        proof {
            assert(low@ =~= lower_seq(v@).take(i + 1));
        }
        i = i + 1;
    }
    proof {
        assert(low@ =~= lower_seq(v@));
    }
    let r = find_sub_from(&low, p, 0);
    match r {
        Some(_) => true,
        None => {
            proof {
                assert(forall|k: int| !sub_at(lower_seq(v@), p@, k));
            }
            false
        },
    }
}

// ---------------------------------------------------------------------------
// Strings and characters
// ---------------------------------------------------------------------------

/// The characters of `s`, in order.
pub fn str_chars(s: &str) -> (r: Vec<char>)
    ensures
        r@ == s@,
{
    broadcast use vstd::string::group_string_axioms;

    let mut it = s.chars();
    let mut v: Vec<char> = Vec::new();
    loop
        invariant
            it.obeys_prophetic_iter_laws(),
            IteratorSpec::decrease(&it) is Some,
            v@ + IteratorSpec::remaining(&it) == s@,
        decreases IteratorSpec::decrease(&it)->0,
    {
        match it.next() {
            Some(c) => {
                v.push(c);
            },
            None => {
                proof {
                    assert(v@ =~= s@);
                }
                return v;
            },
        }
    }
}

/// Appends one character to a string.
///
/// Relies on `String::push`: appends the given `char` to the end of the
/// string.
#[verifier::external_body]
pub fn string_push(s: &mut String, c: char)
    ensures
        final(s)@ == old(s)@.push(c),
{
    s.push(c);
}

/// The byte length of a text under UTF-8, as `str::len` reports it.
pub open spec fn byte_size(s: Seq<char>) -> usize {
    vstd::utf8::encode_utf8(s).len() as usize
}

// ---------------------------------------------------------------------------
// Lines
// ---------------------------------------------------------------------------

/// Index of the first newline in `s`, or `s.len()` if there is none.
pub open spec fn first_nl(s: Seq<char>) -> nat
    decreases s.len(),
{
    if s.len() == 0 {
        0
    } else if s[0] == '\n' {
        0
    } else {
        1 + first_nl(s.skip(1))
    }
}

pub proof fn lemma_first_nl(s: Seq<char>)
    ensures
        first_nl(s) <= s.len(),
        forall|m: int| 0 <= m < first_nl(s) ==> s[m] != '\n',
        first_nl(s) < s.len() ==> s[first_nl(s) as int] == '\n',
    decreases s.len(),
{
    if s.len() > 0 && s[0] != '\n' {
        lemma_first_nl(s.skip(1));
        assert forall|m: int| 0 <= m < first_nl(s) implies s[m] != '\n' by {
            if m > 0 {
                assert(s.skip(1)[m - 1] == s[m]);
            }
        }
    }
}

/// A single trailing carriage return is dropped, as a line ending may be
/// either a bare newline or a carriage return followed by a newline.
pub open spec fn strip_cr(l: Seq<char>) -> Seq<char> {
    if l.len() > 0 && l[l.len() - 1] == '\r' {
        l.take(l.len() - 1)
    } else {
        l
    }
}

/// The lines of `t`, following the splitting rules of `str::lines`:
/// lines end at a newline or at the end of the text, a carriage return
/// before a newline is dropped, and a trailing newline opens no final
/// empty line.
pub open spec fn lines_of(t: Seq<char>) -> Seq<Seq<char>>
    decreases t.len(),
{
    if t.len() == 0 {
        Seq::empty()
    } else {
        let k = first_nl(t);
        if k >= t.len() {
            seq![t]
        } else {
            seq![strip_cr(t.take(k as int))] + lines_of(t.skip(k + 1 as int))
        }
    }
}

/// The views of a sequence of line strings.
pub open spec fn view_lines(ls: Seq<String>) -> Seq<Seq<char>> {
    Seq::new(ls.len(), |i: int| ls[i]@)
}

/// `t` split at every newline; unlike `lines_of` this keeps every
/// segment (including a final empty one) and strips no carriage return,
/// so it is exactly inverse to joining with newlines.
pub open spec fn split_nl(s: Seq<char>) -> Seq<Seq<char>>
    decreases s.len(),
{
    if s.len() == 0 {
        seq![Seq::<char>::empty()]
    } else if s[0] == '\n' {
        seq![Seq::<char>::empty()] + split_nl(s.skip(1))
    } else {
        let rest = split_nl(s.skip(1));
        seq![seq![s[0]] + rest[0]] + rest.skip(1)
    }
}

pub proof fn lemma_split_nl_nonempty(s: Seq<char>)
    ensures
        split_nl(s).len() >= 1,
    decreases s.len(),
{
    if s.len() > 0 && s[0] != '\n' {
        lemma_split_nl_nonempty(s.skip(1));
    }
}

/// Joining a sequence of lines with newlines between them.
pub open spec fn join_lines(ls: Seq<Seq<char>>) -> Seq<char>
    decreases ls.len(),
{
    if ls.len() == 0 {
        Seq::empty()
    } else if ls.len() == 1 {
        ls[0]
    } else {
        ls[0] + seq!['\n'] + join_lines(ls.skip(1))
    }
}

/// Appending one more line to a join adds a newline and the line.
pub proof fn lemma_join_lines_push(ls: Seq<Seq<char>>, x: Seq<char>)
    ensures
        ls.len() == 0 ==> join_lines(ls.push(x)) == x,
        ls.len() > 0 ==> join_lines(ls.push(x)) == join_lines(ls) + seq!['\n'] + x,
    decreases ls.len(),
{
    let z = ls.push(x);
    if ls.len() == 0 {
        assert(z.len() == 1 && z[0] == x);
    } else if ls.len() == 1 {
        assert(z.len() == 2);
        assert(z[0] == ls[0]);
        assert(z.skip(1) =~~= seq![x]);
        assert(join_lines(seq![x]) == x);
        assert(join_lines(z) == z[0] + seq!['\n'] + join_lines(z.skip(1)));
        assert(join_lines(z) == ls[0] + seq!['\n'] + x);
    } else {
        lemma_join_lines_push(ls.skip(1), x);
        assert(z.skip(1) =~~= ls.skip(1).push(x));
        assert(join_lines(z) == z[0] + seq!['\n'] + join_lines(ls.skip(1).push(x)));
        assert(z[0] == ls[0]);
        assert(ls[0] + seq!['\n'] + (join_lines(ls.skip(1)) + seq!['\n'] + x) =~= (ls[0]
            + seq!['\n'] + join_lines(ls.skip(1))) + seq!['\n'] + x);
    }
}

proof fn lemma_join_lines_cons(x: Seq<char>, y: Seq<Seq<char>>)
    requires
        y.len() >= 1,
    ensures
        join_lines(seq![x + y[0]] + y.skip(1)) == x + join_lines(y),
{
    let z = seq![x + y[0]] + y.skip(1);
    if y.len() == 1 {
        assert(z =~~= seq![x + y[0]]);
        assert(join_lines(z) == x + y[0]);
        assert(join_lines(y) == y[0]);
    } else {
        assert(z.len() > 1);
        assert(z[0] == x + y[0]);
        assert(z.skip(1) =~~= y.skip(1));
        assert((x + y[0]) + seq!['\n'] + join_lines(y.skip(1)) =~= x + (y[0] + seq!['\n']
            + join_lines(y.skip(1))));
    }
}

/// Joining the newline split of `t` gives back exactly `t`.
pub proof fn lemma_join_split_nl(s: Seq<char>)
    ensures
        join_lines(split_nl(s)) == s,
    decreases s.len(),
{
    if s.len() == 0 {
        assert(join_lines(split_nl(s)) =~= s);
    } else if s[0] == '\n' {
        lemma_join_split_nl(s.skip(1));
        lemma_split_nl_nonempty(s.skip(1));
        let z = seq![Seq::<char>::empty()] + split_nl(s.skip(1));
        assert(z.len() > 1);
        assert(z[0] =~= Seq::<char>::empty());
        assert(z.skip(1) =~~= split_nl(s.skip(1)));
        assert(Seq::<char>::empty() + seq!['\n'] + s.skip(1) =~= s);
    } else {
        lemma_join_split_nl(s.skip(1));
        lemma_split_nl_nonempty(s.skip(1));
        lemma_join_lines_cons(seq![s[0]], split_nl(s.skip(1)));
        assert(seq![s[0]] + s.skip(1) =~= s);
    }
}

/// Splitting at a separating newline splits each side on its own.
pub proof fn lemma_split_nl_append(a: Seq<char>, b: Seq<char>)
    ensures
        split_nl(a + seq!['\n'] + b) == split_nl(a) + split_nl(b),
    decreases a.len(),
{
    let s = a + seq!['\n'] + b;
    if a.len() == 0 {
        assert(s[0] == '\n');
        assert(s.skip(1) =~= b);
        assert(split_nl(s) =~~= split_nl(a) + split_nl(b));
    } else {
        let a1 = a.skip(1);
        assert(s.skip(1) =~= a1 + seq!['\n'] + b);
        lemma_split_nl_append(a1, b);
        lemma_split_nl_nonempty(a1);
        lemma_split_nl_nonempty(b);
        if a[0] == '\n' {
            assert(s[0] == '\n');
            assert(split_nl(s) =~~= seq![Seq::<char>::empty()] + (split_nl(a1) + split_nl(b)));
            assert(split_nl(a) =~~= seq![Seq::<char>::empty()] + split_nl(a1));
            assert(split_nl(s) =~~= split_nl(a) + split_nl(b));
        } else {
            assert(s[0] == a[0]);
            let r = split_nl(a1) + split_nl(b);
            assert(r[0] == split_nl(a1)[0]);
            assert(r.skip(1) =~~= split_nl(a1).skip(1) + split_nl(b));
            assert(split_nl(s) =~~= seq![seq![a[0]] + split_nl(a1)[0]] + (split_nl(a1).skip(1)
                + split_nl(b)));
            assert(split_nl(a) =~~= seq![seq![a[0]] + split_nl(a1)[0]] + split_nl(a1).skip(1));
            assert(split_nl(s) =~~= split_nl(a) + split_nl(b));
        }
    }
}

/// On text with no carriage return before a newline or at the end, no
/// trailing newline, and at least one character, the two splits agree.
pub proof fn lemma_lines_of_is_split_nl(t: Seq<char>)
    requires
        t.len() > 0,
        t[t.len() - 1] != '\n',
        t[t.len() - 1] != '\r',
        forall|m: int| 0 <= m < t.len() - 1 ==> !((#[trigger] t[m]) == '\r' && t[m + 1] == '\n'),
    ensures
        lines_of(t) == split_nl(t),
    decreases t.len(),
{
    let k = first_nl(t);
    lemma_first_nl(t);
    lemma_split_nl_chunk(t, k as int);
    if k >= t.len() {
        assert(lines_of(t) =~~= split_nl(t));
    } else {
        let u = t.skip(k + 1 as int);
        assert(t[k as int] == '\n');
        assert(k < t.len() - 1) by {
            if k == t.len() - 1 {
                assert(t[t.len() - 1] == '\n');
            }
        }
        assert(u.len() > 0);
        assert(u[u.len() - 1] == t[t.len() - 1]);
        assert(forall|m: int|
            0 <= m < u.len() - 1 ==> !((#[trigger] u[m]) == '\r' && u[m + 1] == '\n')) by {
            assert(forall|m: int|
                0 <= m < u.len() - 1 ==> (#[trigger] u[m]) == t[m + k + 1] && u[m + 1] == t[m + k
                    + 2]);
        }
        lemma_lines_of_is_split_nl(u);
        assert(strip_cr(t.take(k as int)) == t.take(k as int)) by {
            if k > 0 && t[k - 1] == '\r' {
                assert(t[k - 1] == '\r' && t[k as int] == '\n');
            }
            if k > 0 {
                assert(t.take(k as int)[k - 1] == t[k - 1]);
            }
        }
        assert(lines_of(t) =~~= split_nl(t));
    }
}

/// How `split_nl` decomposes around the first newline: everything before
/// index `k` is newline-free, and `k` is a newline or the end.
pub proof fn lemma_split_nl_chunk(s: Seq<char>, k: int)
    requires
        0 <= k <= s.len(),
        forall|m: int| 0 <= m < k ==> s[m] != '\n',
        k < s.len() ==> s[k] == '\n',
    ensures
        k == s.len() ==> split_nl(s) == seq![s],
        k < s.len() ==> split_nl(s) == seq![s.take(k)] + split_nl(s.skip(k + 1)),
    decreases k,
{
    if s.len() == 0 {
        assert(split_nl(s) =~~= seq![s]);
    } else if k == 0 {
        if k < s.len() {
            assert(s[0] == '\n');
            assert(s.take(0) =~= Seq::<char>::empty());
            assert(split_nl(s) =~~= seq![s.take(0)] + split_nl(s.skip(1)));
        }
    } else {
        let s1 = s.skip(1);
        assert(forall|m: int| 0 <= m < k - 1 ==> s1[m] == s[m + 1] && s1[m] != '\n');
        lemma_split_nl_chunk(s1, k - 1);
        lemma_split_nl_nonempty(s1);
        let rest = split_nl(s1);
        if k == s.len() {
            assert(rest == seq![s1]);
            assert(seq![s[0]] + rest[0] =~= s);
            assert(split_nl(s) =~~= seq![s]);
        } else {
            assert(s1[k - 1] == s[k] && s1[k - 1] == '\n');
            assert(rest == seq![s1.take(k - 1)] + split_nl(s1.skip(k)));
            assert(seq![s[0]] + s1.take(k - 1) =~= s.take(k));
            assert(s1.skip(k) =~= s.skip(k + 1));
            assert(rest[0] == s1.take(k - 1));
            assert(rest.skip(1) =~~= split_nl(s1.skip(k)));
            assert(split_nl(s) =~~= seq![s.take(k)] + split_nl(s.skip(k + 1)));
        }
    }
}

/// Splits a document into its lines, exactly as `str::lines` would.
pub fn split_lines(text: &str) -> (r: Vec<String>)
    ensures
        view_lines(r@) == lines_of(text@),
{
    let v = str_chars(text);
    let n = v.len();
    let mut out: Vec<String> = Vec::new();
    let mut i: usize = 0;
    proof {
        assert(v@.skip(0) =~= v@);
        assert(view_lines(out@) + lines_of(v@) =~~= lines_of(v@));
    }
    while i < n
        invariant
            n == v@.len(),
            v@ == text@,
            i <= n,
            view_lines(out@) + lines_of(v@.skip(i as int)) == lines_of(v@),
        decreases n - i,
    {
        let ghost t = v@.skip(i as int);
        let mut j: usize = i;
        while j < n && v[j] != '\n'
            invariant
                n == v@.len(),
                i <= j <= n,
                forall|m: int| i <= m < j ==> v@[m] != '\n',
            decreases n - j,
        {
            j = j + 1;
        }
        proof {
            lemma_first_nl_at(t, (j - i) as nat);
        }
        if j >= n {
            let line = string_from_chars(&v, i, n);
            proof {
                assert(t =~= v@.subrange(i as int, n as int));
                assert(lines_of(t) =~~= seq![t]);
            }
            out.push(line);
            proof {
                assert(view_lines(out@) =~~= lines_of(v@));
            }
            return out;
        } else {
            let end = if j > i && v[j - 1] == '\r' {
                j - 1
            } else {
                j
            };
            let line = string_from_chars(&v, i, end);
            proof {
                let k = (j - i) as int;
                assert(t.take(k) =~= v@.subrange(i as int, j as int));
                assert(strip_cr(t.take(k)) =~= v@.subrange(i as int, end as int)) by {
                    if j > i {
                        assert(t.take(k)[k - 1] == v@[j - 1]);
                    }
                    if j > i && v@[j - 1] == '\r' {
                        assert(t.take(k).take(k - 1) =~= v@.subrange(i as int, j - 1));
                    }
                }
                assert(t.skip(k + 1) =~= v@.skip(j + 1));
                assert(lines_of(t) =~~= seq![strip_cr(t.take(k))] + lines_of(v@.skip(j + 1)));
            }
            out.push(line);
            proof {
                assert(view_lines(out@) + lines_of(v@.skip(j + 1)) =~~= lines_of(v@));
            }
            i = j + 1;
        }
    }
    proof {
        assert(lines_of(v@.skip(i as int)) =~~= Seq::<Seq<char>>::empty());
        assert(view_lines(out@) =~~= lines_of(v@));
    }
    out
}

proof fn lemma_first_nl_at(s: Seq<char>, k: nat)
    requires
        k <= s.len(),
        forall|m: int| 0 <= m < k ==> s[m] != '\n',
        k < s.len() ==> s[k as int] == '\n',
    ensures
        first_nl(s) == k,
    decreases k,
{
    if k == 0 {
    } else {
        assert(s[0] != '\n');
        let s1 = s.skip(1);
        assert(forall|m: int| 0 <= m < k - 1 ==> s1[m] == s[m + 1] && s1[m] != '\n');
        assert(k - 1 < s1.len() ==> s1[k - 1] == s[k as int]);
        lemma_first_nl_at(s1, (k - 1) as nat);
    }
}

// ---------------------------------------------------------------------------
// Decimal formatting
// ---------------------------------------------------------------------------

pub open spec fn dec_digit(d: int) -> char {
    if d == 0 {
        '0'
    } else if d == 1 {
        '1'
    } else if d == 2 {
        '2'
    } else if d == 3 {
        '3'
    } else if d == 4 {
        '4'
    } else if d == 5 {
        '5'
    } else if d == 6 {
        '6'
    } else if d == 7 {
        '7'
    } else if d == 8 {
        '8'
    } else {
        '9'
    }
}

/// Decimal digits of `n` without a leading zero; empty for zero.
pub open spec fn dec_str0(n: int) -> Seq<char>
    decreases n,
{
    if n <= 0 {
        Seq::empty()
    } else {
        dec_str0(n / 10).push(dec_digit(n % 10))
    }
}

/// The usual decimal rendering of a non-negative integer.
pub open spec fn dec_str(n: int) -> Seq<char> {
    if n == 0 {
        seq!['0']
    } else {
        dec_str0(n)
    }
}

pub fn dec_digit_char(d: u64) -> (c: char)
    requires
        d < 10,
    ensures
        c == dec_digit(d as int),
{
    if d == 0 {
        '0'
    } else if d == 1 {
        '1'
    } else if d == 2 {
        '2'
    } else if d == 3 {
        '3'
    } else if d == 4 {
        '4'
    } else if d == 5 {
        '5'
    } else if d == 6 {
        '6'
    } else if d == 7 {
        '7'
    } else if d == 8 {
        '8'
    } else {
        '9'
    }
}

/// Appends the decimal rendering of `n` to `out`.
pub fn push_u64_dec(out: &mut String, n: u64)
    ensures
        final(out)@ == old(out)@ + dec_str(n as int),
{
    if n == 0 {
        string_push(out, '0');
        proof {
            assert(old(out)@.push('0') =~= old(out)@ + dec_str(0));
        }
        return ;
    }
    let mut digits: Vec<char> = Vec::new();
    let mut m = n;
    proof {
        assert(digits@.reverse() =~= Seq::<char>::empty());
        assert(dec_str0(n as int) =~= dec_str0(m as int) + digits@.reverse());
    }
    while m > 0
        invariant
            dec_str0(n as int) == dec_str0(m as int) + digits@.reverse(),
        decreases m,
    {
        let d = m % 10;
        let c = dec_digit_char(d);
        proof {
            assert((digits@.push(c)).reverse() =~= seq![c] + digits@.reverse());
            assert(dec_str0(m as int) == dec_str0(m as int / 10).push(dec_digit(m as int % 10)));
            assert(dec_str0(m as int / 10) + (seq![c] + digits@.reverse()) =~= dec_str0(m as int)
                + digits@.reverse());
        }
        digits.push(c);
        m = m / 10;
    }
    proof {
        assert(dec_str0(n as int) =~= digits@.reverse());
    }
    let mut k = digits.len();
    while k > 0
        invariant
            k <= digits@.len(),
            out@ == old(out)@ + digits@.reverse().take(digits@.len() - k),
        decreases k,
    {
        string_push(out, digits[k - 1]);
        proof {
            assert(digits@.reverse().take(digits@.len() - (k - 1)) =~= digits@.reverse().take(
                digits@.len() - k,
            ).push(digits@[k - 1]));
        }
        k = k - 1;
    }
    proof {
        assert(digits@.reverse().take(digits@.len() as int) =~= digits@.reverse());
        assert(out@ == old(out)@ + dec_str(n as int));
    }
}

/// A `String` holding `v.subrange(from, to)`.
pub fn string_from_chars(v: &Vec<char>, from: usize, to: usize) -> (r: String)
    requires
        from <= to <= v@.len(),
    ensures
        r@ == v@.subrange(from as int, to as int),
{
    let mut r = String::new();
    let mut i: usize = from;
    while i < to
        invariant
            from <= i <= to <= v@.len(),
            r@ == v@.subrange(from as int, i as int),
        decreases to - i,
    {
        string_push(&mut r, v[i]);
        proof {
            assert(v@.subrange(from as int, i as int).push(v@[i as int]) =~= v@.subrange(
                from as int,
                i + 1,
            ));
        }
        i = i + 1;
    }
    r
}

} // verus!
