//! Content-addressed cache keys and cache path derivation.
//!
//! A diagram source is fingerprinted with SHA-256 over its bytes plus a
//! cache-format tag, rendered as 64 lowercase hex characters.  A digest is
//! validated (exact length, hex alphabet only) before it may become a file
//! name, which keeps every derived cache path inside the cache root.

use vstd::prelude::*;

verus! {

use vstd::utf8::encode_utf8;
use vstd::string::StrSliceExecFns;
use vstd::string::StringExecFns;
use crate::text::has_prefix;
use crate::text::has_sub;
use crate::text::sub_at;
use crate::text::str_chars;
use crate::text::string_push;

// ---------------------------------------------------------------------------
// SHA-256 digests
// ---------------------------------------------------------------------------

/// The SHA-256 digest of a byte sequence.
pub uninterp spec fn sha256_of(data: Seq<u8>) -> Seq<u8>;

/// Relies on `sha2::Sha256` through the `Digest` trait: the digest is a
/// 32-byte value that is a function of the input bytes alone.
#[verifier::external_body]
fn sha256_digest(data: &[u8]) -> (r: Vec<u8>)
    ensures
        r@ == sha256_of(data@),
        r@.len() == 32,
{
    <sha2::Sha256 as sha2::Digest>::digest(data).to_vec()
}

// ---------------------------------------------------------------------------
// Lowercase hex
// ---------------------------------------------------------------------------

pub open spec fn hex_digit(d: int) -> char {
    if d == 0 {
        '0'
    } else if d == 1 {
        '1'
    } else if d == 2 {
        '2'
    } else if d == 3 {
        '3'
    } else if d == 4 {
        '4'
    } else if d == 5 {
        '5'
    } else if d == 6 {
        '6'
    } else if d == 7 {
        '7'
    } else if d == 8 {
        '8'
    } else if d == 9 {
        '9'
    } else if d == 10 {
        'a'
    } else if d == 11 {
        'b'
    } else if d == 12 {
        'c'
    } else if d == 13 {
        'd'
    } else if d == 14 {
        'e'
    } else {
        'f'
    }
}

/// Lowercase hex rendering of a byte sequence, two characters per byte.
pub open spec fn hex_lower(data: Seq<u8>) -> Seq<char>
    decreases data.len(),
{
    if data.len() == 0 {
        Seq::empty()
    } else {
        seq![hex_digit(data[0] as int / 16), hex_digit(data[0] as int % 16)] + hex_lower(
            data.skip(1),
        )
    }
}

/// A hex character as accepted by `char::is_ascii_hexdigit`.
pub open spec fn is_hex_char(c: char) -> bool {
    ('0' <= c && c <= '9') || ('a' <= c && c <= 'f') || ('A' <= c && c <= 'F')
}

pub proof fn lemma_hex_lower_shape(data: Seq<u8>)
    ensures
        hex_lower(data).len() == 2 * data.len(),
        forall|i: int| 0 <= i < hex_lower(data).len() ==> is_hex_char(#[trigger] hex_lower(data)[i]),
    decreases data.len(),
{
    if data.len() > 0 {
        lemma_hex_lower_shape(data.skip(1));
    }
}

fn hex_digit_char(d: u8) -> (c: char)
    requires
        d < 16,
    ensures
        c == hex_digit(d as int),
{
    if d == 0 {
        '0'
    } else if d == 1 {
        '1'
    } else if d == 2 {
        '2'
    } else if d == 3 {
        '3'
    } else if d == 4 {
        '4'
    } else if d == 5 {
        '5'
    } else if d == 6 {
        '6'
    } else if d == 7 {
        '7'
    } else if d == 8 {
        '8'
    } else if d == 9 {
        '9'
    } else if d == 10 {
        'a'
    } else if d == 11 {
        'b'
    } else if d == 12 {
        'c'
    } else if d == 13 {
        'd'
    } else if d == 14 {
        'e'
    } else {
        'f'
    }
}

fn to_hex_lower(data: &Vec<u8>) -> (r: String)
    ensures
        r@ == hex_lower(data@),
{
    let mut r = String::new();
    let mut i: usize = 0;
    proof {
        assert(data@.skip(0) =~= data@);
    }
    while i < data.len()
        invariant
            i <= data@.len(),
            r@ + hex_lower(data@.skip(i as int)) == hex_lower(data@),
        decreases data@.len() - i,
    {
        let b = data[i];
        string_push(&mut r, hex_digit_char(b / 16));
        string_push(&mut r, hex_digit_char(b % 16));
        proof {
            assert(data@.skip(i as int).skip(1) =~= data@.skip(i + 1));
            assert(data@.skip(i as int)[0] == data@[i as int]);
        }
        i = i + 1;
    }
    proof {
        assert(hex_lower(data@.skip(i as int)) =~= Seq::<char>::empty());
        assert(r@ =~= hex_lower(data@));
    }
    r
}

// ---------------------------------------------------------------------------
// Content hashes
// ---------------------------------------------------------------------------

/// The tag mixed into every digest, so that a change of the cache format
/// invalidates previously cached entries without manual cleanup.
pub open spec fn cache_tag() -> Seq<char> {
    "mermaid-svg-1"@
}

fn cache_tag_str() -> (r: &'static str)
    ensures
        r@ == cache_tag(),
{
    "mermaid-svg-1"
}

/// The cache key of a diagram source: lowercase hex of the SHA-256 digest
/// of the source bytes followed by the cache-format tag bytes.
pub open spec fn spec_content_hash(source: Seq<char>) -> Seq<char> {
    hex_lower(sha256_of(encode_utf8(source) + encode_utf8(cache_tag())))
}

/// Cache-related errors.
#[derive(Debug, Clone, PartialEq, Eq)]
pub enum CacheError {
    ReadError(String),
    WriteError(String),
    InvalidPath(String),
}

/// Content hash for cache keys.
#[derive(Debug, Clone, PartialEq, Eq, Hash)]
pub struct ContentHash(pub String);

/// A well-formed cache key: exactly 64 hex characters.
pub open spec fn valid_hash(h: Seq<char>) -> bool {
    h.len() == 64 && forall|i: int| 0 <= i < h.len() ==> is_hex_char(#[trigger] h[i])
}

impl ContentHash {
    /// Generates the content hash of a diagram source.
    pub fn from_source(source: &str) -> (r: Self)
        ensures
            r.0@ == spec_content_hash(source@),
            valid_hash(r.0@),
    {
        let mut data = source.as_bytes_vec();
        let mut tag = cache_tag_str().as_bytes_vec();
        data.append(&mut tag);
        let digest = sha256_digest(data.as_slice());
        proof {
            lemma_hex_lower_shape(digest@);
        }
        ContentHash(to_hex_lower(&digest))
    }

    /// The hash as a string.
    pub fn as_str(&self) -> (r: &str)
        ensures
            r@ == self.0@,
    {
        self.0.as_str()
    }

    /// Checks that the hash is safe for use in file names: it must be
    /// exactly 64 hex characters, nothing else.
    pub fn validate(&self) -> (r: Result<(), CacheError>)
        ensures
            r is Ok <==> valid_hash(self.0@),
            self.0@.len() != 64 ==> (r matches Err(e) && e matches CacheError::InvalidPath(m)
                && m@ == "Hash must be 64 characters"@),
            self.0@.len() == 64 && !valid_hash(self.0@) ==> (r matches Err(e) && e matches
                CacheError::InvalidPath(m) && m@ == "Hash must only contain hex characters"@),
    {
        let v = str_chars(self.0.as_str());
        if v.len() != 64 {
            return Err(CacheError::InvalidPath(msg_bad_len()));
        }
        let mut i: usize = 0;
        while i < v.len()
            invariant
                v@ == self.0@,
                v@.len() == 64,
                i <= v@.len(),
                forall|k: int| 0 <= k < i ==> is_hex_char(#[trigger] v@[k]),
            decreases v@.len() - i,
        {
            let c = v[i];
            if !(('0' <= c && c <= '9') || ('a' <= c && c <= 'f') || ('A' <= c && c <= 'F')) {
                return Err(CacheError::InvalidPath(msg_bad_chars()));
            }
            i = i + 1;
        }
        Ok(())
    }
}

fn msg_bad_len() -> (r: String)
    ensures
        r@ == "Hash must be 64 characters"@,
{
    String::from_str("Hash must be 64 characters")
}

fn msg_bad_chars() -> (r: String)
    ensures
        r@ == "Hash must only contain hex characters"@,
{
    String::from_str("Hash must only contain hex characters")
}

// ---------------------------------------------------------------------------
// The diagram cache
// ---------------------------------------------------------------------------

/// Joining a file name under a directory with a single separator, the way
/// a path join behaves for a relative file name.
pub open spec fn path_join(dir: Seq<char>, file: Seq<char>) -> Seq<char> {
    if dir.len() > 0 && dir[dir.len() - 1] != '/' {
        dir + seq!['/'] + file
    } else {
        dir + file
    }
}

/// The file name of a cache entry for a given hash.
pub open spec fn entry_file_name(h: Seq<char>) -> Seq<char> {
    h + ".svg"@
}

/// The cache path a valid hash resolves to.
pub open spec fn spec_cache_path(dir: Seq<char>, h: Seq<char>) -> Seq<char> {
    path_join(dir, entry_file_name(h))
}

/// Digest-addressed cache of rendered SVG documents under one root
/// directory.  This type derives entry paths and guards them; reading and
/// writing the entries is the calling layer's concern.
pub struct DiagramCache {
    pub cache_dir: String,
}

impl DiagramCache {
    /// A cache rooted at the given directory.
    pub fn new(cache_dir: String) -> (r: Self)
        ensures
            r.cache_dir@ == cache_dir@,
    {
        Self { cache_dir }
    }

    /// The cache root directory.
    pub fn cache_dir(&self) -> (r: &str)
        ensures
            r@ == self.cache_dir@,
    {
        self.cache_dir.as_str()
    }

    /// Derives the path of the cache entry for `hash`.
    ///
    /// The hash is validated first, so the file-name component appended to
    /// the cache root consists of hex characters and a fixed suffix only:
    /// the result can never leave the root.  An invalid hash is rejected
    /// with the validation error, before any filesystem use.
    pub fn get_path(&self, hash: &ContentHash) -> (r: Result<String, CacheError>)
        ensures
            valid_hash(hash.0@) <==> r is Ok,
            r matches Ok(p) ==> p@ == spec_cache_path(self.cache_dir@, hash.0@),
            r matches Err(e) ==> e is InvalidPath,
    {
        match hash.validate() {
            Ok(()) => {},
            Err(e) => {
                proof {
                    assert(e is InvalidPath);
                }
                return Err(e);
            },
        }
        let mut path = self.cache_dir.clone();
        let dirc = str_chars(path.as_str());
        let needs_sep = dirc.len() > 0 && dirc[dirc.len() - 1] != '/';
        if needs_sep {
            string_push(&mut path, '/');
        }
        path.append(hash.0.as_str());
        path.append(".svg");
        proof {
            assert(path@ =~= spec_cache_path(self.cache_dir@, hash.0@));
        }
        Ok(path)
    }
}

/// Repeated rendering of one source is a cache hit: the digest and the
/// derived cache path are functions of the source and the cache root
/// alone, so the entry a second render consults is the very path the
/// first render filled.  (The human-readable asset names beside the
/// cache carry a timestamp and are the callers' concern.)
pub proof fn lemma_same_source_same_entry(root: Seq<char>, s1: Seq<char>, s2: Seq<char>)
    requires
        s1 == s2,
    ensures
        spec_content_hash(s1) == spec_content_hash(s2),
        spec_cache_path(root, spec_content_hash(s1)) == spec_cache_path(
            root,
            spec_content_hash(s2),
        ),
{
}

/// Path safety of derived cache entry paths: for a valid hash, the path is
/// the cache root, one separator, and a file name that holds no separator
/// and no `..`, so resolving it stays inside the root.
pub proof fn lemma_cache_path_stays_in_root(dir: Seq<char>, h: Seq<char>)
    requires
        valid_hash(h),
    ensures
        has_prefix(spec_cache_path(dir, h), dir),
        spec_cache_path(dir, h).len() > dir.len() ==> ({
            let rest = spec_cache_path(dir, h).skip(dir.len() as int);
            &&& forall|i: int| 1 <= i < rest.len() ==> (#[trigger] rest[i]) != '/'
            &&& forall|i: int| 1 <= i < rest.len() ==> (#[trigger] rest[i]) != '\\'
            &&& !has_sub(rest, ".."@)
        }),
{
    let p = spec_cache_path(dir, h);
    let file = entry_file_name(h);
    reveal_strlit(".svg");
    reveal_strlit("..");
    assert(file.len() == 68);
    assert(forall|i: int| 0 <= i < 64 ==> file[i] == h[i]);
    assert(file[64] == '.' && file[65] == 's' && file[66] == 'v' && file[67] == 'g');
    assert(forall|i: int| 0 <= i < file.len() ==> (#[trigger] file[i]) != '/' && file[i] != '\\')
        by {
        assert(forall|i: int|
            0 <= i < 64 ==> is_hex_char(#[trigger] file[i]) && file[i] != '/' && file[i] != '\\');
    }
    assert(!has_sub(file, ".."@)) by {
        assert forall|i: int| !sub_at(file, ".."@, i) by {
            if 0 <= i && i + 2 <= file.len() {
                if file.subrange(i, i + 2) == ".."@ {
                    assert(file.subrange(i, i + 2)[0] == file[i]);
                    assert(file.subrange(i, i + 2)[1] == file[i + 1]);
                    assert(file[i] == '.' && file[i + 1] == '.');
                    assert(i < 64 ==> is_hex_char(file[i]) && file[i] != '.');
                    assert(i + 1 >= file.len() - 3);
                }
            }
        }
    }
    if dir.len() > 0 && dir[dir.len() - 1] != '/' {
        assert(p =~= dir + seq!['/'] + file);
        assert(p.subrange(0, dir.len() as int) =~= dir);
        let rest = p.skip(dir.len() as int);
        assert(rest =~= seq!['/'] + file);
        assert forall|i: int| !sub_at(rest, ".."@, i) by {
            if 1 <= i && i + 2 <= rest.len() {
                if rest.subrange(i, i + 2) == ".."@ {
                    assert(rest.subrange(i, i + 2)[0] == rest[i]);
                    assert(rest.subrange(i, i + 2)[1] == rest[i + 1]);
                    assert(file.subrange(i - 1, i + 1) =~= rest.subrange(i, i + 2));
                    assert(sub_at(file, ".."@, i - 1));
                }
            } else if i == 0 && rest.len() >= 2 {
                if rest.subrange(0, 2) == ".."@ {
                    assert(rest.subrange(0, 2)[0] == rest[0]);
                    assert(rest[0] == '/');
                }
            }
        }
    } else {
        assert(p =~= dir + file);
        assert(p.subrange(0, dir.len() as int) =~= dir);
        let rest = p.skip(dir.len() as int);
        assert(rest =~= file);
        assert(forall|i: int| !sub_at(rest, ".."@, i));
    }
}

} // verus!
