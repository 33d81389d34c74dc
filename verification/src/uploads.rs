//! Upload-side filename handling: deriving a content type from the
//! extension and sanitizing names before they become object keys.
//! Receiving the bytes and talking to the object store stay with the
//! caller.

use vstd::prelude::*;
use vstd::string::*;

verus! {

/// What a successful upload reports back.
#[derive(Debug)]
pub struct UploadResponse {
    pub url: String,
    pub file_id: String,
}

/// What `str::to_lowercase` returns: a function of the characters
/// alone (Unicode lowercasing, which this crate does not restate).
pub uninterp spec fn lower_of(s: Seq<char>) -> Seq<char>;

/// Relies on str::to_lowercase: the result depends on the characters
/// alone, and an empty string stays empty.
pub assume_specification[ str::to_lowercase ](s: &str) -> (r: String)
    ensures
        r@ == lower_of(s@),
        s@.len() == 0 ==> r@.len() == 0,
;

/// Whether `char::is_alphanumeric` accepts the character: a function
/// of the character alone (a Unicode category test, not restated).
pub uninterp spec fn is_alphanum(c: char) -> bool;

/// Relies on char::is_alphanumeric: a pure Unicode category test.
pub assume_specification[ char::is_alphanumeric ](c: char) -> (r: bool)
    ensures
        r == is_alphanum(c),
;

/// Relies on String::push: appends one character at the end.
pub assume_specification[ String::push ](s: &mut String, c: char)
    ensures
        final(s)@ == old(s)@.push(c),
;

/// The filename's extension: what follows the last dot, or the whole
/// name when it has none (so `archive` reads as extension `archive`,
/// and `archive.` as an empty one).
pub open spec fn ext_of(f: Seq<char>) -> Seq<char>
    decreases f.len(),
{
    if f.len() == 0 {
        Seq::empty()
    } else if f.last() == '.' {
        Seq::empty()
    } else {
        ext_of(f.drop_last()).push(f.last())
    }
}

/// The content type served for a lowercased extension.
pub open spec fn content_type_of(e: Seq<char>) -> Seq<char> {
    if e == "jpg"@ || e == "jpeg"@ {
        "image/jpeg"@
    } else if e == "png"@ {
        "image/png"@
    } else if e == "gif"@ {
        "image/gif"@
    } else if e == "webp"@ {
        "image/webp"@
    } else if e == "svg"@ {
        "image/svg+xml"@
    } else if e == "mp4"@ {
        "video/mp4"@
    } else if e == "webm"@ {
        "video/webm"@
    } else if e == "pdf"@ {
        "application/pdf"@
    } else if e == "txt"@ {
        "text/plain"@
    } else {
        "application/octet-stream"@
    }
}

/// When every character from `at + 1` on is no dot and `at` holds one,
/// the extension is exactly the part after `at`.
proof fn lemma_ext_after_dot(f: Seq<char>, at: int)
    requires
        0 <= at < f.len(),
        f[at] == '.',
        forall|j: int| at < j < f.len() ==> f[j] != '.',
    ensures
        ext_of(f) == f.subrange(at + 1, f.len() as int),
    decreases f.len(),
{
    if at == f.len() - 1 {
        assert(ext_of(f) =~= f.subrange(at + 1, f.len() as int));
    } else {
        lemma_ext_after_dot(f.drop_last(), at);
        assert(ext_of(f.drop_last()).push(f.last()) =~= f.subrange(at + 1, f.len() as int));
    }
}

/// A name without any dot is its own extension.
proof fn lemma_ext_no_dot(f: Seq<char>)
    requires
        forall|j: int| 0 <= j < f.len() ==> f[j] != '.',
    ensures
        ext_of(f) == f,
    decreases f.len(),
{
    if f.len() == 0 {
        assert(ext_of(f) =~= f);
    } else {
        lemma_ext_no_dot(f.drop_last());
        assert(ext_of(f.drop_last()).push(f.last()) =~= f);
    }
}

/// The content type a file of this name is served with: decided by
/// its lowercased extension, defaulting to a plain octet stream.
#[verifier::loop_isolation(false)]
pub fn get_content_type(filename: &str) -> (r: String)
    ensures
        r@ == content_type_of(lower_of(ext_of(filename@))),
{
    let len = filename.unicode_len();
    let mut dot: Option<usize> = None;
    let mut i: usize = 0;
    while i < len
        invariant
            i <= len,
            match dot {
                Some(d) => d < i && filename@[d as int] == '.' && (forall|j: int|
                    d < j < i ==> filename@[j] != '.'),
                None => forall|j: int| 0 <= j < i ==> filename@[j] != '.',
            },
        decreases len - i,
    {
        if filename.get_char(i) == '.' {
            dot = Some(i);
        }
        i += 1;
    }
    let ext: &str = match dot {
        Some(d) => {
            proof {
                lemma_ext_after_dot(filename@, d as int);
            }
            filename.substring_char(d + 1, len)
        },
        None => {
            proof {
                lemma_ext_no_dot(filename@);
            }
            filename
        },
    };
    proof {
        assert(filename@.subrange(0, len as int) =~= filename@);
    }
    let low = ext.to_lowercase();
    if low == String::from_str("jpg") || low == String::from_str("jpeg") {
        String::from_str("image/jpeg")
    } else if low == String::from_str("png") {
        String::from_str("image/png")
    } else if low == String::from_str("gif") {
        String::from_str("image/gif")
    } else if low == String::from_str("webp") {
        String::from_str("image/webp")
    } else if low == String::from_str("svg") {
        String::from_str("image/svg+xml")
    } else if low == String::from_str("mp4") {
        String::from_str("video/mp4")
    } else if low == String::from_str("webm") {
        String::from_str("video/webm")
    } else if low == String::from_str("pdf") {
        String::from_str("application/pdf")
    } else if low == String::from_str("txt") {
        String::from_str("text/plain")
    } else {
        String::from_str("application/octet-stream")
    }
}

/// Whether a character may stay in a filename: alphanumeric, dot,
/// dash or underscore.
pub open spec fn keep_char(c: char) -> bool {
    is_alphanum(c) || c == '.' || c == '-' || c == '_'
}

/// A filename with every disallowed character replaced by an
/// underscore, position by position.
pub open spec fn sanitized(f: Seq<char>) -> Seq<char> {
    Seq::new(f.len(), |i: int| if keep_char(f[i]) {
        f[i]
    } else {
        '_'
    })
}

/// Replaces every character that is not alphanumeric, a dot, a dash
/// or an underscore with an underscore; the length never changes.
#[verifier::loop_isolation(false)]
pub fn sanitize_filename(filename: &str) -> (r: String)
    ensures
        r@ == sanitized(filename@),
{
    let len = filename.unicode_len();
    let mut out = String::new();
    let mut i: usize = 0;
    while i < len
        invariant
            i <= len,
            out@ =~= sanitized(filename@).subrange(0, i as int),
        decreases len - i,
    {
        let c = filename.get_char(i);
        if c.is_alphanumeric() || c == '.' || c == '-' || c == '_' {
            out.push(c);
        } else {
            out.push('_');
        }
        proof {
            assert(out@ =~= sanitized(filename@).subrange(0, i + 1));
        }
        i += 1;
    }
    proof {
        assert(sanitized(filename@).subrange(0, len as int) =~= sanitized(filename@));
    }
    out
}

} // verus!
