use vstd::prelude::*;

verus! {

/// Where an asset's bytes come from, after resolution.
pub enum SourceHandle {
    /// A path on disk, already joined to the project root.
    Local(String),
    /// An absolute URL, fetched once at registration.
    Remote(String),
}

/// Why a source could not be reached. Reaching it is the caller's work:
/// the library only names the outcome.
#[derive(Clone, Copy, Debug, PartialEq, Eq, Structural)]
pub enum ResolveError {
    /// The local path does not exist.
    NotFound,
    /// The remote fetch failed or answered with a non-success status.
    Network,
}

/// The view of a source handle: whether it is remote, and its text.
pub open spec fn source_view(s: SourceHandle) -> (bool, Seq<char>) {
    match s {
        SourceHandle::Local(p) => (false, p@),
        SourceHandle::Remote(u) => (true, u@),
    }
}

pub open spec fn is_ascii_letter(c: char) -> bool {
    ('a' <= c && c <= 'z') || ('A' <= c && c <= 'Z')
}

/// A character that may follow the first one of a URL scheme.
pub open spec fn is_scheme_char(c: char) -> bool {
    is_ascii_letter(c) || ('0' <= c && c <= '9') || c == '+' || c == '-' || c == '.'
}

/// `s` starts with a URL scheme and its colon (`https:`, `data:`): a letter,
/// then letters, digits, `+`, `-` or `.`, then `:`.
pub open spec fn has_scheme(s: Seq<char>) -> bool {
    exists|i: int|
        #![trigger s[i]]
        1 <= i < s.len() && s[i] == ':' && is_ascii_letter(s[0]) && (forall|j: int|
            1 <= j < i ==> is_scheme_char(#[trigger] s[j]))
}

/// Whether `raw` is an absolute URL, that is, starts with a scheme.
pub fn is_absolute_url(raw: &str) -> (r: bool)
    ensures
        r == has_scheme(raw@),
{
    let n = raw.unicode_len();
    if n == 0 {
        return false;
    }
    let c0 = raw.get_char(0);
    if !(('a' <= c0 && c0 <= 'z') || ('A' <= c0 && c0 <= 'Z')) {
        return false;
    }
    let mut i: usize = 1;
    while i < n
        invariant
            n == raw@.len(),
            1 <= i <= n,
            is_ascii_letter(raw@[0]),
            forall|j: int| 1 <= j < i ==> is_scheme_char(#[trigger] raw@[j]),
        decreases n - i,
    {
        let c = raw.get_char(i);
        if c == ':' {
            assert(raw@[i as int] == ':');
            return true;
        }
        if !(('a' <= c && c <= 'z') || ('A' <= c && c <= 'Z') || ('0' <= c && c <= '9') || c == '+'
            || c == '-' || c == '.') {
            assert(!is_scheme_char(raw@[i as int]));
            assert(!has_scheme(raw@)) by {
                if has_scheme(raw@) {
                    let k = choose|k: int|
                        #![trigger raw@[k]]
                        1 <= k < raw@.len() && raw@[k] == ':' && is_ascii_letter(raw@[0]) && (
                        forall|j: int| 1 <= j < k ==> is_scheme_char(#[trigger] raw@[j]));
                    if k > i {
                        assert(is_scheme_char(raw@[i as int]));
                    }
                }
            }
            return false;
        }
        i = i + 1;
    }
    assert(!has_scheme(raw@)) by {
        if has_scheme(raw@) {
            let k = choose|k: int|
                #![trigger raw@[k]]
                1 <= k < raw@.len() && raw@[k] == ':' && is_ascii_letter(raw@[0]) && (forall|j: int|
                    1 <= j < k ==> is_scheme_char(#[trigger] raw@[j]));
            assert(is_scheme_char(raw@[k]));
        }
    }
    false
}

/// What a raw source string resolves to: a remote handle for an absolute URL;
/// otherwise a local path, which is joined to the project root unless it is
/// already absolute. The directory of the declaring source file plays no part.
pub open spec fn resolved(root: Seq<char>, raw: Seq<char>) -> (bool, Seq<char>) {
    if has_scheme(raw) {
        (true, raw)
    } else if raw.len() > 0 && raw[0] == '/' {
        (false, raw)
    } else {
        (false, root + "/"@ + raw)
    }
}

/// Resolves a raw source string against the project root.
pub fn resolve(root: &str, raw: &str) -> (r: SourceHandle)
    ensures
        source_view(r) == resolved(root@, raw@),
{
    if is_absolute_url(raw) {
        SourceHandle::Remote(String::from_str(raw))
    } else if raw.unicode_len() > 0 && raw.get_char(0) == '/' {
        SourceHandle::Local(String::from_str(raw))
    } else {
        let mut p = String::from_str(root);
        p.append("/");
        p.append(raw);
        SourceHandle::Local(p)
    }
}

} // verus!
