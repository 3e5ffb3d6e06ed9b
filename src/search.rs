//! Web search engines, and the ordering of system-wide file search results.

use vstd::prelude::*;
use crate::text::{chars_of, lower_of, lowercase, views};

verus! {

#[derive(Debug, Clone, Copy, PartialEq, Eq, Structural)]
pub enum SearchEngine {
    Google,
    DuckDuckGo,
    ChatGPT,
    Perplexity,
}

pub open spec fn engine_name(e: SearchEngine) -> Seq<char> {
    match e {
        SearchEngine::Google => "Google"@,
        SearchEngine::DuckDuckGo => "DuckDuckGo"@,
        SearchEngine::ChatGPT => "ChatGPT"@,
        SearchEngine::Perplexity => "Perplexity"@,
    }
}

impl SearchEngine {
    /// The engine's display name.
    pub fn to_string(&self) -> (r: String)
        ensures
            r@ == engine_name(*self),
    {
        match self {
            SearchEngine::Google => String::from_str("Google"),
            SearchEngine::DuckDuckGo => String::from_str("DuckDuckGo"),
            SearchEngine::ChatGPT => String::from_str("ChatGPT"),
            SearchEngine::Perplexity => String::from_str("Perplexity"),
        }
    }
}

pub open spec fn is_separator(c: char) -> bool {
    c == '/' || c == '\\'
}

/// The part of `p` after its last separator.
pub open spec fn last_segment(p: Seq<char>) -> Seq<char>
    decreases p.len(),
{
    if p.len() == 0 {
        p
    } else if is_separator(p.last()) {
        Seq::empty()
    } else {
        last_segment(p.drop_last()).push(p.last())
    }
}

/// A segment without a leading drive designator (`X:`).
pub open spec fn without_drive(s: Seq<char>) -> Seq<char> {
    if s.len() >= 2 && s[1] == ':' { s.skip(2) } else { s }
}

/// `p` ends in a plain name: its last segment, past any drive designator,
/// is non-empty and neither `.` nor `..`, and does not end in `:`; and `p`
/// does not start with two separators (a UNC, verbatim or device prefix).
pub open spec fn ends_in_name(p: Seq<char>) -> bool {
    let s = last_segment(p);
    let t = without_drive(s);
    &&& !(p.len() >= 2 && is_separator(p[0]) && is_separator(p[1]))
    &&& t.len() > 0
    &&& t != seq!['.']
    &&& t != seq!['.', '.']
    &&& s.last() != ':'
}

/// Whether `p` ends in a plain name.
pub fn has_plain_name(p: &str) -> (r: bool)
    ensures
        r == ends_in_name(p@),
{
    let c = chars_of(p);
    let mut seg: Vec<char> = Vec::new();
    let mut i: usize = 0;
    while i < c.len()
        invariant
            i <= c@.len(),
            seg@ == last_segment(c@.subrange(0, i as int)),
        decreases c@.len() - i,
    {
        assert(c@.subrange(0, i + 1).drop_last() =~= c@.subrange(0, i as int));
        if c[i] == '/' || c[i] == '\\' {
            seg = Vec::new();
            assert(seg@ =~= Seq::<char>::empty());
        } else {
            seg.push(c[i]);
        }
        i += 1;
    }
    assert(c@.subrange(0, i as int) =~= p@);
    if c.len() >= 2 && (c[0] == '/' || c[0] == '\\') && (c[1] == '/' || c[1] == '\\') {
        return false;
    }
    let n = seg.len();
    if n == 0 || seg[n - 1] == ':' {
        return false;
    }
    let start: usize = if n >= 2 && seg[1] == ':' { 2 } else { 0 };
    let ghost t = without_drive(seg@);
    assert(t =~= seg@.skip(start as int));
    let m = n - start;
    if m == 0 {
        return false;
    }
    if m == 1 && seg[start] == '.' {
        assert(t =~= seq!['.']);
        return false;
    }
    if m == 2 && seg[start] == '.' && seg[start + 1] == '.' {
        assert(t =~= seq!['.', '.']);
        return false;
    }
    assert(t != seq!['.']) by {
        if m == 1 { assert(t[0] != '.'); }
    }
    assert(t != seq!['.', '.']) by {
        if m == 2 { assert(t[0] != '.' || t[1] != '.'); }
    }
    true
}

/// The order in which `rust_search::similarity_sort` leaves `paths` for
/// `query`.
pub uninterp spec fn similarity_order(paths: Seq<Seq<char>>, query: Seq<char>) -> Seq<Seq<char>>;

/// Relies on `rust_search::similarity_sort`: a sort of the paths, most
/// similar file name to the query first, whose outcome depends on the paths
/// and the query alone. It unwraps each path's file name, so every path must
/// end in a plain name.
#[verifier::external_body]
fn similarity_sort(paths: &mut Vec<String>, query: &str)
    requires
        forall|i: int| 0 <= i < old(paths)@.len() ==> ends_in_name(#[trigger] old(paths)@[i]@),
    ensures
        views(final(paths)@) == similarity_order(views(old(paths)@), query@),
        views(final(paths)@).to_multiset() == views(old(paths)@).to_multiset(),
{
    rust_search::similarity_sort(paths, query)
}

/// Orders the paths found by a system-wide search by how similar their file
/// names are to `query`, most similar first.
pub fn order_by_similarity(found: Vec<String>, query: &str) -> (r: Vec<String>)
    requires
        forall|i: int| 0 <= i < found@.len() ==> ends_in_name(#[trigger] found@[i]@),
    ensures
        views(r@) == similarity_order(views(found@), query@),
        views(r@).to_multiset() == views(found@).to_multiset(),
{
    let mut paths = found;
    similarity_sort(&mut paths, query);
    paths
}

/// The extensions of files that are run rather than opened.
pub open spec fn executable_extension_spec(lower: Seq<char>) -> bool {
    ||| lower == "exe"@
    ||| lower == "bat"@
    ||| lower == "cmd"@
    ||| lower == "com"@
    ||| lower == "scr"@
    ||| lower == "msi"@
}

/// Whether a file with extension `ext` is run rather than opened; the
/// extension is compared in lower case.
pub fn executable_extension(ext: &str) -> (r: bool)
    ensures
        r == executable_extension_spec(lower_of(ext@)),
{
    let l = lowercase(ext);
    let s = l.as_str();
    let e1 = String::from_str("exe");
    let e2 = String::from_str("bat");
    let e3 = String::from_str("cmd");
    let e4 = String::from_str("com");
    let e5 = String::from_str("scr");
    let e6 = String::from_str("msi");
    l == e1 || l == e2 || l == e3 || l == e4 || l == e5 || l == e6
}

/// Relies on `Path::extension` and `OsStr::to_string_lossy`: the extension
/// of the path's file name, if it has one.
#[verifier::external_body]
fn extension_of(path: &str) -> (r: Option<String>) {
    std::path::Path::new(path).extension().map(|e| e.to_string_lossy().to_string())
}

/// Whether the file at `path` is run rather than opened: it is a file
/// (`is_file`, as read from disk) with an executable extension.
pub fn is_executable(path: &str, is_file: bool) -> (r: bool)
    ensures
        r ==> is_file,
{
    if !is_file {
        return false;
    }
    match extension_of(path) {
        Some(ext) => executable_extension(ext.as_str()),
        None => false,
    }
}

} // verus!
