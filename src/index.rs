//! The file-system index: the files and directories found below a root,
//! each collection kept sorted case-insensitively by name, with ranked
//! substring search and staleness tracking.
//!
//! Reading directories is left to the caller. A scan is driven in steps:
//! `begin_scan`, then `next_directory` / `record_entries` until no directory
//! is left, then `complete_scan`. The index decides what is kept and which
//! directories are listed next.

use vstd::prelude::*;
use crate::sorting::{
    insert_by, lemma_insert_by_at, lemma_insert_by_sorted, lemma_sort_by_sorted, sort_by,
    sorted_by, strict_order,
};
use crate::text::{
    chars_equal, chars_of, is_prefix, lemma_lex_irreflexive, lemma_lex_transitive, lex_less, lex_lt,
    lower_of, lowercase, views,
};

verus! {

/// How many directory levels below the root are listed: the root's listing
/// is depth 0.
pub const MAX_SCAN_DEPTH: usize = 3;

/// Metadata of a listed entry.
#[derive(Clone, Copy, Debug, PartialEq, Eq, Structural)]
pub struct EntryMeta {
    pub is_dir: bool,
    pub size: u64,
    /// Modification time in milliseconds since the Unix epoch.
    pub modified: Option<u64>,
}

/// One entry of a directory listing as read from disk: its path, its name
/// when that is valid Unicode, and its metadata when readable.
#[derive(Debug)]
pub struct ListedEntry {
    pub path: String,
    pub name: Option<String>,
    pub meta: Option<EntryMeta>,
}

pub struct ListedView {
    pub path: Seq<char>,
    pub name: Option<Seq<char>>,
    pub meta: Option<EntryMeta>,
}

impl View for ListedEntry {
    type V = ListedView;

    open spec fn view(&self) -> ListedView {
        ListedView {
            path: self.path@,
            name: match self.name {
                Some(n) => Some(n@),
                None => None,
            },
            meta: self.meta,
        }
    }
}

/// An indexed file or directory.
#[derive(Debug)]
pub struct FileInfo {
    pub path: String,
    pub name: String,
    /// The directory whose listing held this entry.
    pub parent: String,
    /// The depth of that listing below the root (0: the root itself).
    pub depth: usize,
    pub is_directory: bool,
    pub size: u64,
    /// Modification time in milliseconds since the Unix epoch.
    pub modified: Option<u64>,
}

pub struct FileInfoView {
    pub path: Seq<char>,
    pub name: Seq<char>,
    pub parent: Seq<char>,
    pub depth: nat,
    pub is_directory: bool,
    pub size: u64,
    pub modified: Option<u64>,
}

impl View for FileInfo {
    type V = FileInfoView;

    open spec fn view(&self) -> FileInfoView {
        FileInfoView {
            path: self.path@,
            name: self.name@,
            parent: self.parent@,
            depth: self.depth as nat,
            is_directory: self.is_directory,
            size: self.size,
            modified: self.modified,
        }
    }
}

pub open spec fn infos(s: Seq<FileInfo>) -> Seq<FileInfoView> {
    s.map_values(|e: FileInfo| e@)
}

pub open spec fn info_refs(s: Seq<&FileInfo>) -> Seq<FileInfoView> {
    s.map_values(|e: &FileInfo| e@)
}

// ---------------------------------------------------------------- ordering

/// Case-insensitive order by name.
pub open spec fn name_lt() -> spec_fn(FileInfoView, FileInfoView) -> bool {
    |a: FileInfoView, b: FileInfoView| lex_lt(lower_of(a.name), lower_of(b.name))
}

pub proof fn lemma_name_lt_strict()
    ensures
        strict_order(name_lt()),
{
    assert forall|a: FileInfoView| !(#[trigger] name_lt()(a, a)) by {
        lemma_lex_irreflexive(lower_of(a.name));
    }
    assert forall|a: FileInfoView, b: FileInfoView, c: FileInfoView|
        #[trigger] name_lt()(a, b) && #[trigger] name_lt()(b, c) implies name_lt()(a, c) by {
        lemma_lex_transitive(lower_of(a.name), lower_of(b.name), lower_of(c.name));
    }
}

// ------------------------------------------------------------------ search

/// `n` occurs in `h` as a contiguous run.
pub open spec fn is_substring(n: Seq<char>, h: Seq<char>) -> bool {
    exists|i: int| 0 <= i <= h.len() - n.len() && #[trigger] h.subrange(i, i + n.len()) == n
}

/// An entry matches a query when its name or its path contains the query,
/// both compared in lower case.
pub open spec fn matches_query(e: FileInfoView, q: Seq<char>) -> bool {
    is_substring(lower_of(q), lower_of(e.name)) || is_substring(lower_of(q), lower_of(e.path))
}

/// 0 for a case-insensitive exact name match, 1 for a case-insensitive name
/// prefix match, 2 otherwise.
pub open spec fn tier(e: FileInfoView, q: Seq<char>) -> nat {
    if lower_of(e.name) == lower_of(q) {
        0
    } else if lower_of(q).is_prefix_of(lower_of(e.name)) {
        1
    } else {
        2
    }
}

/// Order among entries of one tier and name length: by name compared in
/// lower case, then by the exact name, then by path.
pub open spec fn name_key_lt(a: FileInfoView, b: FileInfoView) -> bool {
    ||| lex_lt(lower_of(a.name), lower_of(b.name))
    ||| lower_of(a.name) == lower_of(b.name) && lex_lt(a.name, b.name)
    ||| a.name == b.name && lex_lt(a.path, b.path)
}

/// Relevance order: by tier, then shorter names first, then by name in
/// lower case (then exact name, then path).
pub open spec fn ranks_before(a: FileInfoView, b: FileInfoView, q: Seq<char>) -> bool {
    ||| tier(a, q) < tier(b, q)
    ||| tier(a, q) == tier(b, q) && a.name.len() < b.name.len()
    ||| tier(a, q) == tier(b, q) && a.name.len() == b.name.len() && name_key_lt(a, b)
}

proof fn lemma_name_key_strict(a: FileInfoView, b: FileInfoView, c: FileInfoView)
    ensures
        !name_key_lt(a, a),
        name_key_lt(a, b) && name_key_lt(b, c) ==> name_key_lt(a, c),
{
    lemma_lex_irreflexive(lower_of(a.name));
    lemma_lex_irreflexive(a.name);
    lemma_lex_irreflexive(a.path);
    if name_key_lt(a, b) && name_key_lt(b, c) {
        let (la, lb, lc) = (lower_of(a.name), lower_of(b.name), lower_of(c.name));
        if lex_lt(la, lb) && lex_lt(lb, lc) {
            lemma_lex_transitive(la, lb, lc);
        }
        if la == lb && lb == lc && lex_lt(a.name, b.name) && lex_lt(b.name, c.name) {
            lemma_lex_transitive(a.name, b.name, c.name);
        }
        if a.name == b.name && b.name == c.name && lex_lt(a.path, b.path) && lex_lt(b.path, c.path) {
            lemma_lex_transitive(a.path, b.path, c.path);
        }
    }
}

pub open spec fn rank_lt(q: Seq<char>) -> spec_fn(FileInfoView, FileInfoView) -> bool {
    |a: FileInfoView, b: FileInfoView| ranks_before(a, b, q)
}

pub proof fn lemma_rank_lt_strict(q: Seq<char>)
    ensures
        strict_order(rank_lt(q)),
{
    assert forall|a: FileInfoView| !(#[trigger] rank_lt(q)(a, a)) by {
        lemma_name_key_strict(a, a, a);
    }
    assert forall|a: FileInfoView, b: FileInfoView, c: FileInfoView|
        #[trigger] rank_lt(q)(a, b) && #[trigger] rank_lt(q)(b, c) implies rank_lt(q)(a, c) by {
        lemma_name_key_strict(a, b, c);
    }
}

/// The entries that match the query, in their order.
pub open spec fn matching(s: Seq<FileInfoView>, q: Seq<char>) -> Seq<FileInfoView>
    decreases s.len(),
{
    if s.len() == 0 {
        s
    } else if matches_query(s.last(), q) {
        matching(s.drop_last(), q).push(s.last())
    } else {
        matching(s.drop_last(), q)
    }
}

/// The matches, most relevant first.
pub open spec fn ranked_matches(s: Seq<FileInfoView>, q: Seq<char>) -> Seq<FileInfoView> {
    sort_by(matching(s, q), rank_lt(q))
}

/// At most `limit` leading elements, when a limit is given.
pub open spec fn limited<A>(s: Seq<A>, limit: Option<usize>) -> Seq<A> {
    match limit {
        Some(n) => if n < s.len() { s.take(n as int) } else { s },
        None => s,
    }
}

/// Whether `n` occurs in `h`.
pub fn contains_chars(h: &Vec<char>, n: &Vec<char>) -> (r: bool)
    ensures
        r == is_substring(n@, h@),
{
    if n.len() > h.len() {
        return false;
    }
    if n.len() == 0 {
        assert(h@.subrange(0int, 0int + n@.len()) =~= n@);
        return true;
    }
    let hl = h.len();
    let last = hl - n.len();
    let mut i: usize = 0;
    while i <= last
        invariant
            last == h@.len() - n@.len(),
            0 < n@.len() <= h@.len(),
            hl == h@.len(),
            i <= last + 1,
            forall|k: int| 0 <= k < i ==> #[trigger] h@.subrange(k, k + n@.len()) != n@,
        decreases last + 1 - i,
    {
        let mut j: usize = 0;
        let mut same = true;
        while j < n.len() && same
            invariant
                i <= last,
                last == h@.len() - n@.len(),
                0 < n@.len() <= h@.len(),
                hl == h@.len(),
                j <= n@.len(),
                same ==> h@.subrange(i as int, i + j) == n@.subrange(0, j as int),
                !same ==> h@.subrange(i as int, i + n@.len()) != n@,
            decreases n@.len() - j, if same { 1int } else { 0int },
        {
            if h[i + j] != n[j] {
                same = false;
                assert(h@.subrange(i as int, i + n@.len())[j as int] != n@[j as int]);
            } else {
                assert(h@.subrange(i as int, i + j + 1) =~= h@.subrange(i as int, i + j).push(h@[i + j]));
                assert(n@.subrange(0, j + 1) =~= n@.subrange(0, j as int).push(n@[j as int]));
                j += 1;
            }
        }
        if same {
            assert(n@.subrange(0, j as int) =~= n@);
            return true;
        }
        i += 1;
    }
    proof {
        assert forall|k: int| 0 <= k <= h@.len() - n@.len() implies #[trigger] h@.subrange(k, k + n@.len()) != n@ by {}
    }
    false
}

/// The case-insensitive tier of an entry; `ql` is the lower-cased query.
fn entry_tier(e: &FileInfo, ql: &Vec<char>, Ghost(q): Ghost<Seq<char>>) -> (r: u8)
    requires
        ql@ == lower_of(q),
    ensures
        r as nat == tier(e@, q),
{
    let nl = chars_of(lowercase(e.name.as_str()).as_str());
    if chars_equal(&nl, ql) {
        0
    } else if is_prefix(ql, &nl) {
        1
    } else {
        2
    }
}

fn entry_matches(e: &FileInfo, ql: &Vec<char>, Ghost(q): Ghost<Seq<char>>) -> (r: bool)
    requires
        ql@ == lower_of(q),
    ensures
        r == matches_query(e@, q),
{
    let nl = chars_of(lowercase(e.name.as_str()).as_str());
    if contains_chars(&nl, ql) {
        return true;
    }
    let pl = chars_of(lowercase(e.path.as_str()).as_str());
    contains_chars(&pl, ql)
}

fn rank_before(a: &FileInfo, b: &FileInfo, ql: &Vec<char>, Ghost(q): Ghost<Seq<char>>) -> (r: bool)
    requires
        ql@ == lower_of(q),
    ensures
        r == ranks_before(a@, b@, q),
{
    let ta = entry_tier(a, ql, Ghost(q));
    let tb = entry_tier(b, ql, Ghost(q));
    if ta != tb {
        return ta < tb;
    }
    let an = chars_of(a.name.as_str());
    let bn = chars_of(b.name.as_str());
    if an.len() != bn.len() {
        return an.len() < bn.len();
    }
    let al = chars_of(lowercase(a.name.as_str()).as_str());
    let bl = chars_of(lowercase(b.name.as_str()).as_str());
    if lex_less(&al, &bl) {
        return true;
    }
    if !chars_equal(&al, &bl) {
        return false;
    }
    if lex_less(&an, &bn) {
        return true;
    }
    if !chars_equal(&an, &bn) {
        return false;
    }
    let ap = chars_of(a.path.as_str());
    let bp = chars_of(b.path.as_str());
    lex_less(&ap, &bp)
}

/// The entries of `entries` that match `query`, ranked by relevance and cut
/// to `limit`.
pub fn search_in<'a>(entries: &'a Vec<FileInfo>, query: &str, limit: Option<usize>) -> (r: Vec<&'a FileInfo>)
    ensures
        info_refs(r@) == limited(ranked_matches(infos(entries@), query@), limit),
{
    let ghost q = query@;
    let ql = chars_of(lowercase(query).as_str());
    let ghost es = infos(entries@);
    let mut acc: Vec<&FileInfo> = Vec::new();
    let mut i: usize = 0;
    proof {
        assert(es.subrange(0, 0) =~= Seq::<FileInfoView>::empty());
        assert(info_refs(acc@) =~= Seq::<FileInfoView>::empty());
    }
    while i < entries.len()
        invariant
            i <= entries@.len(),
            es == infos(entries@),
            ql@ == lower_of(q),
            info_refs(acc@) == ranked_matches(es.subrange(0, i as int), q),
        decreases entries@.len() - i,
    {
        let e = &entries[i];
        let ghost before = info_refs(acc@);
        proof {
            assert(es.subrange(0, i + 1).drop_last() =~= es.subrange(0, i as int));
            assert(es.subrange(0, i + 1).last() == e@);
        }
        if entry_matches(e, &ql, Ghost(q)) {
            let mut p: usize = 0;
            let mut stop = false;
            while p < acc.len() && !stop
                invariant
                    p <= acc@.len(),
                    before == info_refs(acc@),
                    ql@ == lower_of(q),
                    forall|k: int| 0 <= k < p ==> !rank_lt(q)(e@, #[trigger] before[k]),
                    stop ==> p < acc@.len() && rank_lt(q)(e@, before[p as int]),
                decreases acc@.len() - p, if stop { 0int } else { 1int },
            {
                if rank_before(e, acc[p], &ql, Ghost(q)) {
                    stop = true;
                } else {
                    p += 1;
                }
            }
            acc.insert(p, e);
            proof {
                lemma_insert_by_at(e@, before, rank_lt(q), p as int);
                assert(info_refs(acc@) =~= before.insert(p as int, e@));
                let m = matching(es.subrange(0, i as int), q);
                assert(matching(es.subrange(0, i + 1), q) == m.push(e@));
                assert(m.push(e@).drop_last() =~= m);
            }
        } else {
            assert(matching(es.subrange(0, i + 1), q) == matching(es.subrange(0, i as int), q));
        }
        i += 1;
    }
    assert(es.subrange(0, i as int) =~= es);
    match limit {
        Some(n) => {
            if n < acc.len() {
                acc.truncate(n);
                assert(info_refs(acc@) =~= ranked_matches(es, q).take(n as int));
            }
        },
        None => {},
    }
    acc
}

/// The entries listed from directory `dir`, in index order.
pub open spec fn in_directory(s: Seq<FileInfoView>, dir: Seq<char>) -> Seq<FileInfoView>
    decreases s.len(),
{
    if s.len() == 0 {
        s
    } else if s.last().parent == dir {
        in_directory(s.drop_last(), dir).push(s.last())
    } else {
        in_directory(s.drop_last(), dir)
    }
}

/// The entries of `entries` listed from `dir`.
pub fn entries_in<'a>(entries: &'a Vec<FileInfo>, dir: &str) -> (r: Vec<&'a FileInfo>)
    ensures
        info_refs(r@) == in_directory(infos(entries@), dir@),
{
    let d = chars_of(dir);
    let ghost es = infos(entries@);
    let mut acc: Vec<&FileInfo> = Vec::new();
    let mut i: usize = 0;
    proof {
        assert(es.subrange(0, 0) =~= Seq::<FileInfoView>::empty());
        assert(info_refs(acc@) =~= Seq::<FileInfoView>::empty());
    }
    while i < entries.len()
        invariant
            i <= entries@.len(),
            es == infos(entries@),
            d@ == dir@,
            info_refs(acc@) == in_directory(es.subrange(0, i as int), dir@),
        decreases entries@.len() - i,
    {
        let e = &entries[i];
        proof {
            assert(es.subrange(0, i + 1).drop_last() =~= es.subrange(0, i as int));
            assert(es.subrange(0, i + 1).last() == e@);
        }
        let pc = chars_of(e.parent.as_str());
        let ghost before = info_refs(acc@);
        if chars_equal(&pc, &d) {
            acc.push(e);
            assert(info_refs(acc@) =~= before.push(e@));
        }
        i += 1;
    }
    assert(es.subrange(0, i as int) =~= es);
    acc
}

// ------------------------------------------------------------------- index

#[derive(Debug)]
struct PendingDir {
    path: String,
    depth: usize,
}

#[derive(Debug)]
pub struct FileIndex {
    files: Vec<FileInfo>,
    directories: Vec<FileInfo>,
    last_scan: Option<u64>,
    root_path: String,
    excluded: Vec<String>,
    pending: Vec<PendingDir>,
    current: Option<PendingDir>,
}

/// The index as a mathematical value. `pending` holds the directories still
/// to be listed in this scan, with their depth; `current` the one whose
/// listing is expected next.
pub struct IndexView {
    pub files: Seq<FileInfoView>,
    pub directories: Seq<FileInfoView>,
    pub last_scan: Option<u64>,
    pub root: Seq<char>,
    pub excluded: Seq<Seq<char>>,
    pub pending: Seq<(Seq<char>, nat)>,
    pub current: Option<(Seq<char>, nat)>,
}

spec fn pending_view(p: PendingDir) -> (Seq<char>, nat) {
    (p.path@, p.depth as nat)
}

impl View for FileIndex {
    type V = IndexView;

    closed spec fn view(&self) -> IndexView {
        IndexView {
            files: infos(self.files@),
            directories: infos(self.directories@),
            last_scan: self.last_scan,
            root: self.root_path@,
            excluded: views(self.excluded@),
            pending: self.pending@.map_values(|p: PendingDir| pending_view(p)),
            current: match self.current {
                Some(c) => Some(pending_view(c)),
                None => None,
            },
        }
    }
}

/// The build, dependency and version-control directories that a new index
/// skips.
pub open spec fn default_exclusions() -> Seq<Seq<char>> {
    seq!["node_modules"@, "target"@, ".git"@, "dist"@, "build"@, "__pycache__"@]
}

/// A name that the index keeps: not hidden (dot-prefixed) and not excluded.
pub open spec fn admitted(name: Seq<char>, excluded: Seq<Seq<char>>) -> bool {
    &&& name.len() > 0
    &&& name[0] != '.'
    &&& !excluded.contains(name)
}

/// `dirs` holds a directory at `path` found in a listing at `depth`.
pub open spec fn has_dir(dirs: Seq<FileInfoView>, path: Seq<char>, depth: nat) -> bool {
    exists|k: int| 0 <= k < dirs.len() && (#[trigger] dirs[k]).path == path && dirs[k].depth == depth
}

/// A directory may be listed at `depth`: the root at depth 0, and below it
/// only indexed directories, within the depth bound.
pub open spec fn listable(v: IndexView, path: Seq<char>, depth: nat) -> bool {
    &&& depth <= MAX_SCAN_DEPTH
    &&& depth == 0 ==> path == v.root
    &&& depth > 0 ==> has_dir(v.directories, path, (depth - 1) as nat)
}

/// An entry that the index may hold: admitted, and listed from a listable
/// directory.
pub open spec fn placed(v: IndexView, e: FileInfoView) -> bool {
    admitted(e.name, v.excluded) && listable(v, e.parent, e.depth)
}

impl IndexView {
    pub open spec fn wf(self) -> bool {
        &&& sorted_by(self.files, name_lt())
        &&& sorted_by(self.directories, name_lt())
        &&& forall|i: int| 0 <= i < self.files.len() ==> placed(self, #[trigger] self.files[i])
            && !self.files[i].is_directory
        &&& forall|i: int| 0 <= i < self.directories.len() ==> placed(self, #[trigger] self.directories[i])
            && self.directories[i].is_directory
        &&& forall|i: int| 0 <= i < self.pending.len() ==> listable(self, (#[trigger] self.pending[i]).0, self.pending[i].1)
        &&& self.current matches Some(c) ==> listable(self, c.0, c.1)
    }
}

/// What recording one listed entry of the current directory does.
pub open spec fn record_one(v: IndexView, e: ListedView) -> IndexView {
    match v.current {
        None => v,
        Some(cur) => match (e.name, e.meta) {
            (Some(n), Some(m)) => if admitted(n, v.excluded) {
                let info = FileInfoView {
                    path: e.path,
                    name: n,
                    parent: cur.0,
                    depth: cur.1,
                    is_directory: m.is_dir,
                    size: m.size,
                    modified: m.modified,
                };
                if m.is_dir {
                    IndexView {
                        directories: insert_by(info, v.directories, name_lt()),
                        pending: if cur.1 < MAX_SCAN_DEPTH { v.pending.push((e.path, cur.1 + 1)) } else { v.pending },
                        ..v
                    }
                } else {
                    IndexView { files: insert_by(info, v.files, name_lt()), ..v }
                }
            } else {
                v
            },
            _ => v,
        },
    }
}

/// Recording a listing entry by entry.
pub open spec fn record_all(v: IndexView, es: Seq<ListedView>) -> IndexView
    decreases es.len(),
{
    if es.len() == 0 {
        v
    } else {
        record_one(record_all(v, es.drop_last()), es.last())
    }
}

pub open spec fn listed_views(s: Seq<ListedEntry>) -> Seq<ListedView> {
    s.map_values(|e: ListedEntry| e@)
}

/// Whether an index last scanned at `last` is stale at time `now`: never
/// scanned, or longer than `max_age` ago. A clock that reads earlier than
/// the scan counts as the longest possible time elapsed.
pub open spec fn refresh_due(last: Option<u64>, now: u64, max_age: u64) -> bool {
    match last {
        None => true,
        Some(t) => if now < t { max_age < u64::MAX } else { now - t > max_age },
    }
}

proof fn lemma_has_dir_insert(dirs: Seq<FileInfoView>, x: FileInfoView, path: Seq<char>, depth: nat)
    requires
        has_dir(dirs, path, depth),
    ensures
        has_dir(insert_by(x, dirs, name_lt()), path, depth),
{
    let p = crate::sorting::lemma_insert_by_position(x, dirs, name_lt());
    let k = choose|k: int| 0 <= k < dirs.len() && (#[trigger] dirs[k]).path == path && dirs[k].depth == depth;
    let n = dirs.insert(p, x);
    if k < p {
        assert(n[k] == dirs[k]);
    } else {
        assert(n[k + 1] == dirs[k]);
    }
}

proof fn lemma_listable_grows(v: IndexView, n: IndexView, x: FileInfoView)
    requires
        n.root == v.root,
        n.directories == insert_by(x, v.directories, name_lt()),
    ensures
        forall|path: Seq<char>, depth: nat| listable(v, path, depth) ==> #[trigger] listable(n, path, depth),
{
    assert forall|path: Seq<char>, depth: nat| listable(v, path, depth) implies #[trigger] listable(n, path, depth) by {
        if depth > 0 {
            lemma_has_dir_insert(v.directories, x, path, (depth - 1) as nat);
        }
    }
}

proof fn lemma_record_dir_wf(v: IndexView, n: IndexView, info: FileInfoView, new_pending: Seq<(Seq<char>, nat)>)
    requires
        v.wf(),
        info.is_directory,
        placed(v, info),
        new_pending.len() >= v.pending.len(),
        forall|i: int| 0 <= i < v.pending.len() ==> new_pending[i] == v.pending[i],
        forall|i: int| v.pending.len() <= i < new_pending.len() ==> (#[trigger] new_pending[i]).0 == info.path
            && new_pending[i].1 == info.depth + 1 && new_pending[i].1 <= MAX_SCAN_DEPTH,
        n == (IndexView { directories: insert_by(info, v.directories, name_lt()), pending: new_pending, ..v }),
    ensures
        n.wf(),
{
    lemma_name_lt_strict();
    lemma_insert_by_sorted(info, v.directories, name_lt());
    let p = crate::sorting::lemma_insert_by_position(info, v.directories, name_lt());
    lemma_listable_grows(v, n, info);
    assert forall|i: int| 0 <= i < n.directories.len() implies placed(n, #[trigger] n.directories[i])
        && n.directories[i].is_directory by {
        if i < p {
            assert(n.directories[i] == v.directories[i]);
        } else if i > p {
            assert(n.directories[i] == v.directories[i - 1]);
        } else {
            assert(n.directories[i] == info);
        }
    }
    assert forall|i: int| 0 <= i < n.files.len() implies placed(n, #[trigger] n.files[i])
        && !n.files[i].is_directory by {
        assert(n.files[i] == v.files[i]);
    }
    assert(n.directories[p] == info);
    assert(has_dir(n.directories, info.path, info.depth));
    assert forall|i: int| 0 <= i < n.pending.len() implies listable(n, (#[trigger] n.pending[i]).0, n.pending[i].1) by {
        if i < v.pending.len() {
            assert(n.pending[i] == v.pending[i]);
            assert(listable(v, v.pending[i].0, v.pending[i].1));
        }
    }
    if let Some(c) = n.current {
        assert(listable(v, c.0, c.1));
    }
}

proof fn lemma_record_file_wf(v: IndexView, n: IndexView, info: FileInfoView)
    requires
        v.wf(),
        !info.is_directory,
        placed(v, info),
        n == (IndexView { files: insert_by(info, v.files, name_lt()), ..v }),
    ensures
        n.wf(),
{
    lemma_name_lt_strict();
    lemma_insert_by_sorted(info, v.files, name_lt());
    let p = crate::sorting::lemma_insert_by_position(info, v.files, name_lt());
    assert forall|i: int| 0 <= i < n.files.len() implies placed(n, #[trigger] n.files[i])
        && !n.files[i].is_directory by {
        if i < p {
            assert(n.files[i] == v.files[i]);
        } else if i > p {
            assert(n.files[i] == v.files[i - 1]);
        } else {
            assert(n.files[i] == info);
        }
    }
}

proof fn lemma_record_one_wf(v: IndexView, e: ListedView)
    requires
        v.wf(),
    ensures
        record_one(v, e).wf(),
        record_one(v, e).last_scan == v.last_scan,
        record_one(v, e).root == v.root,
        record_one(v, e).excluded == v.excluded,
        record_one(v, e).current == v.current,
{
    let n = record_one(v, e);
    if let Some(cur) = v.current {
        if let (Some(nm), Some(m)) = (e.name, e.meta) {
            if admitted(nm, v.excluded) {
                let info = FileInfoView {
                    path: e.path,
                    name: nm,
                    parent: cur.0,
                    depth: cur.1,
                    is_directory: m.is_dir,
                    size: m.size,
                    modified: m.modified,
                };
                assert(placed(v, info));
                if m.is_dir {
                    lemma_record_dir_wf(v, n, info, n.pending);
                } else {
                    lemma_record_file_wf(v, n, info);
                }
            }
        }
    }
}

/// Relies on `SystemTime::now`: the wall-clock time in milliseconds since
/// the Unix epoch (0 for a clock set before it).
#[verifier::external_body]
fn now_millis() -> (r: u64) {
    match std::time::SystemTime::now().duration_since(std::time::UNIX_EPOCH) {
        Ok(d) => d.as_millis() as u64,
        Err(_) => 0,
    }
}

/// Inserts `x` after every entry whose name does not come after its own,
/// case-insensitively.
fn insert_by_name(v: &mut Vec<FileInfo>, x: FileInfo)
    ensures
        infos(final(v)@) == insert_by(x@, infos(old(v)@), name_lt()),
{
    let ghost before = infos(v@);
    let xl = chars_of(lowercase(x.name.as_str()).as_str());
    let mut p: usize = 0;
    let mut stop = false;
    while p < v.len() && !stop
        invariant
            p <= v@.len(),
            before == infos(v@),
            xl@ == lower_of(x@.name),
            forall|k: int| 0 <= k < p ==> !name_lt()(x@, #[trigger] before[k]),
            stop ==> p < v@.len() && name_lt()(x@, before[p as int]),
        decreases v@.len() - p, if stop { 0int } else { 1int },
    {
        let vl = chars_of(lowercase(v[p].name.as_str()).as_str());
        if lex_less(&xl, &vl) {
            stop = true;
        } else {
            p += 1;
        }
    }
    let ghost xv = x@;
    v.insert(p, x);
    proof {
        lemma_insert_by_at(xv, before, name_lt(), p as int);
        assert(infos(v@) =~= before.insert(p as int, xv));
    }
}

impl FileIndex {
    /// An empty, never-scanned index of `root_path` that skips the names in
    /// `excluded` besides hidden ones.
    pub fn with_exclusions(root_path: String, excluded: Vec<String>) -> (r: Self)
        ensures
            r@.wf(),
            r@.files.len() == 0,
            r@.directories.len() == 0,
            r@.last_scan is None,
            r@.root == root_path@,
            r@.excluded == views(excluded@),
            r@.pending.len() == 0,
            r@.current is None,
    {
        let r = FileIndex {
            files: Vec::new(),
            directories: Vec::new(),
            last_scan: None,
            root_path,
            excluded,
            pending: Vec::new(),
            current: None,
        };
        assert(r@.files =~= Seq::<FileInfoView>::empty());
        assert(r@.directories =~= Seq::<FileInfoView>::empty());
        assert(r@.pending =~= Seq::<(Seq<char>, nat)>::empty());
        r
    }

    /// An empty, never-scanned index of `root_path` that skips hidden names
    /// and the usual build and dependency directories.
    pub fn new(root_path: String) -> (r: Self)
        ensures
            r@.wf(),
            r@.files.len() == 0,
            r@.directories.len() == 0,
            r@.last_scan is None,
            r@.root == root_path@,
            r@.excluded == default_exclusions(),
            r@.pending.len() == 0,
            r@.current is None,
    {
        let mut excluded: Vec<String> = Vec::new();
        excluded.push(String::from_str("node_modules"));
        excluded.push(String::from_str("target"));
        excluded.push(String::from_str(".git"));
        excluded.push(String::from_str("dist"));
        excluded.push(String::from_str("build"));
        excluded.push(String::from_str("__pycache__"));
        assert(views(excluded@) =~= default_exclusions());
        Self::with_exclusions(root_path, excluded)
    }

    pub fn root_path(&self) -> (r: &String)
        ensures
            r@ == self@.root,
    {
        &self.root_path
    }

    pub fn files(&self) -> (r: &Vec<FileInfo>)
        ensures
            infos(r@) == self@.files,
    {
        &self.files
    }

    pub fn directories(&self) -> (r: &Vec<FileInfo>)
        ensures
            infos(r@) == self@.directories,
    {
        &self.directories
    }

    pub fn get_file_count(&self) -> (r: usize)
        ensures
            r == self@.files.len(),
    {
        self.files.len()
    }

    pub fn get_directory_count(&self) -> (r: usize)
        ensures
            r == self@.directories.len(),
    {
        self.directories.len()
    }

    /// The numbers of indexed files and directories.
    pub fn get_index_stats(&self) -> (r: (usize, usize))
        ensures
            r.0 == self@.files.len(),
            r.1 == self@.directories.len(),
    {
        (self.files.len(), self.directories.len())
    }

    fn is_admitted(&self, name: &String) -> (r: bool)
        ensures
            r == admitted(name@, self@.excluded),
    {
        let nc = chars_of(name.as_str());
        if nc.len() == 0 || nc[0] == '.' {
            return false;
        }
        let ghost ex = views(self.excluded@);
        let mut i: usize = 0;
        while i < self.excluded.len()
            invariant
                i <= self.excluded@.len(),
                ex == views(self.excluded@),
                forall|k: int| 0 <= k < i ==> #[trigger] ex[k] != name@,
            decreases self.excluded@.len() - i,
        {
            if self.excluded[i] == *name {
                assert(ex[i as int] == name@);
                return false;
            }
            i += 1;
        }
        true
    }

    /// Starts a full rescan: both collections are emptied and the root is
    /// the only directory waiting to be listed.
    pub fn begin_scan(&mut self)
        requires
            old(self)@.wf(),
        ensures
            final(self)@.wf(),
            final(self)@ == (IndexView {
                files: Seq::empty(),
                directories: Seq::empty(),
                pending: seq![(old(self)@.root, 0nat)],
                current: None,
                ..old(self)@
            }),
    {
        self.files.clear();
        self.directories.clear();
        self.pending = Vec::new();
        self.pending.push(PendingDir { path: self.root_path.clone(), depth: 0 });
        self.current = None;
        assert(self@.files =~= Seq::<FileInfoView>::empty());
        assert(self@.directories =~= Seq::<FileInfoView>::empty());
        assert(self@.pending =~= seq![(old(self)@.root, 0nat)]);
    }

    /// The next directory to list, which becomes the current one; `None`
    /// when the scan has no directory left.
    pub fn next_directory(&mut self) -> (r: Option<String>)
        requires
            old(self)@.wf(),
        ensures
            final(self)@.wf(),
            old(self)@.pending.len() > 0 ==> final(self)@ == (IndexView {
                pending: old(self)@.pending.drop_last(),
                current: Some(old(self)@.pending.last()),
                ..old(self)@
            }) && r is Some && r->0@ == old(self)@.pending.last().0,
            old(self)@.pending.len() == 0 ==> final(self)@ == (IndexView { current: None, ..old(self)@ })
                && r is None,
    {
        match self.pending.pop() {
            Some(d) => {
                let path = d.path.clone();
                self.current = Some(d);
                assert(self@.pending =~= old(self)@.pending.drop_last());
                Some(path)
            },
            None => {
                self.current = None;
                None
            },
        }
    }

    /// Records the listing of the current directory: each entry with a
    /// Unicode name, readable metadata and an admitted name is indexed, and
    /// each such directory is queued for listing while within the depth
    /// bound. Without a current directory nothing changes.
    pub fn record_entries(&mut self, entries: Vec<ListedEntry>)
        requires
            old(self)@.wf(),
        ensures
            final(self)@.wf(),
            final(self)@ == record_all(old(self)@, listed_views(entries@)),
            final(self)@.last_scan == old(self)@.last_scan,
    {
        let ghost es = listed_views(entries@);
        let cur: Option<(String, usize)> = match &self.current {
            Some(c) => Some((c.path.clone(), c.depth)),
            None => None,
        };
        let mut i: usize = 0;
        proof {
            assert(es.subrange(0, 0) =~= Seq::<ListedView>::empty());
        }
        while i < entries.len()
            invariant
                i <= entries@.len(),
                es == listed_views(entries@),
                self@.wf(),
                self@ == record_all(old(self)@, es.subrange(0, i as int)),
                self@.current == old(self)@.current,
                self@.last_scan == old(self)@.last_scan,
                cur is None <==> self@.current is None,
                cur matches Some(c) ==> self@.current == Some((c.0@, c.1 as nat)),
            decreases entries@.len() - i,
        {
            let ghost v = self@;
            let e = &entries[i];
            proof {
                assert(es.subrange(0, i + 1).drop_last() =~= es.subrange(0, i as int));
                assert(es.subrange(0, i + 1).last() == e@);
                lemma_record_one_wf(v, e@);
            }
            match &cur {
                Some(c) => {
                    match &e.name {
                        Some(n) => {
                            match &e.meta {
                                Some(m) => {
                                    if self.is_admitted(n) {
                                        let info = FileInfo {
                                            path: e.path.clone(),
                                            name: n.clone(),
                                            parent: c.0.clone(),
                                            depth: c.1,
                                            is_directory: m.is_dir,
                                            size: m.size,
                                            modified: m.modified,
                                        };
                                        if m.is_dir {
                                            insert_by_name(&mut self.directories, info);
                                            if c.1 < MAX_SCAN_DEPTH {
                                                self.pending.push(PendingDir { path: e.path.clone(), depth: c.1 + 1 });
                                                assert(self@.pending =~= v.pending.push((e@.path, (c.1 + 1) as nat)));
                                            }
                                        } else {
                                            insert_by_name(&mut self.files, info);
                                        }
                                        assert(self@ == record_one(v, e@));
                                    }
                                },
                                None => {},
                            }
                        },
                        None => {},
                    }
                },
                None => {},
            }
            i += 1;
        }
        assert(es.subrange(0, i as int) =~= es);
    }

    /// Ends the scan and stamps it with the current time.
    pub fn complete_scan(&mut self)
        requires
            old(self)@.wf(),
        ensures
            final(self)@.wf(),
            final(self)@.last_scan is Some,
            final(self)@.files == old(self)@.files,
            final(self)@.directories == old(self)@.directories,
            final(self)@.root == old(self)@.root,
            final(self)@.excluded == old(self)@.excluded,
            final(self)@.pending.len() == 0,
            final(self)@.current is None,
    {
        self.pending = Vec::new();
        self.current = None;
        self.last_scan = Some(now_millis());
        assert(self@.pending =~= Seq::<(Seq<char>, nat)>::empty());
    }

    /// Whether the index is stale at time `now` (milliseconds since the
    /// Unix epoch) for the given maximum age.
    pub fn needs_refresh_at(&self, now: u64, max_age: u64) -> (r: bool)
        ensures
            r == refresh_due(self@.last_scan, now, max_age),
    {
        match self.last_scan {
            None => true,
            Some(t) => if now < t { max_age < u64::MAX } else { now - t > max_age },
        }
    }

    /// Whether the index is stale now for the given maximum age in
    /// milliseconds: what `needs_refresh_at` gives for the clock's reading.
    /// An index that was never scanned always is; a scanned one never is for
    /// the largest maximum age.
    pub fn needs_refresh(&self, max_age: u64) -> (r: bool)
        ensures
            self@.last_scan is None ==> r,
            exists|now: u64| r == refresh_due(self@.last_scan, now, max_age),
    {
        let now = now_millis();
        self.needs_refresh_at(now, max_age)
    }

    /// Moves the index to a new root: both collections are emptied and the
    /// index counts as never scanned until the next scan completes.
    pub fn update_root_path(&mut self, new_root: String)
        requires
            old(self)@.wf(),
        ensures
            final(self)@.wf(),
            final(self)@ == (IndexView {
                files: Seq::empty(),
                directories: Seq::empty(),
                last_scan: None,
                root: new_root@,
                pending: Seq::empty(),
                current: None,
                ..old(self)@
            }),
    {
        self.root_path = new_root;
        self.files.clear();
        self.directories.clear();
        self.pending = Vec::new();
        self.current = None;
        self.last_scan = None;
        assert(self@.files =~= Seq::<FileInfoView>::empty());
        assert(self@.directories =~= Seq::<FileInfoView>::empty());
        assert(self@.pending =~= Seq::<(Seq<char>, nat)>::empty());
    }

    /// The files whose name or path contains `query` case-insensitively,
    /// most relevant first, at most `limit` of them.
    pub fn search_files(&self, query: &str, limit: Option<usize>) -> (r: Vec<&FileInfo>)
        ensures
            info_refs(r@) == limited(ranked_matches(self@.files, query@), limit),
    {
        search_in(&self.files, query, limit)
    }

    /// The directories whose name or path contains `query`
    /// case-insensitively, most relevant first, at most `limit` of them.
    pub fn search_directories(&self, query: &str, limit: Option<usize>) -> (r: Vec<&FileInfo>)
        ensures
            info_refs(r@) == limited(ranked_matches(self@.directories, query@), limit),
    {
        search_in(&self.directories, query, limit)
    }

    /// The files listed directly from `dir_path`.
    pub fn get_files_in_directory(&self, dir_path: &str) -> (r: Vec<&FileInfo>)
        ensures
            info_refs(r@) == in_directory(self@.files, dir_path@),
    {
        entries_in(&self.files, dir_path)
    }

    /// The directories listed directly from `dir_path`.
    pub fn get_directories_in_directory(&self, dir_path: &str) -> (r: Vec<&FileInfo>)
        ensures
            info_refs(r@) == in_directory(self@.directories, dir_path@),
    {
        entries_in(&self.directories, dir_path)
    }
}

// -------------------------------------------------------------------- laws

/// What a scan leaves in a well-formed index: every entry has an admitted
/// name (not hidden, not excluded), was listed at most `MAX_SCAN_DEPTH`
/// levels below the root, and was listed either from the root itself or from
/// an indexed, admitted directory one level up. So no entry lies under an
/// excluded or hidden directory, nor deeper than the bound.
pub proof fn lemma_scan_bounds(v: IndexView)
    requires
        v.wf(),
    ensures
        forall|e: FileInfoView| #![trigger v.files.contains(e)] #![trigger v.directories.contains(e)]
            v.files.contains(e) || v.directories.contains(e) ==> {
                &&& admitted(e.name, v.excluded)
                &&& e.depth <= MAX_SCAN_DEPTH
                &&& e.depth == 0 ==> e.parent == v.root
                &&& e.depth > 0 ==> exists|k: int| 0 <= k < v.directories.len()
                    && (#[trigger] v.directories[k]).path == e.parent
                    && v.directories[k].depth + 1 == e.depth
                    && admitted(v.directories[k].name, v.excluded)
            },
{
    assert forall|e: FileInfoView| v.files.contains(e) || v.directories.contains(e) implies {
        &&& admitted(e.name, v.excluded)
        &&& e.depth <= MAX_SCAN_DEPTH
        &&& e.depth == 0 ==> e.parent == v.root
        &&& e.depth > 0 ==> exists|k: int| 0 <= k < v.directories.len()
            && (#[trigger] v.directories[k]).path == e.parent
            && v.directories[k].depth + 1 == e.depth
            && admitted(v.directories[k].name, v.excluded)
    } by {
        if v.files.contains(e) {
            let i = choose|i: int| 0 <= i < v.files.len() && v.files[i] == e;
            assert(placed(v, v.files[i]));
        } else {
            let i = choose|i: int| 0 <= i < v.directories.len() && v.directories[i] == e;
            assert(placed(v, v.directories[i]));
        }
        if e.depth > 0 {
            let k = choose|k: int| 0 <= k < v.directories.len() && (#[trigger] v.directories[k]).path == e.parent
                && v.directories[k].depth == (e.depth - 1) as nat;
            assert(placed(v, v.directories[k]));
        }
    }
}

/// Search ranks by tier: an exact case-insensitive name match comes before
/// any other match, and a prefix match before a match that is only a
/// substring, whatever the entries, query and limit. Without a limit the
/// result holds every match exactly once.
pub proof fn lemma_search_tiers(entries: Seq<FileInfoView>, q: Seq<char>, limit: Option<usize>)
    ensures
        ({
            let r = limited(ranked_matches(entries, q), limit);
            forall|i: int, j: int| 0 <= i < r.len() && 0 <= j < r.len()
                && tier(#[trigger] r[i], q) < tier(#[trigger] r[j], q) ==> i < j
        }),
        ranked_matches(entries, q).to_multiset() == matching(entries, q).to_multiset(),
{
    lemma_rank_lt_strict(q);
    lemma_sort_by_sorted(matching(entries, q), rank_lt(q));
    let s = ranked_matches(entries, q);
    let r = limited(s, limit);
    assert forall|i: int, j: int| 0 <= i < r.len() && 0 <= j < r.len()
        && tier(#[trigger] r[i], q) < tier(#[trigger] r[j], q) implies i < j by {
        assert(r[i] == s[i] && r[j] == s[j]);
        if j < i {
            assert(!rank_lt(q)(s[i], s[j]));
        }
    }
}

/// Recording a listing never changes when the index was last scanned.
pub proof fn lemma_record_keeps_stamp(v: IndexView, es: Seq<ListedView>)
    ensures
        record_all(v, es).last_scan == v.last_scan,
    decreases es.len(),
{
    if es.len() > 0 {
        lemma_record_keeps_stamp(v, es.drop_last());
    }
}

/// An index that has not completed a scan since its root changed is due for
/// a refresh at any time and for any maximum age. `update_root_path` clears
/// the stamp; `begin_scan`, `next_directory` and `record_entries` keep it;
/// only `complete_scan` sets it.
pub proof fn lemma_stale_until_scanned(v: IndexView, now: u64, max_age: u64)
    requires
        v.last_scan is None,
    ensures
        refresh_due(v.last_scan, now, max_age),
{
}

} // verus!
