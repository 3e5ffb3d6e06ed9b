//! Completion of the word being typed against the names indexed in the
//! current directory.

use vstd::prelude::*;
use crate::state::FileSystemState;
use crate::text::{
    chars_equal, chars_of, is_prefix, white_space, is_white_space, lemma_lex_asymmetric, lemma_lex_irreflexive,
    lemma_lex_total, lemma_lex_transitive, lex_less, lex_lt, string_of, strictly_sorted, views,
};

verus! {

/// Walks back from `i` over non-whitespace characters: the start of the word
/// that ends at `i`.
pub open spec fn word_back(b: Seq<char>, i: int) -> int
    decreases i,
{
    if 0 < i <= b.len() && !is_white_space(b[i - 1]) {
        word_back(b, i - 1)
    } else {
        i
    }
}

/// Walks back from `i` over whitespace characters.
pub open spec fn space_back(b: Seq<char>, i: int) -> int
    decreases i,
{
    if 0 < i <= b.len() && is_white_space(b[i - 1]) {
        space_back(b, i - 1)
    } else {
        i
    }
}

/// The active token: the whitespace-delimited word that ends at the cursor
/// (empty right after whitespace).
pub open spec fn active_token(b: Seq<char>, cursor: int) -> Seq<char> {
    b.subrange(word_back(b, cursor), cursor)
}

/// Whether `s` is offered while `buf` is edited with the cursor at `cursor`.
pub open spec fn offered(names: Seq<Seq<char>>, buf: Seq<char>, cursor: int, s: Seq<char>) -> bool {
    buf.len() > 0 && names.contains(s) && active_token(buf, cursor).is_prefix_of(s)
}

/// `r` lists, in strictly increasing order, exactly the names offered for
/// the buffer and cursor.
pub open spec fn is_completion_list(
    r: Seq<Seq<char>>,
    names: Seq<Seq<char>>,
    buf: Seq<char>,
    cursor: int,
) -> bool {
    &&& strictly_sorted(r)
    &&& forall|s: Seq<char>| r.contains(s) <==> offered(names, buf, cursor, s)
}

pub proof fn lemma_word_back_bounds(b: Seq<char>, i: int)
    requires
        0 <= i <= b.len(),
    ensures
        0 <= word_back(b, i) <= i,
        forall|k: int| word_back(b, i) <= k < i ==> !is_white_space(#[trigger] b[k]),
        word_back(b, i) > 0 ==> is_white_space(b[word_back(b, i) - 1]),
    decreases i,
{
    if 0 < i && !is_white_space(b[i - 1]) {
        lemma_word_back_bounds(b, i - 1);
    }
}

pub proof fn lemma_space_back_bounds(b: Seq<char>, i: int)
    requires
        0 <= i <= b.len(),
    ensures
        0 <= space_back(b, i) <= i,
    decreases i,
{
    if 0 < i && is_white_space(b[i - 1]) {
        lemma_space_back_bounds(b, i - 1);
    }
}

/// The start of the word that ends at `i`.
pub fn word_start(b: &Vec<char>, i: usize) -> (r: usize)
    requires
        i <= b@.len(),
    ensures
        r == word_back(b@, i as int),
        r <= i,
{
    let mut j = i;
    while j > 0 && !white_space(b[j - 1])
        invariant
            j <= i <= b@.len(),
            word_back(b@, j as int) == word_back(b@, i as int),
        decreases j,
    {
        j -= 1;
    }
    j
}

/// The position reached from `i` by walking back over whitespace.
pub fn spaces_start(b: &Vec<char>, i: usize) -> (r: usize)
    requires
        i <= b@.len(),
    ensures
        r == space_back(b@, i as int),
        r <= i,
{
    let mut j = i;
    while j > 0 && white_space(b[j - 1])
        invariant
            j <= i <= b@.len(),
            space_back(b@, j as int) == space_back(b@, i as int),
        decreases j,
    {
        j -= 1;
    }
    j
}

proof fn lemma_insert_keeps_sorted(s: Seq<Seq<char>>, p: int, x: Seq<char>)
    requires
        strictly_sorted(s),
        0 <= p <= s.len(),
        forall|k: int| 0 <= k < p ==> lex_lt(#[trigger] s[k], x),
        p < s.len() ==> lex_lt(x, s[p]),
    ensures
        strictly_sorted(s.insert(p, x)),
{
    let t = s.insert(p, x);
    assert forall|i: int, j: int| 0 <= i < j < t.len() implies lex_lt(#[trigger] t[i], #[trigger] t[j]) by {
        if j < p {
            assert(t[i] == s[i] && t[j] == s[j]);
        } else if j == p {
            assert(t[i] == s[i]);
        } else if i == p {
            assert(t[j] == s[j - 1]);
            if j - 1 > p {
                lemma_lex_transitive(x, s[p], s[j - 1]);
            }
        } else if i < p {
            assert(t[i] == s[i] && t[j] == s[j - 1]);
        } else {
            assert(t[i] == s[i - 1] && t[j] == s[j - 1]);
        }
    }
}

proof fn lemma_insert_contains(t: Seq<Seq<char>>, p: int, x: Seq<char>)
    requires
        0 <= p <= t.len(),
    ensures
        forall|s: Seq<char>| t.insert(p, x).contains(s) <==> (t.contains(s) || s == x),
{
    let n = t.insert(p, x);
    assert forall|s: Seq<char>| n.contains(s) <==> (t.contains(s) || s == x) by {
        if t.contains(s) {
            let k = choose|k: int| 0 <= k < t.len() && t[k] == s;
            if k < p {
                assert(n[k] == s);
            } else {
                assert(n[k + 1] == s);
            }
        }
        if s == x {
            assert(n[p] == s);
        }
        if n.contains(s) {
            let k = choose|k: int| 0 <= k < n.len() && n[k] == s;
            if k < p {
                assert(t[k] == s);
            } else if k > p {
                assert(t[k - 1] == s);
            }
        }
    }
}

proof fn lemma_prefix_contains(t: Seq<Seq<char>>, i: int)
    requires
        0 <= i < t.len(),
    ensures
        forall|s: Seq<char>|
            t.subrange(0, i + 1).contains(s) <==> (t.subrange(0, i).contains(s) || s == t[i]),
{
    assert(t.subrange(0, i + 1) =~= t.subrange(0, i).push(t[i]));
    assert(t.subrange(0, i).push(t[i]) =~= t.subrange(0, i).insert(i, t[i]));
    lemma_insert_contains(t.subrange(0, i), i, t[i]);
}

/// Adds `x` to a strictly sorted list of strings unless it is already there.
pub fn insert_sorted_unique(acc: &mut Vec<String>, x: String)
    requires
        strictly_sorted(views(old(acc)@)),
    ensures
        strictly_sorted(views(final(acc)@)),
        forall|s: Seq<char>|
            views(final(acc)@).contains(s) <==> (views(old(acc)@).contains(s) || s == x@),
{
    let xc = chars_of(x.as_str());
    let mut p: usize = 0;
    let mut stop = false;
    while p < acc.len() && !stop
        invariant
            p <= acc@.len(),
            forall|k: int| 0 <= k < p ==> lex_lt(#[trigger] views(acc@)[k], x@),
            stop ==> p < acc@.len() && !lex_lt(views(acc@)[p as int], x@),
            xc@ == x@,
        decreases acc@.len() - p, if stop { 0int } else { 1int },
    {
        let cur = chars_of(acc[p].as_str());
        if lex_less(&cur, &xc) {
            p += 1;
        } else {
            stop = true;
        }
    }
    let ghost old_v = views(acc@);
    if p < acc.len() {
        let cur = chars_of(acc[p].as_str());
        if chars_equal(&cur, &xc) {
            proof {
                assert(cur@ =~= xc@);
            }
            assert(old_v.contains(x@) ) by {
                assert(old_v[p as int] == x@);
            }
            return;
        }
        proof {
            lemma_lex_total(old_v[p as int], x@);
        }
    }
    acc.insert(p, x);
    proof {
        assert(views(acc@) =~= old_v.insert(p as int, x@));
        lemma_insert_keeps_sorted(old_v, p as int, x@);
        lemma_insert_contains(old_v, p as int, x@);
    }
}

/// All candidates for the active token at `cursor`: the indexed names that
/// start with it, sorted and without repeats. An empty buffer offers nothing.
pub fn complete_all(names: &Vec<String>, buf: &Vec<char>, cursor: usize) -> (r: Vec<String>)
    requires
        cursor <= buf@.len(),
    ensures
        is_completion_list(views(r@), views(names@), buf@, cursor as int),
{
    let mut acc: Vec<String> = Vec::new();
    if buf.len() == 0 {
        proof {
            assert(views(acc@) =~= Seq::<Seq<char>>::empty());
        }
        return acc;
    }
    let start = word_start(buf, cursor);
    proof {
        lemma_word_back_bounds(buf@, cursor as int);
    }
    let mut token: Vec<char> = Vec::new();
    let mut k: usize = start;
    while k < cursor
        invariant
            start <= k <= cursor <= buf@.len(),
            token@ == buf@.subrange(start as int, k as int),
        decreases cursor - k,
    {
        token.push(buf[k]);
        k += 1;
    }
    assert(token@ == active_token(buf@, cursor as int));
    proof {
        assert(views(acc@) =~= Seq::<Seq<char>>::empty());
    }
    let mut i: usize = 0;
    while i < names.len()
        invariant
            i <= names@.len(),
            buf@.len() > 0,
            token@ == active_token(buf@, cursor as int),
            strictly_sorted(views(acc@)),
            forall|s: Seq<char>|
                #[trigger] views(acc@).contains(s) <==> (views(names@).subrange(0, i as int).contains(s)
                    && token@.is_prefix_of(s)),
        decreases names@.len() - i,
    {
        let name_chars = chars_of(names[i].as_str());
        let ghost before = views(acc@);
        let ghost nv = views(names@);
        if is_prefix(&token, &name_chars) {
            insert_sorted_unique(&mut acc, names[i].clone());
        }
        proof {
            lemma_prefix_contains(nv, i as int);
            assert(nv[i as int] == name_chars@);
            assert forall|s: Seq<char>|
                views(acc@).contains(s) <==> (nv.subrange(0, i + 1).contains(s)
                    && token@.is_prefix_of(s)) by {
                assert(before.contains(s) <==> (nv.subrange(0, i as int).contains(s)
                    && token@.is_prefix_of(s)));
            }
        }
        i += 1;
    }
    assert(views(names@).subrange(0, i as int) =~= views(names@));
    acc
}

/// How many candidates a completion offers at most.
pub const MAX_CANDIDATES: usize = 20;

/// `r` lists, in strictly increasing order, the first `MAX_CANDIDATES` of the
/// names offered for the buffer and cursor (all of them when there are no
/// more).
pub open spec fn is_capped_list(
    r: Seq<Seq<char>>,
    names: Seq<Seq<char>>,
    buf: Seq<char>,
    cursor: int,
) -> bool {
    &&& strictly_sorted(r)
    &&& r.len() <= MAX_CANDIDATES
    &&& forall|s: Seq<char>| r.contains(s) ==> offered(names, buf, cursor, s)
    &&& forall|s: Seq<char>| offered(names, buf, cursor, s) && !r.contains(s) ==> {
        &&& r.len() == MAX_CANDIDATES
        &&& forall|i: int| 0 <= i < r.len() ==> lex_lt(#[trigger] r[i], s)
    }
}

/// The candidates for the active token at `cursor`, at most
/// `MAX_CANDIDATES` of them: the least in order.
pub fn complete_at(names: &Vec<String>, buf: &Vec<char>, cursor: usize) -> (r: Vec<String>)
    requires
        cursor <= buf@.len(),
    ensures
        is_capped_list(views(r@), views(names@), buf@, cursor as int),
{
    let mut all = complete_all(names, buf, cursor);
    let ghost full = views(all@);
    if all.len() > MAX_CANDIDATES {
        all.truncate(MAX_CANDIDATES);
    }
    proof {
        let r = views(all@);
        assert(r =~= if full.len() > MAX_CANDIDATES { full.take(MAX_CANDIDATES as int) } else { full });
        assert forall|s: Seq<char>| r.contains(s) implies offered(views(names@), buf@, cursor as int, s) by {
            let k = choose|k: int| 0 <= k < r.len() && r[k] == s;
            assert(full[k] == s);
            assert(full.contains(s));
        }
        assert forall|s: Seq<char>| offered(views(names@), buf@, cursor as int, s) && !r.contains(s) implies {
            &&& r.len() == MAX_CANDIDATES
            &&& forall|i: int| 0 <= i < r.len() ==> lex_lt(#[trigger] r[i], s)
        } by {
            assert(full.contains(s));
            let j = choose|j: int| 0 <= j < full.len() && full[j] == s;
            if j < r.len() {
                assert(r[j] == s);
            }
            assert forall|i: int| 0 <= i < r.len() implies lex_lt(#[trigger] r[i], s) by {
                assert(r[i] == full[i]);
            }
        }
    }
    all
}

/// The candidates for the last word of `input`, as typed with the cursor at
/// its end.
pub fn completion_engine(file_system_state: &FileSystemState, input: &str) -> (r: Vec<String>)
    ensures
        is_capped_list(views(r@), file_system_state.index_spec(), input@, input@.len() as int),
{
    let buf = chars_of(input);
    complete_at(file_system_state.get_all_indexed(), &buf, buf.len())
}

/// Whether exactly one distinct indexed name starts with `input`.
pub open spec fn unique_match(names: Seq<Seq<char>>, input: Seq<char>, s: Seq<char>) -> bool {
    &&& names.contains(s)
    &&& input.is_prefix_of(s)
    &&& forall|t: Seq<char>| names.contains(t) && input.is_prefix_of(t) ==> t == s
}

/// The position of a name in `names` that is the only distinct name starting
/// with `typed`, if there is one.
pub fn find_unique_match(names: &Vec<String>, typed: &Vec<char>) -> (r: Option<usize>)
    ensures
        r is Some <==> exists|s: Seq<char>| unique_match(views(names@), typed@, s),
        r is Some ==> r->0 < names@.len() && unique_match(views(names@), typed@, names@[r->0 as int]@),
{
    let ghost nv = views(names@);
    let mut found: Option<usize> = None;
    let mut found_chars: Vec<char> = Vec::new();
    let mut ambiguous = false;
    let mut i: usize = 0;
    while i < names.len()
        invariant
            i <= names@.len(),
            nv == views(names@),
            found is None ==> !ambiguous,
            found is None ==> forall|j: int| 0 <= j < i ==> !typed@.is_prefix_of(#[trigger] nv[j]),
            found is Some ==> found->0 < i && found_chars@ == nv[found->0 as int]
                && typed@.is_prefix_of(found_chars@),
            found is Some && !ambiguous ==> forall|j: int|
                0 <= j < i && typed@.is_prefix_of(#[trigger] nv[j]) ==> nv[j] == found_chars@,
            ambiguous ==> exists|j: int|
                0 <= j < i && typed@.is_prefix_of(#[trigger] nv[j]) && nv[j] != found_chars@,
        decreases names@.len() - i,
    {
        let name_chars = chars_of(names[i].as_str());
        if is_prefix(typed, &name_chars) {
            match found {
                None => {
                    found = Some(i);
                    found_chars = name_chars;
                },
                Some(_) => {
                    if !chars_equal(&name_chars, &found_chars) {
                        ambiguous = true;
                        assert(typed@.is_prefix_of(nv[i as int]) && nv[i as int] != found_chars@);
                    }
                },
            }
        }
        i += 1;
    }
    match found {
        Some(j) => {
            if ambiguous {
                proof {
                    let k = choose|k: int|
                        0 <= k < i && typed@.is_prefix_of(#[trigger] nv[k]) && nv[k] != found_chars@;
                    assert forall|s: Seq<char>| !unique_match(nv, typed@, s) by {
                        if unique_match(nv, typed@, s) {
                            assert(nv.contains(nv[k]));
                            assert(nv.contains(nv[j as int]));
                        }
                    }
                }
                None
            } else {
                proof {
                    assert(nv.contains(nv[j as int]));
                    assert(nv[j as int] == found_chars@);
                    assert forall|t: Seq<char>| nv.contains(t) && typed@.is_prefix_of(t) implies t == found_chars@ by {
                        let k = choose|k: int| 0 <= k < nv.len() && nv[k] == t;
                    }
                    assert(unique_match(nv, typed@, found_chars@));
                }
                Some(j)
            }
        },
        None => {
            proof {
                assert forall|s: Seq<char>| !unique_match(nv, typed@, s) by {
                    if unique_match(nv, typed@, s) {
                        let k = choose|k: int| 0 <= k < nv.len() && nv[k] == s;
                    }
                }
            }
            None
        },
    }
}

/// Replaces `input` by the one indexed name that starts with it, when there
/// is exactly one such name; returns whether it did.
pub fn auto_complete_single(file_system_state: &FileSystemState, input: &mut String) -> (r: bool)
    ensures
        r <==> exists|s: Seq<char>| unique_match(file_system_state.index_spec(), old(input)@, s),
        r ==> unique_match(file_system_state.index_spec(), old(input)@, final(input)@),
        !r ==> final(input)@ == old(input)@,
{
    let names = file_system_state.get_all_indexed();
    let typed = chars_of(input.as_str());
    match find_unique_match(names, &typed) {
        Some(j) => {
            *input = names[j].clone();
            true
        },
        None => false,
    }
}

/// Whether `p` is a prefix of every list element.
pub open spec fn common_prefix_of(p: Seq<char>, r: Seq<Seq<char>>) -> bool {
    forall|i: int| 0 <= i < r.len() ==> p.is_prefix_of(#[trigger] r[i])
}

/// `p` is the longest prefix shared by every element of the non-empty `r`.
pub open spec fn longest_common_prefix(p: Seq<char>, r: Seq<Seq<char>>) -> bool {
    &&& common_prefix_of(p, r)
    &&& (p.len() == r[0].len() || !common_prefix_of(r[0].subrange(0, p.len() as int + 1), r))
}

/// The longest prefix shared by all candidates for `input`; `input` itself
/// when there are none.
pub fn get_common_prefix(file_system_state: &FileSystemState, input: &str) -> (r: String)
    ensures
        ({
            let names = file_system_state.index_spec();
            let n = input@.len() as int;
            (forall|s: Seq<char>| !offered(names, input@, n, s)) ==> r@ == input@
        }),
        ({
            let names = file_system_state.index_spec();
            let n = input@.len() as int;
            forall|c: Seq<Seq<char>>| is_completion_list(c, names, input@, n) && c.len() > 0
                ==> longest_common_prefix(r@, c)
        }),
{
    let typed = chars_of(input);
    let completions = complete_all(file_system_state.get_all_indexed(), &typed, typed.len());
    let ghost cv = views(completions@);
    proof {
        let names = file_system_state.index_spec();
        let n = input@.len() as int;
        assert forall|c: Seq<Seq<char>>| is_completion_list(c, names, input@, n) implies c == cv by {
            lemma_completion_list_unique(c, cv, names, input@, n);
        }
    }
    if completions.len() == 0 {
        proof {
            let names = file_system_state.index_spec();
            let n = input@.len() as int;
            assert forall|s: Seq<char>| !offered(names, input@, n, s) by {
                if offered(names, input@, n, s) {
                    assert(cv.contains(s));
                }
            }
        }
        return String::from_str(input);
    }
    assert(cv.contains(cv[0]));
    let first = chars_of(completions[0].as_str());
    let mut prefix: Vec<char> = Vec::new();
    let mut i: usize = 0;
    let mut done = false;
    while i < first.len() && !done
        invariant
            cv == views(completions@),
            cv.len() > 0,
            first@ == cv[0],
            i <= first@.len(),
            prefix@ == first@.subrange(0, i as int),
            common_prefix_of(prefix@, cv),
            done ==> i < first@.len() && !common_prefix_of(first@.subrange(0, i + 1), cv),
        decreases first@.len() - i, if done { 0int } else { 1int },
    {
        let ch = first[i];
        let mut all = true;
        let mut j: usize = 0;
        while j < completions.len() && all
            invariant
                cv == views(completions@),
                i < first@.len(),
                ch == first@[i as int],
                j <= cv.len(),
                all ==> forall|k: int| 0 <= k < j ==> (#[trigger] cv[k]).len() > i && cv[k][i as int] == ch,
                !all ==> exists|k: int| 0 <= k < cv.len() && !((#[trigger] cv[k]).len() > i && cv[k][i as int] == ch),
            decreases cv.len() - j, if all { 1int } else { 0int },
        {
            let other = chars_of(completions[j].as_str());
            if !(i < other.len() && other[i] == ch) {
                all = false;
                assert(!(cv[j as int].len() > i && cv[j as int][i as int] == ch));
            } else {
                j += 1;
            }
        }
        let ghost next = first@.subrange(0, i + 1);
        if all {
            prefix.push(ch);
            proof {
                assert forall|k: int| 0 <= k < cv.len() implies prefix@.is_prefix_of(#[trigger] cv[k]) by {
                    assert(first@.subrange(0, i as int).is_prefix_of(cv[k]));
                    assert forall|m: int| 0 <= m < i + 1 implies prefix@[m] == cv[k][m] by {
                        if m < i {
                            assert(first@.subrange(0, i as int)[m] == cv[k].subrange(0, i as int)[m]);
                        }
                    }
                    assert(prefix@ =~= cv[k].subrange(0, i + 1));
                }
            }
            i += 1;
        } else {
            done = true;
            proof {
                let k = choose|k: int| 0 <= k < cv.len() && !((#[trigger] cv[k]).len() > i && cv[k][i as int] == ch);
                if next.is_prefix_of(cv[k]) {
                    assert(next[i as int] == ch);
                }
            }
        }
    }
    string_of(&prefix)
}

/// Two completion lists for the same input are the same list.
pub proof fn lemma_completion_list_unique(
    a: Seq<Seq<char>>,
    b: Seq<Seq<char>>,
    names: Seq<Seq<char>>,
    buf: Seq<char>,
    cursor: int,
)
    requires
        is_completion_list(a, names, buf, cursor),
        is_completion_list(b, names, buf, cursor),
    ensures
        a == b,
{
    lemma_sorted_same_elements(a, b);
}

/// Strictly sorted sequences with the same elements are equal.
pub proof fn lemma_sorted_same_elements(a: Seq<Seq<char>>, b: Seq<Seq<char>>)
    requires
        strictly_sorted(a),
        strictly_sorted(b),
        forall|s: Seq<char>| a.contains(s) <==> b.contains(s),
    ensures
        a == b,
    decreases a.len() + b.len(),
{
    if a.len() == 0 || b.len() == 0 {
        if a.len() > 0 {
            assert(a.contains(a[0]));
        }
        if b.len() > 0 {
            assert(b.contains(b[0]));
        }
        assert(a =~= b);
    } else {
        // The first elements are the least of each, hence equal.
        assert(a.contains(a[0]));
        assert(b.contains(b[0]));
        let ka = choose|k: int| 0 <= k < b.len() && b[k] == a[0];
        let kb = choose|k: int| 0 <= k < a.len() && a[k] == b[0];
        if ka > 0 {
            assert(lex_lt(b[0], b[ka]));
            if kb > 0 {
                assert(lex_lt(a[0], a[kb]));
                lemma_lex_asymmetric(a[0], b[0]);
            } else {
                lemma_lex_irreflexive(b[0]);
            }
        } else if kb > 0 {
            assert(lex_lt(a[0], a[kb]));
            lemma_lex_irreflexive(a[0]);
        }
        assert(a[0] == b[0]);
        let ta = a.drop_first();
        let tb = b.drop_first();
        assert forall|s: Seq<char>| ta.contains(s) <==> tb.contains(s) by {
            if ta.contains(s) {
                let k = choose|k: int| 0 <= k < ta.len() && ta[k] == s;
                assert(a[k + 1] == s);
                assert(a.contains(s));
                let m = choose|m: int| 0 <= m < b.len() && b[m] == s;
                assert(lex_lt(a[0], a[k + 1]));
                if m == 0 {
                    lemma_lex_irreflexive(s);
                }
                assert(tb[m - 1] == s);
            }
            if tb.contains(s) {
                let k = choose|k: int| 0 <= k < tb.len() && tb[k] == s;
                assert(b[k + 1] == s);
                assert(b.contains(s));
                let m = choose|m: int| 0 <= m < a.len() && a[m] == s;
                assert(lex_lt(b[0], b[k + 1]));
                if m == 0 {
                    lemma_lex_irreflexive(s);
                }
                assert(ta[m - 1] == s);
            }
        }
        lemma_sorted_same_elements(ta, tb);
        assert(a =~= seq![a[0]] + ta);
        assert(b =~= seq![b[0]] + tb);
    }
}

} // verus!
