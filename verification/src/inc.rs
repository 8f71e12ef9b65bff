//! Resolving include/use path literals to document paths.
//!
//! A path literal is tried against the referencing document's own directory
//! first, then against each configured search directory in order; the first
//! candidate that names an available document wins. An unresolved literal is
//! not an error: callers surface it as a diagnostic.

use vstd::prelude::*;

verus! {

use crate::bytes::{byte_range, bytes_eq};
use crate::tree::{NodeKind, SyntaxTree};

pub const B_LT: u8 = 60;

pub const B_GT: u8 = 62;

/// First index at or after `i` whose byte is neither `<` nor a newline.
pub open spec fn lit_start(s: Seq<u8>, i: int) -> int
    decreases s.len() - i,
{
    if i < 0 || i >= s.len() {
        s.len() as int
    } else if s[i] == B_LT || s[i] == crate::doc::B_NL {
        lit_start(s, i + 1)
    } else {
        i
    }
}

/// Last index before `k` whose byte is neither `>` nor a newline, plus one.
pub open spec fn lit_end(s: Seq<u8>, k: int) -> int
    decreases k,
{
    if k <= 0 {
        0
    } else if s[k - 1] == B_GT || s[k - 1] == crate::doc::B_NL {
        lit_end(s, k - 1)
    } else {
        k
    }
}

/// A path literal with the `<`/`>` delimiters and stray newlines trimmed.
pub open spec fn spec_trim_literal(s: Seq<u8>) -> Seq<u8> {
    let a = lit_start(s, 0);
    let b = lit_end(s, s.len() as int);
    if a <= b {
        s.subrange(a, b)
    } else {
        Seq::empty()
    }
}

/// Trim the `<`/`>` delimiters of a path literal.
pub fn trim_literal(s: &Vec<u8>) -> (r: Vec<u8>)
    ensures
        r@ == spec_trim_literal(s@),
{
    let n = s.len();
    let mut a: usize = 0;
    while a < n && (s[a] == B_LT || s[a] == crate::doc::B_NL)
        invariant
            n == s@.len(),
            0 <= a <= n,
            lit_start(s@, 0) == lit_start(s@, a as int),
        decreases n - a,
    {
        a = a + 1;
    }
    let mut b: usize = n;
    while b > 0 && (s[b - 1] == B_GT || s[b - 1] == crate::doc::B_NL)
        invariant
            n == s@.len(),
            0 <= b <= n,
            lit_end(s@, n as int) == lit_end(s@, b as int),
        decreases b,
    {
        b = b - 1;
    }
    if a <= b {
        byte_range(s, a, b)
    } else {
        let r: Vec<u8> = Vec::new();
        assert(r@ =~= spec_trim_literal(s@));
        r
    }
}

/// Index just past the last `/` of `p`, or 0 if `p` has none.
pub open spec fn dir_len(p: Seq<u8>, k: int) -> int
    decreases k,
{
    if k <= 0 {
        0
    } else if p[k - 1] == crate::doc::B_SLASH {
        k
    } else {
        dir_len(p, k - 1)
    }
}

/// The directory prefix of a path, through its last `/`.
pub open spec fn spec_dir_of(p: Seq<u8>) -> Seq<u8> {
    p.subrange(0, dir_len(p, p.len() as int))
}

proof fn lemma_dir_len_bounds(p: Seq<u8>, k: int)
    requires
        0 <= k <= p.len(),
    ensures
        0 <= dir_len(p, k) <= k,
    decreases k,
{
    if k > 0 && p[k - 1] != crate::doc::B_SLASH {
        lemma_dir_len_bounds(p, k - 1);
    }
}

/// The directory prefix of a path, through its last `/`.
pub fn dir_of(p: &Vec<u8>) -> (r: Vec<u8>)
    ensures
        r@ == spec_dir_of(p@),
{
    let n = p.len();
    let mut k: usize = n;
    while k > 0 && p[k - 1] != crate::doc::B_SLASH
        invariant
            n == p@.len(),
            0 <= k <= n,
            dir_len(p@, n as int) == dir_len(p@, k as int),
        decreases k,
    {
        k = k - 1;
    }
    proof {
        lemma_dir_len_bounds(p@, n as int);
    }
    byte_range(p, 0, k)
}

/// Join a relative path onto a directory; an absolute path stands alone.
pub open spec fn spec_join(dir: Seq<u8>, rel: Seq<u8>) -> Seq<u8> {
    if rel.len() > 0 && rel[0] == crate::doc::B_SLASH {
        rel
    } else {
        dir + rel
    }
}

/// Join a relative path onto a directory.
pub fn join_path(dir: &Vec<u8>, rel: &Vec<u8>) -> (r: Vec<u8>)
    ensures
        r@ == spec_join(dir@, rel@),
{
    if rel.len() > 0 && rel[0] == crate::doc::B_SLASH {
        let mut r: Vec<u8> = Vec::new();
        crate::bytes::push_slice(&mut r, rel.as_slice());
        assert(r@ =~= spec_join(dir@, rel@));
        r
    } else {
        let mut r: Vec<u8> = Vec::new();
        crate::bytes::push_slice(&mut r, dir.as_slice());
        crate::bytes::push_slice(&mut r, rel.as_slice());
        r
    }
}

/// The views of a list of paths.
pub open spec fn paths_view(s: Seq<Vec<u8>>) -> Seq<Seq<u8>> {
    s.map_values(|v: Vec<u8>| v@)
}

pub proof fn lemma_paths_view_push(s: Seq<Vec<u8>>, x: Vec<u8>)
    ensures
        paths_view(s.push(x)) == paths_view(s).push(x@),
{
    assert(paths_view(s.push(x)) =~= paths_view(s).push(x@));
}

/// Whether one of the paths equals `p`.
pub fn contains_path(paths: &Vec<Vec<u8>>, p: &Vec<u8>) -> (r: bool)
    ensures
        r == paths_view(paths@).contains(p@),
{
    let n = paths.len();
    let mut i: usize = 0;
    while i < n
        invariant
            n == paths@.len(),
            0 <= i <= n,
            forall|k: int| 0 <= k < i ==> paths@[k]@ != p@,
        decreases n - i,
    {
        if bytes_eq(paths[i].as_slice(), p.as_slice()) {
            assert(paths_view(paths@)[i as int] == p@);
            return true;
        }
        i = i + 1;
    }
    assert forall|k: int| 0 <= k < paths_view(paths@).len() implies paths_view(paths@)[k]
        != p@ by {
        assert(paths@[k]@ != p@);
    }
    false
}

/// The first search directory from slot `i` on whose join with `rel` is
/// available.
pub open spec fn spec_resolve_libs(
    rel: Seq<u8>,
    libs: Seq<Seq<u8>>,
    avail: Seq<Seq<u8>>,
    i: int,
) -> Option<Seq<u8>>
    decreases libs.len() - i,
{
    if i < 0 || i >= libs.len() {
        None
    } else if avail.contains(spec_join(libs[i], rel)) {
        Some(spec_join(libs[i], rel))
    } else {
        spec_resolve_libs(rel, libs, avail, i + 1)
    }
}

/// Resolve a trimmed include literal against the referencing document's own
/// directory, then the search directories in order; the first available
/// candidate wins.
pub open spec fn spec_resolve(
    rel: Seq<u8>,
    self_path: Seq<u8>,
    libs: Seq<Seq<u8>>,
    avail: Seq<Seq<u8>>,
) -> Option<Seq<u8>> {
    if rel.len() == 0 {
        None
    } else if avail.contains(spec_join(spec_dir_of(self_path), rel)) {
        Some(spec_join(spec_dir_of(self_path), rel))
    } else {
        spec_resolve_libs(rel, libs, avail, 0)
    }
}

/// Resolve a trimmed include literal to an available document path.
pub fn resolve_path(
    rel: &Vec<u8>,
    self_path: &Vec<u8>,
    libs: &Vec<Vec<u8>>,
    avail: &Vec<Vec<u8>>,
) -> (r: Option<Vec<u8>>)
    ensures
        match r {
            Some(p) => spec_resolve(rel@, self_path@, paths_view(libs@), paths_view(avail@))
                == Some(p@),
            None => spec_resolve(rel@, self_path@, paths_view(libs@), paths_view(avail@)) is None,
        },
{
    if rel.len() == 0 {
        return None;
    }
    let d = dir_of(self_path);
    let cand = join_path(&d, rel);
    if contains_path(avail, &cand) {
        return Some(cand);
    }
    let n = libs.len();
    let mut i: usize = 0;
    while i < n
        invariant
            n == libs@.len(),
            0 <= i <= n,
            rel@.len() > 0,
            !paths_view(avail@).contains(spec_join(spec_dir_of(self_path@), rel@)),
            spec_resolve_libs(rel@, paths_view(libs@), paths_view(avail@), 0) == spec_resolve_libs(
                rel@,
                paths_view(libs@),
                paths_view(avail@),
                i as int,
            ),
        decreases n - i,
    {
        assert(paths_view(libs@)[i as int] == libs@[i as int]@);
        let cand = join_path(&libs[i], rel);
        if contains_path(avail, &cand) {
            return Some(cand);
        }
        i = i + 1;
    }
    None
}

/// The ordered candidate paths of an include literal: the referencing
/// document's own directory first, then each search directory.
pub open spec fn spec_cands_from(rel: Seq<u8>, libs: Seq<Seq<u8>>, i: int) -> Seq<Seq<u8>>
    decreases libs.len() - i,
{
    if i < 0 || i >= libs.len() {
        Seq::empty()
    } else {
        seq![spec_join(libs[i], rel)] + spec_cands_from(rel, libs, i + 1)
    }
}

pub open spec fn spec_candidates(rel: Seq<u8>, self_path: Seq<u8>, libs: Seq<Seq<u8>>) -> Seq<
    Seq<u8>,
> {
    seq![spec_join(spec_dir_of(self_path), rel)] + spec_cands_from(rel, libs, 0)
}

/// The ordered candidate paths an include literal may resolve to.
pub fn inc_candidates(rel: &Vec<u8>, self_path: &Vec<u8>, libs: &Vec<Vec<u8>>) -> (r: Vec<Vec<u8>>)
    ensures
        paths_view(r@) == spec_candidates(rel@, self_path@, paths_view(libs@)),
{
    let mut out: Vec<Vec<u8>> = Vec::new();
    let d = dir_of(self_path);
    let first = join_path(&d, rel);
    proof {
        lemma_paths_view_push(out@, first);
    }
    out.push(first);
    let n = libs.len();
    let mut i: usize = 0;
    proof {
        assert(paths_view(out@) =~= seq![spec_join(spec_dir_of(self_path@), rel@)]);
    }
    while i < n
        invariant
            n == libs@.len(),
            0 <= i <= n,
            paths_view(out@) + spec_cands_from(rel@, paths_view(libs@), i as int)
                == spec_candidates(rel@, self_path@, paths_view(libs@)),
        decreases n - i,
    {
        assert(paths_view(libs@)[i as int] == libs@[i as int]@);
        let c = join_path(&libs[i], rel);
        proof {
            lemma_paths_view_push(out@, c);
        }
        out.push(c);
        proof {
            assert(paths_view(out@) + spec_cands_from(rel@, paths_view(libs@), i + 1)
                =~= spec_candidates(rel@, self_path@, paths_view(libs@)));
        }
        i = i + 1;
    }
    assert(paths_view(out@) + spec_cands_from(rel@, paths_view(libs@), n as int) =~= paths_view(
        out@,
    ));
    out
}

/// Split a typed include literal into its directory part and the file-name
/// prefix being typed: everything through the last `/`, and the rest.
pub open spec fn spec_split_literal(p: Seq<u8>) -> (Seq<u8>, Seq<u8>) {
    (p.subrange(0, dir_len(p, p.len() as int)), p.subrange(dir_len(p, p.len() as int), p.len() as int))
}

/// Split a typed include literal into directory part and file-name prefix.
pub fn split_literal(p: &Vec<u8>) -> (r: (Vec<u8>, Vec<u8>))
    ensures
        r.0@ == spec_split_literal(p@).0,
        r.1@ == spec_split_literal(p@).1,
{
    let n = p.len();
    let mut k: usize = n;
    while k > 0 && p[k - 1] != crate::doc::B_SLASH
        invariant
            n == p@.len(),
            0 <= k <= n,
            dir_len(p@, n as int) == dir_len(p@, k as int),
        decreases k,
    {
        k = k - 1;
    }
    proof {
        lemma_dir_len_bounds(p@, n as int);
    }
    (byte_range(p, 0, k), byte_range(p, k, n))
}

/// A byte with an ASCII upper-case letter folded to lower case.
pub open spec fn spec_lower(b: u8) -> u8 {
    if 65 <= b <= 90 {
        (b + 32) as u8
    } else {
        b
    }
}

/// Case-insensitive (ASCII) prefix test, as the file-name filter of
/// include-path completion uses.
pub open spec fn spec_ci_prefix(name: Seq<u8>, prefix: Seq<u8>) -> bool {
    name.len() >= prefix.len() && forall|i: int|
        0 <= i < prefix.len() ==> spec_lower(name[i]) == spec_lower(prefix[i])
}

fn ci_prefix(name: &Vec<u8>, prefix: &Vec<u8>) -> (r: bool)
    ensures
        r == spec_ci_prefix(name@, prefix@),
{
    if name.len() < prefix.len() {
        return false;
    }
    let n = prefix.len();
    let mut i: usize = 0;
    while i < n
        invariant
            n == prefix@.len() <= name@.len(),
            0 <= i <= n,
            forall|k: int| 0 <= k < i ==> spec_lower(name@[k]) == spec_lower(prefix@[k]),
        decreases n - i,
    {
        let a = name[i];
        let b = prefix[i];
        let la: u8 = if 65 <= a && a <= 90 {
            a + 32
        } else {
            a
        };
        let lb: u8 = if 65 <= b && b <= 90 {
            b + 32
        } else {
            b
        };
        if la != lb {
            return false;
        }
        i = i + 1;
    }
    true
}

/// The view of a directory-entry list: each entry's name and whether it is a
/// directory.
pub open spec fn entries_view(s: Seq<(Vec<u8>, bool)>) -> Seq<(Seq<u8>, bool)> {
    s.map_values(|e: (Vec<u8>, bool)| (e.0@, e.1))
}

/// The include-path completions among the directory entries from slot `i`
/// on: every entry whose name starts (case-insensitively) with the typed
/// prefix, directories with a `/` appended.
pub open spec fn spec_inc_completions_from(
    entries: Seq<(Seq<u8>, bool)>,
    prefix: Seq<u8>,
    i: int,
) -> Seq<Seq<u8>>
    decreases entries.len() - i,
{
    if i < 0 || i >= entries.len() {
        Seq::empty()
    } else {
        let rest = spec_inc_completions_from(entries, prefix, i + 1);
        if spec_ci_prefix(entries[i].0, prefix) {
            seq![
                if entries[i].1 {
                    entries[i].0 + crate::bytes::lit("/")
                } else {
                    entries[i].0
                },
            ] + rest
        } else {
            rest
        }
    }
}

/// Filter directory entries into include-path completions: names matching
/// the typed prefix case-insensitively, directories suffixed with `/`.
pub fn include_completions(entries: &Vec<(Vec<u8>, bool)>, prefix: &Vec<u8>) -> (r: Vec<Vec<u8>>)
    ensures
        paths_view(r@) == spec_inc_completions_from(entries_view(entries@), prefix@, 0),
{
    let mut out: Vec<Vec<u8>> = Vec::new();
    let n = entries.len();
    let mut i: usize = 0;
    assert(paths_view(out@) =~= Seq::<Seq<u8>>::empty());
    while i < n
        invariant
            n == entries@.len(),
            0 <= i <= n,
            paths_view(out@) + spec_inc_completions_from(entries_view(entries@), prefix@, i as int)
                == spec_inc_completions_from(entries_view(entries@), prefix@, 0),
        decreases n - i,
    {
        assert(entries_view(entries@)[i as int] == (entries@[i as int].0@, entries@[i as int].1));
        if ci_prefix(&entries[i].0, prefix) {
            let mut name = byte_range(&entries[i].0, 0, entries[i].0.len());
            assert(name@ =~= entries@[i as int].0@);
            if entries[i].1 {
                crate::bytes::push_str(&mut name, "/");
            }
            proof {
                lemma_paths_view_push(out@, name);
            }
            out.push(name);
            proof {
                assert(paths_view(out@) + spec_inc_completions_from(
                    entries_view(entries@),
                    prefix@,
                    i + 1,
                ) =~= spec_inc_completions_from(entries_view(entries@), prefix@, 0));
            }
        }
        i = i + 1;
    }
    assert(paths_view(out@) + spec_inc_completions_from(entries_view(entries@), prefix@, n as int)
        =~= paths_view(out@));
    out
}

/// The include/use path literal of statement node `c`: the text of its path
/// child, trimmed.
pub open spec fn spec_inc_literal(t: SyntaxTree, code: Seq<u8>, c: int) -> Option<Seq<u8>> {
    if t.node(c).children@.len() > 1 {
        Some(spec_trim_literal(t.spec_node_text(code, t.node(c).children@[1] as int)))
    } else {
        None
    }
}

/// The include/use path literal of statement node `c`.
pub fn inc_literal(t: &SyntaxTree, code: &Vec<u8>, c: usize) -> (r: Option<Vec<u8>>)
    requires
        t.wf(),
        t.within_text(code@.len() as int),
        0 <= c < t.len(),
    ensures
        match r {
            Some(l) => spec_inc_literal(*t, code@, c as int) == Some(l@),
            None => spec_inc_literal(*t, code@, c as int) is None,
        },
{
    assert(t.wf_at(c as int));
    if t.nodes[c].children.len() > 1 {
        let p = t.nodes[c].children[1];
        let txt = t.node_text(code, p);
        Some(trim_literal(&txt))
    } else {
        None
    }
}

/// The resolved include edges of the root's children from slot `j` on.
pub open spec fn spec_inc_edges_from(
    t: SyntaxTree,
    code: Seq<u8>,
    path: Seq<u8>,
    libs: Seq<Seq<u8>>,
    avail: Seq<Seq<u8>>,
    j: int,
) -> Seq<Seq<u8>>
    decreases t.node(0).children@.len() - j,
{
    let cs = t.node(0).children@;
    if j < 0 || j >= cs.len() {
        Seq::empty()
    } else {
        let c = cs[j] as int;
        let rest = spec_inc_edges_from(t, code, path, libs, avail, j + 1);
        if t.node(c).kind == NodeKind::IncludeStatement || t.node(c).kind == NodeKind::UseStatement {
            match spec_inc_literal(t, code, c) {
                Some(l) => match spec_resolve(l, path, libs, avail) {
                    Some(p) => seq![p] + rest,
                    None => rest,
                },
                None => rest,
            }
        } else {
            rest
        }
    }
}

/// The resolved include edges of a document, in statement order.
pub open spec fn spec_inc_edges(
    t: SyntaxTree,
    code: Seq<u8>,
    path: Seq<u8>,
    libs: Seq<Seq<u8>>,
    avail: Seq<Seq<u8>>,
) -> Seq<Seq<u8>> {
    spec_inc_edges_from(t, code, path, libs, avail, 0)
}

/// Collect the resolved include edges of a document.
pub fn extract_inc_edges(
    t: &SyntaxTree,
    code: &Vec<u8>,
    path: &Vec<u8>,
    libs: &Vec<Vec<u8>>,
    avail: &Vec<Vec<u8>>,
) -> (r: Vec<Vec<u8>>)
    requires
        t.wf(),
        t.within_text(code@.len() as int),
    ensures
        paths_view(r@) == spec_inc_edges(*t, code@, path@, paths_view(libs@), paths_view(avail@)),
{
    let mut out: Vec<Vec<u8>> = Vec::new();
    assert(t.wf_at(0));
    let n = t.nodes[0].children.len();
    let mut j: usize = 0;
    assert(paths_view(out@) =~= Seq::<Seq<u8>>::empty());
    while j < n
        invariant
            t.wf(),
            t.within_text(code@.len() as int),
            t.wf_at(0),
            n == t.node(0).children@.len(),
            0 <= j <= n,
            paths_view(out@) + spec_inc_edges_from(
                *t,
                code@,
                path@,
                paths_view(libs@),
                paths_view(avail@),
                j as int,
            ) == spec_inc_edges(*t, code@, path@, paths_view(libs@), paths_view(avail@)),
        decreases n - j,
    {
        let c = t.nodes[0].children[j];
        let k = t.kind(c);
        let ghost pre = out@;
        if crate::tree::kind_eq(k, NodeKind::IncludeStatement) || crate::tree::kind_eq(
            k,
            NodeKind::UseStatement,
        ) {
            match inc_literal(t, code, c) {
                Some(l) => {
                    match resolve_path(&l, path, libs, avail) {
                        Some(p) => {
                            out.push(p);
                            proof {
                                assert(paths_view(out@) =~= paths_view(pre).push(
                                    out@[out@.len() - 1]@,
                                ));
                            }
                        },
                        None => {},
                    }
                },
                None => {},
            }
        }
        proof {
            assert(paths_view(out@) + spec_inc_edges_from(
                *t,
                code@,
                path@,
                paths_view(libs@),
                paths_view(avail@),
                j + 1,
            ) =~= spec_inc_edges(*t, code@, path@, paths_view(libs@), paths_view(avail@)));
        }
        j = j + 1;
    }
    assert(paths_view(out@) + spec_inc_edges_from(
        *t,
        code@,
        path@,
        paths_view(libs@),
        paths_view(avail@),
        n as int,
    ) =~= paths_view(out@));
    out
}

} // verus!
