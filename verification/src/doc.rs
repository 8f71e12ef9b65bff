//! Cleaning raw comment text into a doc string.
//!
//! Comment markers are stripped line by line: a line-leading run of
//! whitespace followed by `//...` or `/*...` is removed, a line's leading
//! indentation (through its last space) is removed, and every `*...*/`-style
//! closer is removed. For library/builtin documents only the block-comment
//! markers are stripped, keeping indentation.

use vstd::prelude::*;

verus! {

use crate::text::find_byte_from;
use crate::bytes::byte_range;

pub const B_NL: u8 = 10;

pub const B_TAB: u8 = 9;

pub const B_SPACE: u8 = 32;

pub const B_STAR: u8 = 42;

pub const B_SLASH: u8 = 47;

/// First index at or after `i` whose byte is not a space or tab.
pub open spec fn ws_end(l: Seq<u8>, i: int) -> int
    decreases l.len() - i,
{
    if i < 0 || i >= l.len() {
        l.len() as int
    } else if l[i] == B_SPACE || l[i] == B_TAB {
        ws_end(l, i + 1)
    } else {
        i
    }
}

/// First index at or after `i` whose byte is not `b`.
pub open spec fn run_end(l: Seq<u8>, i: int, b: u8) -> int
    decreases l.len() - i,
{
    if i < 0 || i >= l.len() {
        l.len() as int
    } else if l[i] == b {
        run_end(l, i + 1, b)
    } else {
        i
    }
}

/// Index of the last space strictly before `k`, or -1.
pub open spec fn last_space_before(l: Seq<u8>, k: int) -> int
    decreases k,
{
    if k <= 0 {
        -1
    } else if l[k - 1] == B_SPACE {
        k - 1
    } else {
        last_space_before(l, k - 1)
    }
}

proof fn lemma_ws_end_bounds(l: Seq<u8>, i: int)
    requires
        0 <= i <= l.len(),
    ensures
        i <= ws_end(l, i) <= l.len(),
    decreases l.len() - i,
{
    if i < l.len() && (l[i] == B_SPACE || l[i] == B_TAB) {
        lemma_ws_end_bounds(l, i + 1);
    }
}

proof fn lemma_run_end_bounds(l: Seq<u8>, i: int, b: u8)
    requires
        0 <= i <= l.len(),
    ensures
        i <= run_end(l, i, b) <= l.len(),
    decreases l.len() - i,
{
    if i < l.len() && l[i] == b {
        lemma_run_end_bounds(l, i + 1, b);
    }
}

/// The text of one line from index `i` on, with every `*...*/` closer
/// removed.
pub open spec fn strip_closers_from(l: Seq<u8>, i: int) -> Seq<u8>
    decreases l.len() - i,
    via strip_closers_decreases
{
    if i < 0 || i >= l.len() {
        Seq::empty()
    } else if l[i] == B_STAR {
        let k = run_end(l, i, B_STAR);
        if k < l.len() && l[k] == B_SLASH {
            strip_closers_from(l, k + 1)
        } else {
            seq![l[i]] + strip_closers_from(l, i + 1)
        }
    } else {
        seq![l[i]] + strip_closers_from(l, i + 1)
    }
}

#[via_fn]
proof fn strip_closers_decreases(l: Seq<u8>, i: int) {
    if 0 <= i < l.len() && l[i] == B_STAR {
        lemma_run_end_bounds(l, i, B_STAR);
    }
}

/// How many leading bytes of a line the marker rules remove.
pub open spec fn spec_head_drop(l: Seq<u8>, builtin: bool) -> int {
    let w = ws_end(l, 0);
    if !builtin && w + 1 < l.len() && l[w] == B_SLASH && l[w + 1] == B_SLASH {
        run_end(l, w, B_SLASH)
    } else if w + 1 < l.len() && l[w] == B_SLASH && l[w + 1] == B_STAR {
        run_end(l, w + 1, B_STAR)
    } else if !builtin && last_space_before(l, w) >= 0 {
        last_space_before(l, w) + 1
    } else {
        0
    }
}

/// One line of comment text after marker stripping.
pub open spec fn spec_strip_line(l: Seq<u8>, builtin: bool) -> Seq<u8> {
    strip_closers_from(l, spec_head_drop(l, builtin))
}

/// The cleaned doc text from byte `pos` on, line by line.
pub open spec fn spec_doc_from(s: Seq<u8>, pos: int, builtin: bool) -> Seq<u8>
    decreases s.len() - pos,
{
    if pos < 0 || pos > s.len() {
        Seq::empty()
    } else {
        match find_byte_from(s, pos, B_NL) {
            Some(i) => if pos <= i < s.len() {
                spec_strip_line(s.subrange(pos, i), builtin) + seq![B_NL] + spec_doc_from(
                    s,
                    i + 1,
                    builtin,
                )
            } else {
                Seq::empty()
            },
            None => spec_strip_line(s.subrange(pos, s.len() as int), builtin),
        }
    }
}

/// The cleaned doc text of raw comment text `s`.
pub open spec fn spec_extract_doc(s: Seq<u8>, builtin: bool) -> Seq<u8> {
    spec_doc_from(s, 0, builtin)
}

fn ws_end_exec(l: &Vec<u8>) -> (r: usize)
    ensures
        r == ws_end(l@, 0),
        r <= l@.len(),
{
    let n = l.len();
    let mut i: usize = 0;
    while i < n && (l[i] == B_SPACE || l[i] == B_TAB)
        invariant
            n == l@.len(),
            0 <= i <= n,
            ws_end(l@, 0) == ws_end(l@, i as int),
        decreases n - i,
    {
        i = i + 1;
    }
    i
}

fn run_end_exec(l: &Vec<u8>, from: usize, b: u8) -> (r: usize)
    requires
        from <= l@.len(),
    ensures
        r == run_end(l@, from as int, b),
        from <= r <= l@.len(),
{
    let n = l.len();
    let mut i: usize = from;
    while i < n && l[i] == b
        invariant
            n == l@.len(),
            from <= i <= n,
            run_end(l@, from as int, b) == run_end(l@, i as int, b),
        decreases n - i,
    {
        i = i + 1;
    }
    i
}

fn last_space_exec(l: &Vec<u8>, k: usize) -> (r: Option<usize>)
    requires
        k <= l@.len(),
    ensures
        match r {
            Some(j) => last_space_before(l@, k as int) == j && j < k,
            None => last_space_before(l@, k as int) == -1,
        },
{
    let mut i: usize = k;
    while i > 0
        invariant
            0 <= i <= k <= l@.len(),
            last_space_before(l@, k as int) == last_space_before(l@, i as int),
        decreases i,
    {
        if l[i - 1] == B_SPACE {
            return Some(i - 1);
        }
        i = i - 1;
    }
    None
}

/// Strip one line of comment text.
fn strip_line(l: &Vec<u8>, builtin: bool) -> (r: Vec<u8>)
    ensures
        r@ == spec_strip_line(l@, builtin),
{
    let n = l.len();
    let w = ws_end_exec(l);
    proof {
        lemma_ws_end_bounds(l@, 0);
    }
    let d: usize = if !builtin && w < n && w + 1 < n && l[w] == B_SLASH && l[w + 1] == B_SLASH {
        let e = run_end_exec(l, w, B_SLASH);
        e
    } else if w < n && w + 1 < n && l[w] == B_SLASH && l[w + 1] == B_STAR {
        let e = run_end_exec(l, w + 1, B_STAR);
        e
    } else if !builtin {
        match last_space_exec(l, w) {
            Some(j) => j + 1,
            None => 0,
        }
    } else {
        0
    };
    assert(d == spec_head_drop(l@, builtin));
    // remove `*...*/` closers from the remainder
    let mut out: Vec<u8> = Vec::new();
    let mut i: usize = d;
    while i < n
        invariant
            n == l@.len(),
            0 <= i <= n,
            spec_strip_line(l@, builtin) == out@ + strip_closers_from(l@, i as int),
        decreases n - i,
    {
        if l[i] == B_STAR {
            let k = run_end_exec(l, i, B_STAR);
            if k < n && l[k] == B_SLASH {
                i = k + 1;
            } else {
                out.push(l[i]);
                assert(out@ =~= out@.subrange(0, out@.len() - 1) + seq![l@[i as int]]);
                i = i + 1;
            }
        } else {
            out.push(l[i]);
            assert(out@ =~= out@.subrange(0, out@.len() - 1) + seq![l@[i as int]]);
            i = i + 1;
        }
    }
    assert(out@ + strip_closers_from(l@, n as int) =~= out@);
    out
}

/// Clean raw comment text into a doc string.
pub fn extract_doc(s: &Vec<u8>, builtin: bool) -> (r: Vec<u8>)
    ensures
        r@ == spec_extract_doc(s@, builtin),
{
    let mut out: Vec<u8> = Vec::new();
    let n = s.len();
    let mut pos: usize = 0;
    loop
        invariant
            n == s@.len(),
            0 <= pos <= n,
            spec_extract_doc(s@, builtin) == out@ + spec_doc_from(s@, pos as int, builtin),
        decreases n - pos,
    {
        match crate::text::find_byte(s, pos, B_NL) {
            Some(i) => {
                proof {
                    crate::text::lemma_find_byte_from_bounds(s@, pos as int, B_NL);
                }
                let line = byte_range(s, pos, i);
                let sl = strip_line(&line, builtin);
                crate::bytes::push_slice(&mut out, sl.as_slice());
                out.push(B_NL);
                pos = i + 1;
            },
            None => {
                let line = byte_range(s, pos, n);
                let sl = strip_line(&line, builtin);
                crate::bytes::push_slice(&mut out, sl.as_slice());
                assert(out@ =~= spec_extract_doc(s@, builtin));
                return out;
            },
        }
    }
}

} // verus!
