//! Diagnostics: one entry per parser-reported error or missing node, and one
//! per include/use statement whose path resolves to no available document.
//! An unresolved include is surfaced here and nowhere else; it never blocks
//! extraction of the rest of the document.

use vstd::prelude::*;

verus! {

use vstd::string::StringSliceAdditionalSpecFns;
use crate::Pos;
use crate::SrcRange;
use crate::bytes::{lit, push_slice, push_str};
use crate::inc::{paths_view, spec_inc_literal, spec_resolve, inc_literal, resolve_path};
use crate::store::{store_frozen, DocumentStore};
use crate::tree::{kind_eq, NodeKind, SyntaxTree};

/// One diagnostic: a source range and a message.
pub struct Diagnostic {
    pub range: SrcRange,
    pub message: Vec<u8>,
    /// True for a missing-token or syntax-error entry, false for an
    /// unresolved include.
    pub syntax: bool,
}

/// Spec view of a diagnostic.
pub struct DiagnosticV {
    pub range: SrcRange,
    pub message: Seq<u8>,
    pub syntax: bool,
}

impl View for Diagnostic {
    type V = DiagnosticV;

    open spec fn view(&self) -> DiagnosticV {
        DiagnosticV { range: self.range, message: self.message@, syntax: self.syntax }
    }
}

pub open spec fn diags_view(s: Seq<Diagnostic>) -> Seq<DiagnosticV> {
    s.map_values(|d: Diagnostic| d@)
}

proof fn lemma_diags_view_push(s: Seq<Diagnostic>, d: Diagnostic)
    ensures
        diags_view(s.push(d)) == diags_view(s).push(d@),
{
    assert(diags_view(s.push(d)) =~= diags_view(s).push(d@));
}

/// The message for one damaged node: `missing <kind>` for a missing token,
/// a plain syntax error otherwise.
pub open spec fn spec_error_message(t: SyntaxTree, n: int) -> Seq<u8> {
    if t.node(n).missing {
        lit("missing ") + t.node(n).kind_name@
    } else {
        lit("syntax error")
    }
}

/// The syntax diagnostics from node `n` on, one per error or missing node,
/// in preorder.
pub open spec fn spec_error_diags_from(t: SyntaxTree, n: int) -> Seq<DiagnosticV>
    decreases t.len() - n,
{
    if n < 0 || n >= t.len() {
        Seq::empty()
    } else {
        let rest = spec_error_diags_from(t, n + 1);
        if t.node(n).error || t.node(n).missing {
            seq![
                DiagnosticV {
                    range: SrcRange { start: t.node(n).start, end: t.node(n).end },
                    message: spec_error_message(t, n),
                    syntax: true,
                },
            ] + rest
        } else {
            rest
        }
    }
}

/// One syntax diagnostic per parser-reported error or missing node.
pub fn error_diags(t: &SyntaxTree) -> (r: Vec<Diagnostic>)
    ensures
        diags_view(r@) == spec_error_diags_from(*t, 0),
{
    let mut out: Vec<Diagnostic> = Vec::new();
    let n = t.node_count();
    let mut i: usize = 0;
    assert(diags_view(out@) =~= Seq::<DiagnosticV>::empty());
    while i < n
        invariant
            n == t.len(),
            0 <= i <= n,
            diags_view(out@) + spec_error_diags_from(*t, i as int) == spec_error_diags_from(*t, 0),
        decreases n - i,
    {
        let ghost prev = diags_view(out@);
        if t.nodes[i].error || t.nodes[i].missing {
            let mut msg: Vec<u8> = Vec::new();
            if t.nodes[i].missing {
                push_str(&mut msg, "missing ");
                push_slice(&mut msg, t.nodes[i].kind_name.as_slice());
            } else {
                push_str(&mut msg, "syntax error");
            }
            assert(msg@ == spec_error_message(*t, i as int));
            let d = Diagnostic {
                range: SrcRange { start: t.nodes[i].start, end: t.nodes[i].end },
                message: msg,
                syntax: true,
            };
            proof {
                lemma_diags_view_push(out@, d);
            }
            out.push(d);
            proof {
                assert(diags_view(out@) =~= prev.push(out@[out@.len() - 1]@));
                assert(diags_view(out@) + spec_error_diags_from(*t, i + 1) =~= spec_error_diags_from(
                    *t,
                    0,
                ));
            }
        } else {
            proof {
                assert(diags_view(out@) + spec_error_diags_from(*t, i + 1)
                    =~= spec_error_diags_from(*t, 0));
            }
        }
        i = i + 1;
    }
    assert(diags_view(out@) + spec_error_diags_from(*t, n as int) =~= diags_view(out@));
    out
}

/// The diagnostic range of an include path token, with the `<`/`>`
/// delimiters excluded.
pub open spec fn spec_path_range(t: SyntaxTree, c: int) -> SrcRange {
    let r = SrcRange {
        start: t.node(t.node(c).children@[1] as int).start,
        end: t.node(t.node(c).children@[1] as int).end,
    };
    SrcRange {
        start: Pos {
            row: r.start.row,
            col: if r.start.col < usize::MAX {
                (r.start.col + 1) as usize
            } else {
                usize::MAX
            },
        },
        end: Pos {
            row: r.end.row,
            col: if r.end.col > 0 {
                (r.end.col - 1) as usize
            } else {
                0
            },
        },
    }
}

/// The unresolved-include diagnostics of the root's children from slot `j`
/// on: one per include/use statement whose literal resolves to no available
/// document.
pub open spec fn spec_unresolved_from(
    t: SyntaxTree,
    code: Seq<u8>,
    path: Seq<u8>,
    libs: Seq<Seq<u8>>,
    avail: Seq<Seq<u8>>,
    j: int,
) -> Seq<DiagnosticV>
    decreases t.node(0).children@.len() - j,
{
    let cs = t.node(0).children@;
    if j < 0 || j >= cs.len() {
        Seq::empty()
    } else {
        let c = cs[j] as int;
        let rest = spec_unresolved_from(t, code, path, libs, avail, j + 1);
        if t.node(c).kind == NodeKind::IncludeStatement || t.node(c).kind == NodeKind::UseStatement {
            match spec_inc_literal(t, code, c) {
                Some(l) => match spec_resolve(l, path, libs, avail) {
                    Some(_) => rest,
                    None => seq![
                        DiagnosticV {
                            range: spec_path_range(t, c),
                            message: lit("file not found!"),
                            syntax: false,
                        },
                    ] + rest,
                },
                None => rest,
            }
        } else {
            rest
        }
    }
}

/// One diagnostic per unresolved include/use statement.
pub fn unresolved_diags(
    t: &SyntaxTree,
    code: &Vec<u8>,
    path: &Vec<u8>,
    libs: &Vec<Vec<u8>>,
    avail: &Vec<Vec<u8>>,
) -> (r: Vec<Diagnostic>)
    requires
        t.wf(),
        t.within_text(code@.len() as int),
    ensures
        diags_view(r@) == spec_unresolved_from(
            *t,
            code@,
            path@,
            paths_view(libs@),
            paths_view(avail@),
            0,
        ),
{
    let mut out: Vec<Diagnostic> = Vec::new();
    assert(t.wf_at(0));
    let n = t.nodes[0].children.len();
    let mut j: usize = 0;
    assert(diags_view(out@) =~= Seq::<DiagnosticV>::empty());
    while j < n
        invariant
            t.wf(),
            t.within_text(code@.len() as int),
            t.wf_at(0),
            n == t.node(0).children@.len(),
            0 <= j <= n,
            diags_view(out@) + spec_unresolved_from(
                *t,
                code@,
                path@,
                paths_view(libs@),
                paths_view(avail@),
                j as int,
            ) == spec_unresolved_from(
                *t,
                code@,
                path@,
                paths_view(libs@),
                paths_view(avail@),
                0,
            ),
        decreases n - j,
    {
        let c = t.nodes[0].children[j];
        let k = t.kind(c);
        let ghost prev = diags_view(out@);
        if kind_eq(k, NodeKind::IncludeStatement) || kind_eq(k, NodeKind::UseStatement) {
            match inc_literal(t, code, c) {
                Some(l) => {
                    match resolve_path(&l, path, libs, avail) {
                        Some(_) => {},
                        None => {
                            assert(t.wf_at(c as int));
                            let pc = t.nodes[c].children[1];
                            let r0 = t.src_range(pc);
                            let start_col = if r0.start.col < usize::MAX {
                                r0.start.col + 1
                            } else {
                                r0.start.col
                            };
                            let end_col = if r0.end.col > 0 {
                                r0.end.col - 1
                            } else {
                                0
                            };
                            let mut msg: Vec<u8> = Vec::new();
                            push_str(&mut msg, "file not found!");
                            let d = Diagnostic {
                                range: SrcRange {
                                    start: Pos { row: r0.start.row, col: start_col },
                                    end: Pos { row: r0.end.row, col: end_col },
                                },
                                message: msg,
                                syntax: false,
                            };
                            assert(d@ == DiagnosticV {
                                range: spec_path_range(*t, c as int),
                                message: lit("file not found!"),
                                syntax: false,
                            });
                            proof {
                                lemma_diags_view_push(out@, d);
                            }
                            out.push(d);
                            proof {
                                assert(diags_view(out@) =~= prev.push(out@[out@.len() - 1]@));
                            }
                        },
                    }
                },
                None => {},
            }
        }
        proof {
            assert(diags_view(out@) + spec_unresolved_from(
                *t,
                code@,
                path@,
                paths_view(libs@),
                paths_view(avail@),
                j + 1,
            ) =~= spec_unresolved_from(*t, code@, path@, paths_view(libs@), paths_view(avail@), 0));
        }
        j = j + 1;
    }
    assert(diags_view(out@) + spec_unresolved_from(
        *t,
        code@,
        path@,
        paths_view(libs@),
        paths_view(avail@),
        n as int,
    ) =~= diags_view(out@));
    out
}

/// All diagnostics of a resident document: syntax errors, then unresolved
/// includes, each exactly once.
pub fn document_diagnostics(store: &mut DocumentStore, path: &Vec<u8>) -> (r: Option<
    Vec<Diagnostic>,
>)
    requires
        old(store).inv(),
    ensures
        final(store).inv(),
        store_frozen(*old(store), *final(store)),
        match r {
            Some(ds) => old(store).docview_of(path@) matches Some(dv) && diags_view(ds@)
                == spec_error_diags_from(dv.tree, 0) + spec_unresolved_from(
                dv.tree,
                dv.code,
                path@,
                paths_view(old(store).libs@),
                old(store).spec_resident(),
                0,
            ),
            None => old(store).docview_of(path@) is None,
        },
{
    let slot = match store.find_slot(path) {
        Some(s) => s,
        None => {
            return None;
        },
    };
    let avail = store.resident_paths();
    let d = match store.get_ref(slot) {
        Some(d) => d,
        None => {
            return vstd::pervasive::unreached();
        },
    };
    let mut out = error_diags(&d.tree);
    let extra = unresolved_diags(&d.tree, &d.code, path, &store.libs, &avail);
    let ghost base = diags_view(out@);
    let ne = extra.len();
    let mut i: usize = 0;
    while i < ne
        invariant
            ne == extra@.len(),
            0 <= i <= ne,
            diags_view(out@) == base + diags_view(extra@).take(i as int),
        decreases ne - i,
    {
        let e = &extra[i];
        let mut msg: Vec<u8> = Vec::new();
        push_slice(&mut msg, e.message.as_slice());
        let d2 = Diagnostic { range: e.range, message: msg, syntax: e.syntax };
        assert(d2@ == extra@[i as int]@);
        proof {
            lemma_diags_view_push(out@, d2);
        }
        out.push(d2);
        proof {
            assert(diags_view(out@) =~= base + diags_view(extra@).take(i as int).push(
                extra@[i as int]@,
            ));
            assert(diags_view(extra@).take(i + 1 as int) =~= diags_view(extra@).take(
                i as int,
            ).push(extra@[i as int]@));
        }
        i = i + 1;
    }
    proof {
        assert(diags_view(extra@).take(ne as int) =~= diags_view(extra@));
    }
    Some(out)
}

} // verus!
