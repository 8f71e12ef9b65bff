//! Shadow-respecting rename.
//!
//! A rename starts from an identifier token, finds its nearest enclosing
//! scope boundary (document root or a module body block), and walks that
//! subtree: every identifier token with the same name is replaced, except
//! that an identifier which is the left-hand side of a new assignment is a
//! shadowing redeclaration — it is left alone, together with everything after
//! it inside its own nested scope. All edits stay within one document.

use vstd::prelude::*;

verus! {

use crate::SrcRange;
use crate::bytes::bytes_eq;
use crate::tree::{kind_eq, NodeKind, SyntaxTree};

/// Whether a node opens a lexical scope.
pub open spec fn spec_is_scope_kind(k: NodeKind) -> bool {
    k == NodeKind::SourceFile || k == NodeKind::ModuleDeclaration || k == NodeKind::UnionBlock
}

/// The nearest enclosing scope boundary strictly above `n`.
pub open spec fn first_scope_above(t: SyntaxTree, n: int) -> Option<int>
    decreases n,
{
    if !t.wf() || !(0 <= n < t.len()) {
        None
    } else {
        match t.node(n).parent {
            None => None,
            Some(p) => {
                if !(p < n) {
                    None
                } else if spec_is_scope_kind(t.node(p as int).kind) {
                    Some(p as int)
                } else {
                    first_scope_above(t, p as int)
                }
            },
        }
    }
}

/// The nearest enclosing scope boundary of `n`; when the boundary is the
/// module declaration whose own header `n` sits in, the search continues
/// upward, so a module's own name renames in the outer scope.
pub open spec fn spec_node_scope(t: SyntaxTree, n: int) -> Option<int>
    decreases n,
{
    if !t.wf() || !(0 <= n < t.len()) {
        None
    } else {
        match first_scope_above(t, n) {
            None => None,
            Some(p) => {
                if 0 <= p < n {
                    if t.node(n).parent matches Some(pp) && t.node(pp as int).kind
                        == NodeKind::ModuleDeclaration {
                        spec_node_scope(t, p)
                    } else {
                        Some(p)
                    }
                } else {
                    None
                }
            },
        }
    }
}

/// The nearest enclosing scope boundary strictly above `n`.
fn scope_above(t: &SyntaxTree, n: usize) -> (r: Option<usize>)
    requires
        t.wf(),
        0 <= n < t.len(),
    ensures
        match r {
            Some(s) => first_scope_above(*t, n as int) == Some(s as int) && 0 <= s < n,
            None => first_scope_above(*t, n as int) is None,
        },
    decreases n,
{
    assert(t.wf_at(n as int));
    match t.parent_of(n) {
        None => None,
        Some(p) => {
            let k = t.kind(p);
            if kind_eq(k, NodeKind::SourceFile) || kind_eq(k, NodeKind::ModuleDeclaration)
                || kind_eq(k, NodeKind::UnionBlock) {
                Some(p)
            } else {
                scope_above(t, p)
            }
        },
    }
}

/// The nearest enclosing scope boundary of `n`.
pub fn find_node_scope(t: &SyntaxTree, n: usize) -> (r: Option<usize>)
    requires
        t.wf(),
        0 <= n < t.len(),
    ensures
        match r {
            Some(s) => spec_node_scope(*t, n as int) == Some(s as int) && 0 <= s < t.len(),
            None => spec_node_scope(*t, n as int) is None,
        },
    decreases n,
{
    assert(t.wf_at(n as int));
    let p = match scope_above(t, n) {
        Some(p) => p,
        None => {
            return None;
        },
    };
    let header = match t.parent_of(n) {
        Some(pp) => kind_eq(t.kind(pp), NodeKind::ModuleDeclaration),
        None => false,
    };
    if header {
        find_node_scope(t, p)
    } else {
        Some(p)
    }
}

/// One collected rename edit: the range of an identifier to replace.
pub open spec fn spec_ident_hit(t: SyntaxTree, code: Seq<u8>, name: Seq<u8>, n: int) -> bool {
    t.node(n).kind == NodeKind::Identifier && t.spec_node_text(code, n) == name
}

/// Whether `n` is the left-hand side of an assignment: a (re)declaration.
pub open spec fn spec_is_decl_lhs(t: SyntaxTree, n: int) -> bool {
    match t.node(n).parent {
        Some(p) => t.node(p as int).kind == NodeKind::Assignment,
        None => false,
    }
}

/// The rename edits contributed by the subtree of `n`, in traversal order,
/// together with an active skip: Some(sc) means a shadowing redeclaration was
/// met and everything up to the end of scope `sc` is left untouched.
pub open spec fn spec_rename_node(
    t: SyntaxTree,
    code: Seq<u8>,
    name: Seq<u8>,
    orig: int,
    n: int,
) -> (Seq<SrcRange>, Option<int>)
    decreases t.len() - n, 1int, 0int,
{
    if !t.wf() || !(0 <= n < t.len()) {
        (Seq::empty(), None)
    } else {
        let (kid_edits, kid_stop) = spec_rename_kids(t, code, name, orig, n, 0);
        match kid_stop {
            Some(sc) => if sc == n {
                (kid_edits, None)
            } else {
                (kid_edits, Some(sc))
            },
            None => {
                if spec_ident_hit(t, code, name, n) {
                    if spec_is_decl_lhs(t, n) && n != orig {
                        (kid_edits, spec_node_scope(t, n))
                    } else {
                        (
                            kid_edits + seq![
                                SrcRange { start: t.node(n).start, end: t.node(n).end },
                            ],
                            None,
                        )
                    }
                } else {
                    (kid_edits, None)
                }
            },
        }
    }
}

/// The rename edits of the children of `n` from slot `j` on.
pub open spec fn spec_rename_kids(
    t: SyntaxTree,
    code: Seq<u8>,
    name: Seq<u8>,
    orig: int,
    n: int,
    j: int,
) -> (Seq<SrcRange>, Option<int>)
    decreases t.len() - n, 0int, t.node(n).children@.len() - j,
{
    if !t.wf() || !(0 <= n < t.len()) {
        (Seq::empty(), None)
    } else {
        let cs = t.node(n).children@;
        if j < 0 || j >= cs.len() {
            (Seq::empty(), None)
        } else {
            let c = cs[j] as int;
            if n < c < t.len() {
                let (e, st) = spec_rename_node(t, code, name, orig, c);
                match st {
                    Some(sc) => (e, Some(sc)),
                    None => {
                        let (e2, st2) = spec_rename_kids(t, code, name, orig, n, j + 1);
                        (e + e2, st2)
                    },
                }
            } else {
                (Seq::empty(), None)
            }
        }
    }
}

/// Collect the rename edits of the subtree of `n`.
fn rename_node(
    t: &SyntaxTree,
    code: &Vec<u8>,
    name: &Vec<u8>,
    orig: usize,
    n: usize,
    out: &mut Vec<SrcRange>,
) -> (stop: Option<usize>)
    requires
        t.wf(),
        t.within_text(code@.len() as int),
        0 <= n < t.len(),
    ensures
        ({
            let (e, st) = spec_rename_node(*t, code@, name@, orig as int, n as int);
            &&& final(out)@ == old(out)@ + e
            &&& (match stop {
                Some(sc) => st == Some(sc as int) && sc < t.len(),
                None => st is None,
            })
        }),
    decreases t.len() - n,
{
    assert(t.wf_at(n as int));
    let m = t.nodes[n].children.len();
    let mut j: usize = 0;
    let ghost pre = out@;
    let mut kid_stop: Option<usize> = None;
    proof {
        assert(out@.subrange(pre.len() as int, out@.len() as int) =~= Seq::<SrcRange>::empty());
        let (e0, st0) = spec_rename_kids(*t, code@, name@, orig as int, n as int, 0);
        assert(e0 =~= Seq::<SrcRange>::empty() + e0);
    }
    while j < m && kid_stop.is_none()
        invariant
            t.wf(),
            t.within_text(code@.len() as int),
            0 <= n < t.len(),
            t.wf_at(n as int),
            m == t.node(n as int).children@.len(),
            0 <= j <= m,
            out@.subrange(0, pre.len() as int) == pre,
            out@.len() >= pre.len(),
            ({
                let (e, st) = spec_rename_kids(*t, code@, name@, orig as int, n as int, 0);
                let (ej, stj) = spec_rename_kids(*t, code@, name@, orig as int, n as int, j as int);
                match kid_stop {
                    Some(sc) => e == out@.subrange(pre.len() as int, out@.len() as int) && st
                        == Some(sc as int) && sc < t.len(),
                    None => e == out@.subrange(pre.len() as int, out@.len() as int) + ej && st
                        == stj,
                }
            }),
        decreases m - j,
    {
        let c = t.nodes[n].children[j];
        assert(n < c < t.len());
        let ghost before = out@;
        let st = rename_node(t, code, name, orig, c, out);
        proof {
            let (ec, stc) = spec_rename_node(*t, code@, name@, orig as int, c as int);
            assert(out@ =~= before + ec);
            assert(out@.subrange(0, pre.len() as int) =~= pre);
            assert(out@.subrange(pre.len() as int, out@.len() as int) =~= before.subrange(
                pre.len() as int,
                before.len() as int,
            ) + ec);
            let (ej, stj) = spec_rename_kids(*t, code@, name@, orig as int, n as int, j as int);
            let (ej1, stj1) = spec_rename_kids(
                *t,
                code@,
                name@,
                orig as int,
                n as int,
                j + 1,
            );
            assert(t.node(n as int).children@[j as int] == c);
            match stc {
                Some(sc) => {
                    assert(ej == ec && stj == Some(sc));
                },
                None => {
                    assert(ej == ec + ej1 && stj == stj1);
                    let (e0, _st0) = spec_rename_kids(*t, code@, name@, orig as int, n as int, 0);
                    assert(e0 =~= (before.subrange(pre.len() as int, before.len() as int) + ec)
                        + ej1);
                },
            }
        }
        match st {
            Some(sc) => {
                kid_stop = Some(sc);
            },
            None => {},
        }
        j = j + 1;
    }
    let ghost e0st0 = spec_rename_kids(*t, code@, name@, orig as int, n as int, 0);
    proof {
        assert(out@ =~= out@.subrange(0, pre.len() as int) + out@.subrange(
            pre.len() as int,
            out@.len() as int,
        ));
        if kid_stop is None {
            assert(j == m);
            let (em, stm) = spec_rename_kids(*t, code@, name@, orig as int, n as int, m as int);
            assert(em =~= Seq::<SrcRange>::empty());
            assert(e0st0.0 =~= out@.subrange(pre.len() as int, out@.len() as int) + em);
            assert(e0st0.0 =~= out@.subrange(pre.len() as int, out@.len() as int));
        }
        assert(out@ =~= pre + e0st0.0);
    }
    match kid_stop {
        Some(sc) => {
            if sc == n {
                proof {
                    assert(spec_rename_node(*t, code@, name@, orig as int, n as int) == (
                    e0st0.0,
                    None::<int>,
                ));
                }
                return None;
            } else {
                proof {
                    assert(spec_rename_node(*t, code@, name@, orig as int, n as int) == (
                    e0st0.0,
                    Some(sc as int),
                ));
                }
                return Some(sc);
            }
        },
        None => {},
    }
    let hit = kind_eq(t.kind(n), NodeKind::Identifier) && {
        let txt = t.node_text(code, n);
        bytes_eq(txt.as_slice(), name.as_slice())
    };
    if hit {
        let is_lhs = match t.parent_of(n) {
            Some(p) => kind_eq(t.kind(p), NodeKind::Assignment),
            None => false,
        };
        if is_lhs && n != orig {
            match find_node_scope(t, n) {
                Some(sc) => {
                    proof {
                        assert(spec_rename_node(*t, code@, name@, orig as int, n as int) == (
                        e0st0.0,
                        Some(sc as int),
                    ));
                    }
                    return Some(sc);
                },
                None => {
                    proof {
                        assert(spec_rename_node(*t, code@, name@, orig as int, n as int) == (
                        e0st0.0,
                        None::<int>,
                    ));
                    }
                    return None;
                },
            }
        } else {
            out.push(t.src_range(n));
            proof {
                let (e, _s) = spec_rename_node(*t, code@, name@, orig as int, n as int);
                assert(e =~= e0st0.0 + seq![
                    SrcRange { start: t.node(n as int).start, end: t.node(n as int).end },
                ]);
                assert(out@ =~= old(out)@ + e);
            }
            return None;
        }
    }
    proof {
        assert(spec_rename_node(*t, code@, name@, orig as int, n as int) == (
        e0st0.0,
        None::<int>,
        ));
    }
    None
}

/// Compute the shadow-respecting rename edits for the identifier at node
/// `start`: every identifier with the same name in the nearest enclosing
/// scope is replaced, except shadowing redeclarations and everything after
/// them inside their own scopes. None if `start` is not an identifier — the
/// caller reports an invalid request.
pub fn rename_edits(t: &SyntaxTree, code: &Vec<u8>, start: usize) -> (r: Option<Vec<SrcRange>>)
    requires
        t.wf(),
        t.within_text(code@.len() as int),
        0 <= start < t.len(),
    ensures
        match r {
            Some(edits) => {
                &&& t.node(start as int).kind == NodeKind::Identifier
                &&& spec_node_scope(*t, start as int) matches Some(sc) && edits@
                    == spec_rename_node(
                    *t,
                    code@,
                    t.spec_node_text(code@, start as int),
                    start as int,
                    sc,
                ).0
            },
            None => t.node(start as int).kind != NodeKind::Identifier || spec_node_scope(
                *t,
                start as int,
            ) is None,
        },
{
    if !kind_eq(t.kind(start), NodeKind::Identifier) {
        return None;
    }
    let name = t.node_text(code, start);
    let scope = match find_node_scope(t, start) {
        Some(s) => s,
        None => {
            return None;
        },
    };
    let mut out: Vec<SrcRange> = Vec::new();
    let _ = rename_node(t, code, &name, start, scope, &mut out);
    proof {
        let (e, _s) = spec_rename_node(
            *t,
            code@,
            t.spec_node_text(code@, start as int),
            start as int,
            scope as int,
        );
        assert(out@ =~= Seq::<SrcRange>::empty() + e);
    }
    Some(out)
}

} // verus!
