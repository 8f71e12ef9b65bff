//! Scope resolution: what a name means at a point.
//!
//! From a reference node the resolver scans preceding siblings only, then
//! ascends, so a declaration is visible only after its point of use within a
//! block; at the root the document's whole top-level item list applies, and
//! then each resolved include target is searched recursively, bounded by a
//! maximum depth that also breaks include cycles. First-match mode returns
//! the lexically nearest declaration; collect-all mode returns every visible
//! one, duplicates across files preserved.

use vstd::prelude::*;

verus! {

use crate::bytes::bytes_eq;
use crate::extract::spec_extract_items;
use crate::inc::{extract_inc_edges, paths_view, spec_inc_edges};
use crate::item::{
    items_view, spec_parse_item, Item, ItemKind, ItemKindV, ItemV, Param, ParamV, params_view,
};
use crate::store::{lemma_frozen_docview, store_frozen, DocumentStore};
use crate::tree::{NodeKind, SyntaxTree};

/// The frozen projection of a document that scope resolution reads.
pub struct DocView {
    pub tree: SyntaxTree,
    pub code: Seq<u8>,
    pub is_builtin: bool,
    pub external_builtin: bool,
}

/// A name predicate: match everything (completion) or one exact name
/// (hover, goto-definition).
pub enum Predicate {
    Any,
    ExactName(Vec<u8>),
}

/// Spec view of a predicate.
pub enum PredicateV {
    Any,
    ExactName(Seq<u8>),
}

impl View for Predicate {
    type V = PredicateV;

    open spec fn view(&self) -> PredicateV {
        match self {
            Predicate::Any => PredicateV::Any,
            Predicate::ExactName(n) => PredicateV::ExactName(n@),
        }
    }
}

pub open spec fn pred_matches(p: PredicateV, name: Seq<u8>) -> bool {
    match p {
        PredicateV::Any => true,
        PredicateV::ExactName(n) => name == n,
    }
}

/// Whether the predicate matches a name.
pub fn matches_pred(p: &Predicate, name: &Vec<u8>) -> (r: bool)
    ensures
        r == pred_matches(p@, name@),
{
    match p {
        Predicate::Any => true,
        Predicate::ExactName(n) => bytes_eq(name.as_slice(), n.as_slice()),
    }
}

/// At most the first element, for first-match mode.
pub open spec fn cut1(s: Seq<ItemV>) -> Seq<ItemV> {
    if s.len() == 0 {
        s
    } else {
        seq![s[0]]
    }
}

pub open spec fn cut(s: Seq<ItemV>, findall: bool) -> Seq<ItemV> {
    if findall {
        s
    } else {
        cut1(s)
    }
}

/// The synthetic local-variable item for a formal parameter.
pub open spec fn spec_param_item(p: ParamV, path: Seq<u8>) -> ItemV {
    ItemV {
        name: p.name,
        kind: ItemKindV::Variable,
        range: p.range,
        url: Some(path),
        is_builtin: false,
        doc: None,
    }
}

/// The matching parameters of a declaration, from slot `i` on, as synthetic
/// local variables.
pub open spec fn spec_param_matches(
    ps: Seq<ParamV>,
    i: int,
    pred: PredicateV,
    path: Seq<u8>,
) -> Seq<ItemV>
    decreases ps.len() - i,
{
    if i < 0 || i >= ps.len() {
        Seq::empty()
    } else if pred_matches(pred, ps[i].name) {
        seq![spec_param_item(ps[i], path)] + spec_param_matches(ps, i + 1, pred, path)
    } else {
        spec_param_matches(ps, i + 1, pred, path)
    }
}

/// What one node on the walk contributes: the formal parameters of a
/// function/module declaration whose range reaches past the reference
/// (we are inside it), then, below the top level, the declaration's own name.
pub open spec fn spec_node_matches(
    t: SyntaxTree,
    code: Seq<u8>,
    path: Seq<u8>,
    pred: PredicateV,
    start_byte: int,
    c: int,
    top_level: bool,
) -> Seq<ItemV> {
    match spec_parse_item(t, code, c) {
        Some(it) => {
            let params = match it.kind {
                ItemKindV::Module { flags: _, params } => params,
                ItemKindV::Function { flags: _, params } => params,
                _ => Seq::empty(),
            };
            let psyn = if t.node(c).end_byte > start_byte {
                spec_param_matches(params, 0, pred, path)
            } else {
                Seq::empty()
            };
            if !top_level && pred_matches(pred, it.name) {
                psyn + seq![
                    ItemV {
                        name: it.name,
                        kind: it.kind,
                        range: it.range,
                        url: Some(path),
                        is_builtin: it.is_builtin,
                        doc: it.doc,
                    },
                ]
            } else {
                psyn
            }
        },
        None => Seq::empty(),
    }
}

/// Every local match of the walk from node `c`: the node's own
/// contributions, then the preceding siblings leftward, then the enclosing
/// levels outward; nothing positional at the root level.
pub open spec fn spec_walk(
    t: SyntaxTree,
    code: Seq<u8>,
    path: Seq<u8>,
    pred: PredicateV,
    start_byte: int,
    c: int,
) -> Seq<ItemV>
    decreases c,
{
    if !(0 <= c < t.len()) || !t.wf() {
        Seq::empty()
    } else {
        match t.node(c).parent {
            None => Seq::empty(),
            Some(p) => {
                let here = spec_node_matches(t, code, path, pred, start_byte, c, p == 0);
                let rest = if p == 0 {
                    Seq::empty()
                } else {
                    match t.spec_prev_sibling(c) {
                        Some(s) => if 0 <= s < c {
                            spec_walk(t, code, path, pred, start_byte, s)
                        } else {
                            Seq::empty()
                        },
                        None => if p < c {
                            spec_walk(t, code, path, pred, start_byte, p as int)
                        } else {
                            Seq::empty()
                        },
                    }
                };
                here + rest
            },
        }
    }
}

/// The top-level items whose names match, from slot `i` on.
pub open spec fn spec_top_matches(items: Seq<ItemV>, i: int, pred: PredicateV) -> Seq<ItemV>
    decreases items.len() - i,
{
    if i < 0 || i >= items.len() {
        Seq::empty()
    } else if pred_matches(pred, items[i].name) {
        seq![items[i]] + spec_top_matches(items, i + 1, pred)
    } else {
        spec_top_matches(items, i + 1, pred)
    }
}

/// Every visible declaration matching `pred` from the reference node `start`
/// in the document at `path`: innermost scopes first, then the document's
/// top-level items, then each resolved include target in order, recursively,
/// within the depth bound. In first-match mode the lexically nearest match
/// alone is returned.
pub open spec fn spec_find_identities(
    s: DocumentStore,
    path: Seq<u8>,
    start: int,
    pred: PredicateV,
    findall: bool,
    depth: int,
    max_depth: int,
) -> Seq<ItemV>
    decreases max_depth - depth, 1int, 0int,
{
    if depth >= max_depth {
        Seq::empty()
    } else {
        match s.docview_of(path) {
            None => Seq::empty(),
            Some(dv) => {
                if !(0 <= start < dv.tree.len()) {
                    Seq::empty()
                } else {
                    let loc = cut(
                        spec_walk(
                            dv.tree,
                            dv.code,
                            path,
                            pred,
                            dv.tree.node(start).start_byte as int,
                            start,
                        ),
                        findall,
                    );
                    let top = cut(
                        spec_top_matches(
                            spec_extract_items(
                                dv.tree,
                                dv.code,
                                dv.is_builtin,
                                dv.external_builtin,
                                path,
                            ),
                            0,
                            pred,
                        ),
                        findall,
                    );
                    let edges = spec_inc_edges(
                        dv.tree,
                        dv.code,
                        path,
                        paths_view(s.libs@),
                        s.spec_resident(),
                    );
                    let incs = if depth == 0 {
                        seq![s.builtin_path@] + edges
                    } else {
                        edges
                    };
                    if !findall {
                        if loc.len() > 0 {
                            loc
                        } else if top.len() > 0 {
                            top
                        } else {
                            spec_incs_scan(s, incs, 0, pred, findall, depth, max_depth)
                        }
                    } else {
                        loc + top + spec_incs_scan(s, incs, 0, pred, findall, depth, max_depth)
                    }
                }
            },
        }
    }
}

/// The matches contributed by the include targets from slot `i` on; an
/// unavailable target is skipped as unresolved.
pub open spec fn spec_incs_scan(
    s: DocumentStore,
    incs: Seq<Seq<u8>>,
    i: int,
    pred: PredicateV,
    findall: bool,
    depth: int,
    max_depth: int,
) -> Seq<ItemV>
    decreases max_depth - depth, 0int, incs.len() - i,
{
    if i < 0 || i >= incs.len() || depth >= max_depth {
        Seq::empty()
    } else {
        let sub = spec_find_identities(s, incs[i], 0, pred, findall, depth + 1, max_depth);
        if !findall && sub.len() > 0 {
            sub
        } else {
            sub + spec_incs_scan(s, incs, i + 1, pred, findall, depth, max_depth)
        }
    }
}

/// Collect the matching parameters of a declaration as synthetic locals.
fn push_param_matches(
    out: &mut Vec<Item>,
    ps: &Vec<Param>,
    pred: &Predicate,
    path: &Vec<u8>,
    findall: bool,
) -> (stop: bool)
    ensures
        !stop ==> items_view(final(out)@) == items_view(old(out)@) + spec_param_matches(
            params_view(ps@),
            0,
            pred@,
            path@,
        ),
        stop ==> !findall && items_view(final(out)@) == items_view(old(out)@) + cut1(
            spec_param_matches(params_view(ps@), 0, pred@, path@),
        ) && cut1(spec_param_matches(params_view(ps@), 0, pred@, path@)).len() > 0,
        !stop && !findall ==> spec_param_matches(params_view(ps@), 0, pred@, path@).len() == 0,
        forall|i: int|
            0 <= i < old(out)@.len() ==> final(out)@[i] == old(out)@[i],
        final(out)@.len() >= old(out)@.len(),
        forall|i: int|
            old(out)@.len() <= i < final(out)@.len() ==> (#[trigger] final(out)@[i]).label is None
                && final(out)@[i].hover is None,
{
    let n = ps.len();
    let mut i: usize = 0;
    while i < n
        invariant
            n == ps@.len(),
            0 <= i <= n,
            items_view(out@) == items_view(old(out)@) + spec_param_matches(
                params_view(ps@),
                0,
                pred@,
                path@,
            ).take(
                (items_view(out@).len() - items_view(old(out)@).len()) as int,
            ),
            spec_param_matches(params_view(ps@), 0, pred@, path@) == spec_param_matches(
                params_view(ps@),
                0,
                pred@,
                path@,
            ).take((items_view(out@).len() - items_view(old(out)@).len()) as int)
                + spec_param_matches(params_view(ps@), i as int, pred@, path@),
            out@.len() >= old(out)@.len(),
            !findall ==> out@.len() == old(out)@.len(),
            forall|k: int| 0 <= k < old(out)@.len() ==> out@[k] == old(out)@[k],
            forall|k: int|
                old(out)@.len() <= k < out@.len() ==> (#[trigger] out@[k]).label is None
                    && out@[k].hover is None,
        decreases n - i,
    {
        assert(params_view(ps@)[i as int] == ps@[i as int]@);
        let p = &ps[i];
        if matches_pred(pred, &p.name) {
            let nm = crate::bytes::byte_range(&p.name, 0, p.name.len());
            assert(nm@ =~= p.name@);
            let u = crate::bytes::byte_range(path, 0, path.len());
            assert(u@ =~= path@);
            let it = Item {
                name: nm,
                kind: ItemKind::Variable,
                range: p.range,
                url: Some(u),
                is_builtin: false,
                doc: None,
                label: None,
                hover: None,
            };
            assert(it@ == spec_param_item(ps@[i as int]@, path@));
            proof {
                crate::item::lemma_items_view_push(out@, it);
            }
            out.push(it);
            proof {
                let full = spec_param_matches(params_view(ps@), 0, pred@, path@);
                let done = (items_view(out@).len() - items_view(old(out)@).len()) as int;
                assert(items_view(out@) =~= items_view(old(out)@) + full.take(done));
                assert(full =~= full.take(done) + spec_param_matches(
                    params_view(ps@),
                    i + 1,
                    pred@,
                    path@,
                ));
            }
            if !findall {
                proof {
                    let full = spec_param_matches(params_view(ps@), 0, pred@, path@);
                    assert(full.len() > 0);
                    assert(cut1(full) =~= full.take(1));
                    assert(items_view(out@) =~= items_view(old(out)@) + cut1(full));
                }
                return true;
            }
        } else {
            proof {
                let full = spec_param_matches(params_view(ps@), 0, pred@, path@);
                let done = (items_view(out@).len() - items_view(old(out)@).len()) as int;
                assert(full =~= full.take(done) + spec_param_matches(
                    params_view(ps@),
                    i + 1,
                    pred@,
                    path@,
                ));
            }
        }
        i = i + 1;
    }
    proof {
        let full = spec_param_matches(params_view(ps@), 0, pred@, path@);
        let done = (items_view(out@).len() - items_view(old(out)@).len()) as int;
        assert(spec_param_matches(params_view(ps@), n as int, pred@, path@) =~= Seq::<
            ItemV,
        >::empty());
        assert(full =~= full.take(done));
        assert(items_view(out@) =~= items_view(old(out)@) + full);
    }
    false
}

/// Collect what one node on the walk contributes; in first-match mode stop
/// at the first match.
fn push_node_matches(
    out: &mut Vec<Item>,
    t: &SyntaxTree,
    code: &Vec<u8>,
    path: &Vec<u8>,
    pred: &Predicate,
    findall: bool,
    start_byte: usize,
    c: usize,
    top_level: bool,
) -> (stop: bool)
    requires
        t.wf(),
        t.within_text(code@.len() as int),
        0 <= c < t.len(),
        !findall ==> old(out)@.len() == 0,
        forall|i: int| 0 <= i < old(out)@.len() ==> (#[trigger] old(out)@[i]).wf(),
    ensures
        ({
            let here = spec_node_matches(
                *t,
                code@,
                path@,
                pred@,
                start_byte as int,
                c as int,
                top_level,
            );
            &&& (!stop ==> items_view(final(out)@) == items_view(old(out)@) + here && (!findall
                ==> here.len() == 0))
            &&& (stop ==> !findall && here.len() > 0 && items_view(final(out)@) == cut1(here))
        }),
        forall|i: int| 0 <= i < final(out)@.len() ==> (#[trigger] final(out)@[i]).wf(),
{
    let ghost here = spec_node_matches(
        *t,
        code@,
        path@,
        pred@,
        start_byte as int,
        c as int,
        top_level,
    );
    let it = match Item::parse(t, code, c) {
        Some(it) => it,
        None => {
            assert(here =~= Seq::<ItemV>::empty());
            assert(items_view(out@) =~= items_view(old(out)@) + here);
            return false;
        },
    };
    let ghost itv = spec_parse_item(*t, code@, c as int).unwrap();
    let ghost psyn = if t.node(c as int).end_byte > start_byte as int {
        spec_param_matches(
            match itv.kind {
                ItemKindV::Module { flags: _, params } => params,
                ItemKindV::Function { flags: _, params } => params,
                _ => Seq::empty(),
            },
            0,
            pred@,
            path@,
        )
    } else {
        Seq::<ItemV>::empty()
    };
    let in_range = t.nodes[c].end_byte > start_byte;
    let stop = match &it.kind {
        ItemKind::Module { flags: _, params } => {
            if in_range {
                push_param_matches(out, params, pred, path, findall)
            } else {
                false
            }
        },
        ItemKind::Function { flags: _, params } => {
            if in_range {
                push_param_matches(out, params, pred, path, findall)
            } else {
                false
            }
        },
        _ => false,
    };
    let ghost ownpart: Seq<ItemV> = if !top_level && pred_matches(pred@, itv.name) {
        seq![
            ItemV {
                name: itv.name,
                kind: itv.kind,
                range: itv.range,
                url: Some(path@),
                is_builtin: itv.is_builtin,
                doc: itv.doc,
            },
        ]
    } else {
        Seq::empty()
    };
    proof {
        assert(here == psyn + ownpart);
    }
    if stop {
        proof {
            assert(psyn.len() > 0);
            assert((psyn + ownpart)[0] == psyn[0]);
            assert(cut1(here) =~= cut1(psyn));
        }
        return true;
    }
    assert(items_view(out@) =~= items_view(old(out)@) + psyn);
    if !top_level && matches_pred(pred, &it.name) {
        let mut own = it;
        let u = crate::bytes::byte_range(path, 0, path.len());
        assert(u@ =~= path@);
        own.url = Some(u);
        assert(own@ == ItemV {
            name: itv.name,
            kind: itv.kind,
            range: itv.range,
            url: Some(path@),
            is_builtin: itv.is_builtin,
            doc: itv.doc,
        });
        assert(own.wf());
        proof {
            crate::item::lemma_items_view_push(out@, own);
        }
        out.push(own);
        proof {
            assert(ownpart =~= seq![own@]);
            assert(items_view(out@) =~= items_view(old(out)@) + here);
        }
        if !findall {
            proof {
                assert(psyn.len() == 0);
                assert(here.len() > 0);
                assert(here =~= ownpart);
                assert(here[0] == own@);
                assert(items_view(out@) =~= cut1(here));
            }
            return true;
        }
        false
    } else {
        proof {
            assert(ownpart =~= Seq::<ItemV>::empty());
            assert(here =~= psyn);
            assert(items_view(out@) =~= items_view(old(out)@) + here);
        }
        false
    }
}

/// The local-scope walk: collect every match from the reference node's
/// preceding siblings and enclosing scopes, innermost first; in first-match
/// mode, only the nearest one.
#[verifier::rlimit(100)]
#[verifier::spinoff_prover]
fn walk_scope(
    t: &SyntaxTree,
    code: &Vec<u8>,
    path: &Vec<u8>,
    pred: &Predicate,
    findall: bool,
    start: usize,
) -> (r: Vec<Item>)
    requires
        t.wf(),
        t.within_text(code@.len() as int),
        0 <= start < t.len(),
    ensures
        items_view(r@) == cut(
            spec_walk(*t, code@, path@, pred@, t.node(start as int).start_byte as int, start as int),
            findall,
        ),
        forall|i: int| 0 <= i < r@.len() ==> (#[trigger] r@[i]).wf(),
{
    let ghost sb = t.node(start as int).start_byte as int;
    let start_byte = t.nodes[start].start_byte;
    let mut out: Vec<Item> = Vec::new();
    let mut c = start;
    assert(items_view(out@) =~= Seq::<ItemV>::empty());
    loop
        invariant_except_break
            findall ==> items_view(out@) + spec_walk(*t, code@, path@, pred@, sb, c as int)
                == spec_walk(*t, code@, path@, pred@, sb, start as int),
            !findall ==> out@.len() == 0 && spec_walk(*t, code@, path@, pred@, sb, c as int)
                == spec_walk(*t, code@, path@, pred@, sb, start as int),
        invariant
            t.wf(),
            t.within_text(code@.len() as int),
            0 <= c < t.len(),
            start_byte as int == sb,
            0 <= start < t.len(),
            sb == t.node(start as int).start_byte as int,
            forall|i: int| 0 <= i < out@.len() ==> (#[trigger] out@[i]).wf(),
        ensures
            items_view(out@) == cut(
                spec_walk(*t, code@, path@, pred@, sb, start as int),
                findall,
            ),
        decreases c,
    {
        let p = match t.parent_of(c) {
            None => {
                proof {
                    assert(spec_walk(*t, code@, path@, pred@, sb, c as int) =~= Seq::<
                        ItemV,
                    >::empty());
                    if findall {
                        assert(items_view(out@) =~= spec_walk(
                            *t,
                            code@,
                            path@,
                            pred@,
                            sb,
                            start as int,
                        ));
                    } else {
                        assert(items_view(out@) =~= cut1(
                            spec_walk(*t, code@, path@, pred@, sb, start as int),
                        ));
                    }
                }
                break ;
            },
            Some(p) => p,
        };
        assert(t.wf_at(c as int));
        let ghost here = spec_node_matches(*t, code@, path@, pred@, sb, c as int, p == 0);
        let ghost pre_node = items_view(out@);
        let stop = push_node_matches(&mut out, t, code, path, pred, findall, start_byte, c, p == 0);
        if stop {
            proof {
                assert(spec_walk(*t, code@, path@, pred@, sb, c as int) == here + (spec_walk(
                    *t,
                    code@,
                    path@,
                    pred@,
                    sb,
                    c as int,
                ).subrange(here.len() as int, spec_walk(*t, code@, path@, pred@, sb, c as int).len() as int)));
                assert(here.len() > 0);
                assert(cut1(spec_walk(*t, code@, path@, pred@, sb, c as int)) =~= cut1(here));
                assert(items_view(out@) =~= cut1(
                    spec_walk(*t, code@, path@, pred@, sb, start as int),
                ));
            }
            return out;
        }
        if p == 0 {
            proof {
                assert(spec_walk(*t, code@, path@, pred@, sb, c as int) =~= here + Seq::<
                    ItemV,
                >::empty());
                assert(spec_walk(*t, code@, path@, pred@, sb, c as int) =~= here);
                if findall {
                    assert(items_view(out@) =~= spec_walk(
                        *t,
                        code@,
                        path@,
                        pred@,
                        sb,
                        start as int,
                    ));
                } else {
                    assert(here.len() == 0);
                    assert(items_view(out@).len() == 0);
                    assert(items_view(out@) =~= cut1(
                        spec_walk(*t, code@, path@, pred@, sb, start as int),
                    ));
                }
            }
            break ;
        }
        match t.prev_sibling(c) {
            Some(sx) => {
                proof {
                    assert(spec_walk(*t, code@, path@, pred@, sb, c as int) == here + spec_walk(
                        *t,
                        code@,
                        path@,
                        pred@,
                        sb,
                        sx as int,
                    ));
                    if !findall {
                        assert(here.len() == 0);
                        assert(here + spec_walk(*t, code@, path@, pred@, sb, sx as int)
                            =~= spec_walk(*t, code@, path@, pred@, sb, sx as int));
                    } else {
                        assert(items_view(out@) == pre_node + here);
                        assert(pre_node + spec_walk(*t, code@, path@, pred@, sb, c as int)
                            == spec_walk(*t, code@, path@, pred@, sb, start as int));
                        assert((pre_node + here) + spec_walk(*t, code@, path@, pred@, sb, sx as int)
                            =~= pre_node + (here + spec_walk(
                            *t,
                            code@,
                            path@,
                            pred@,
                            sb,
                            sx as int,
                        )));
                        assert(items_view(out@) + spec_walk(*t, code@, path@, pred@, sb, sx as int)
                            == spec_walk(*t, code@, path@, pred@, sb, start as int));
                    }
                }
                c = sx;
            },
            None => {
                proof {
                    assert(spec_walk(*t, code@, path@, pred@, sb, c as int) == here + spec_walk(
                        *t,
                        code@,
                        path@,
                        pred@,
                        sb,
                        p as int,
                    ));
                    if !findall {
                        assert(here.len() == 0);
                        assert(here + spec_walk(*t, code@, path@, pred@, sb, p as int)
                            =~= spec_walk(*t, code@, path@, pred@, sb, p as int));
                    } else {
                        assert((pre_node + here) + spec_walk(*t, code@, path@, pred@, sb, p as int)
                            =~= pre_node + (here + spec_walk(
                            *t,
                            code@,
                            path@,
                            pred@,
                            sb,
                            p as int,
                        )));
                    }
                }
                c = p;
            },
        }
    }
    out
}

/// Append the top-level items whose names match; in first-match mode stop at
/// the first.
fn push_top_matches(
    out: &mut Vec<Item>,
    items: &Vec<Item>,
    pred: &Predicate,
    findall: bool,
) -> (stop: bool)
    requires
        old(out)@.len() == 0,
        forall|i: int| 0 <= i < items@.len() ==> (#[trigger] items@[i]).wf(),
    ensures
        items_view(final(out)@) == cut(spec_top_matches(items_view(items@), 0, pred@), findall),
        stop == (!findall && cut(spec_top_matches(items_view(items@), 0, pred@), findall).len()
            > 0),
        forall|i: int| 0 <= i < final(out)@.len() ==> (#[trigger] final(out)@[i]).wf(),
{
    let n = items.len();
    let mut i: usize = 0;
    while i < n
        invariant
            n == items@.len(),
            0 <= i <= n,
            forall|k: int| 0 <= k < items@.len() ==> (#[trigger] items@[k]).wf(),
            !findall ==> out@.len() == 0,
            spec_top_matches(items_view(items@), 0, pred@) == items_view(out@)
                + spec_top_matches(items_view(items@), i as int, pred@),
            forall|k: int| 0 <= k < out@.len() ==> (#[trigger] out@[k]).wf(),
        decreases n - i,
    {
        assert(items_view(items@)[i as int] == items@[i as int]@);
        if matches_pred(pred, &items[i].name) {
            let c = items[i].duplicate();
            proof {
                crate::item::lemma_items_view_push(out@, c);
            }
            out.push(c);
            if !findall {
                proof {
                    let full = spec_top_matches(items_view(items@), 0, pred@);
                    assert(items_view(out@) =~= cut1(full));
                }
                return true;
            }
        }
        i = i + 1;
    }
    proof {
        let full = spec_top_matches(items_view(items@), 0, pred@);
        assert(spec_top_matches(items_view(items@), n as int, pred@) =~= Seq::<ItemV>::empty());
        assert(items_view(out@) =~= full);
        if !findall {
            assert(full.len() == 0);
            assert(items_view(out@) =~= cut(full, findall));
        }
    }
    false
}

/// Resolve a name reference: every visible declaration matching `pred` from
/// `start` in the document at `path`, walking enclosing scopes outward, then
/// the document's top-level items, then each resolved include target
/// recursively within `max_depth`. See `spec_find_identities` for the exact
/// result.
#[verifier::rlimit(60)]
pub fn find_identities(
    store: &mut DocumentStore,
    path: &Vec<u8>,
    start: usize,
    pred: &Predicate,
    findall: bool,
    depth: usize,
    max_depth: usize,
) -> (r: Vec<Item>)
    requires
        old(store).inv(),
    ensures
        final(store).inv(),
        store_frozen(*old(store), *final(store)),
        items_view(r@) == spec_find_identities(
            *old(store),
            path@,
            start as int,
            pred@,
            findall,
            depth as int,
            max_depth as int,
        ),
        forall|i: int| 0 <= i < r@.len() ==> (#[trigger] r@[i]).wf(),
    decreases max_depth - depth,
{
    let ghost s0 = *old(store);
    if depth >= max_depth {
        return Vec::new();
    }
    let slot = match store.find_slot(path) {
        Some(s) => s,
        None => {
            return Vec::new();
        },
    };
    let ghost dv = s0.docview_of(path@).unwrap();
    store.gen_items_for(slot);
    proof {
        lemma_frozen_docview(s0, *store, path@);
        crate::store::lemma_frozen_resident_from(s0, *store, 0);
    }
    let mut result: Vec<Item> = Vec::new();
    let mut inc_vec: Vec<Vec<u8>> = Vec::new();
    let ghost mut walk_part: Seq<ItemV> = Seq::empty();
    let ghost mut top_part: Seq<ItemV> = Seq::empty();
    {
        let d = match store.get_ref(slot) {
            Some(d) => d,
            None => {
                return vstd::pervasive::unreached();
            },
        };
        assert(d.tree == dv.tree && d.code@ == dv.code);
        if start >= d.tree.node_count() {
            let rr: Vec<Item> = Vec::new();
            assert(items_view(rr@) =~= Seq::<ItemV>::empty());
            return rr;
        }
        let loc = walk_scope(&d.tree, &d.code, path, pred, findall, start);
        proof {
            walk_part = items_view(loc@);
            assert(walk_part == cut(
                spec_walk(dv.tree, dv.code, path@, pred@, dv.tree.node(start as int).start_byte as int, start as int),
                findall,
            ));
        }
        let found_local = loc.len() > 0;
        result = loc;
        if !findall && found_local {
            proof {
                assert(items_view(result@) == spec_find_identities(
                    s0,
                    path@,
                    start as int,
                    pred@,
                    findall,
                    depth as int,
                    max_depth as int,
                ));
            }
            return result;
        }
        assert(!findall ==> walk_part.len() == 0);
        let items = match &d.root_items {
            Some(items) => items,
            None => {
                return vstd::pervasive::unreached();
            },
        };
        assert(items_view(items@) == spec_extract_items(
            dv.tree,
            dv.code,
            dv.is_builtin,
            dv.external_builtin,
            path@,
        ));
        let mut top: Vec<Item> = Vec::new();
        let stop = push_top_matches(&mut top, items, pred, findall);
        proof {
            top_part = items_view(top@);
        }
        let m = top.len();
        let mut k: usize = 0;
        let ghost pre_top = items_view(result@);
        while k < m
            invariant
                m == top@.len(),
                0 <= k <= m,
                items_view(result@) == pre_top + items_view(top@).take(k as int),
                forall|j: int| 0 <= j < top@.len() ==> (#[trigger] top@[j]).wf(),
                forall|j: int| 0 <= j < result@.len() ==> (#[trigger] result@[j]).wf(),
            decreases m - k,
        {
            let c = top[k].duplicate();
            proof {
                crate::item::lemma_items_view_push(result@, c);
                assert(items_view(top@).take(k + 1 as int) =~= items_view(top@).take(
                    k as int,
                ).push(top@[k as int]@));
            }
            result.push(c);
            k = k + 1;
        }
        proof {
            assert(items_view(top@).take(m as int) =~= items_view(top@));
            assert(items_view(result@) == walk_part + top_part);
        }
        if stop {
            proof {
                assert(walk_part.len() == 0);
                assert(items_view(result@) =~= top_part);
                assert(items_view(result@) == spec_find_identities(
                    s0,
                    path@,
                    start as int,
                    pred@,
                    findall,
                    depth as int,
                    max_depth as int,
                ));
            }
            return result;
        }
        assert(!findall ==> top_part.len() == 0);
        // include edges, re-derived against the current resident set
        let avail = store.resident_paths();
        if depth == 0 {
            let b = crate::bytes::byte_range(&store.builtin_path, 0, store.builtin_path.len());
            assert(b@ =~= s0.builtin_path@);
            inc_vec.push(b);
        }
        let d2 = match store.get_ref(slot) {
            Some(d) => d,
            None => {
                return vstd::pervasive::unreached();
            },
        };
        assert(d2.tree == dv.tree && d2.code@ == dv.code);
        let edges = extract_inc_edges(&d2.tree, &d2.code, path, &store.libs, &avail);
        proof {
            assert(paths_view(store.libs@) == paths_view(s0.libs@));
            assert(paths_view(avail@) == s0.spec_resident());
        }
        let ne = edges.len();
        let mut ei: usize = 0;
        let ghost pre_inc = paths_view(inc_vec@);
        while ei < ne
            invariant
                ne == edges@.len(),
                0 <= ei <= ne,
                paths_view(inc_vec@) == pre_inc + paths_view(edges@).take(ei as int),
            decreases ne - ei,
        {
            let ghost before = paths_view(inc_vec@);
            let e = crate::bytes::byte_range(&edges[ei], 0, edges[ei].len());
            assert(e@ =~= edges@[ei as int]@);
            inc_vec.push(e);
            proof {
                assert(paths_view(inc_vec@) =~= before.push(edges@[ei as int]@));
                assert(paths_view(edges@).take(ei + 1 as int) =~= paths_view(edges@).take(
                    ei as int,
                ).push(edges@[ei as int]@));
                assert(paths_view(inc_vec@) =~= pre_inc + paths_view(edges@).take(ei + 1 as int));
            }
            ei = ei + 1;
        }
        proof {
            assert(paths_view(edges@).take(ne as int) =~= paths_view(edges@));
        }
    }
    let ghost incs: Seq<Seq<u8>> = paths_view(inc_vec@);
    proof {
        let edges_spec = spec_inc_edges(dv.tree, dv.code, path@, paths_view(s0.libs@), s0.spec_resident());
        if depth == 0 {
            assert(incs =~= seq![s0.builtin_path@] + edges_spec);
        } else {
            assert(incs =~= edges_spec);
        }
    }
    // recurse into the include targets
    let ni = inc_vec.len();
    let mut ii: usize = 0;
    let ghost pre_rec = items_view(result@);
    let ghost mut done: Seq<ItemV> = Seq::empty();
    proof {
        assert(done + spec_incs_scan(s0, incs, 0, pred@, findall, depth as int, max_depth as int)
            =~= spec_incs_scan(s0, incs, 0, pred@, findall, depth as int, max_depth as int));
    }
    while ii < ni
        invariant
            s0 == *old(store),
            s0.inv(),
            store.inv(),
            store_frozen(s0, *store),
            ni == inc_vec@.len(),
            0 <= ii <= ni,
            incs == paths_view(inc_vec@),
            depth < max_depth,
            s0.docview_of(path@) == Some(dv),
            0 <= start < dv.tree.len(),
            walk_part == cut(
                spec_walk(
                    dv.tree,
                    dv.code,
                    path@,
                    pred@,
                    dv.tree.node(start as int).start_byte as int,
                    start as int,
                ),
                findall,
            ),
            top_part == cut(
                spec_top_matches(
                    spec_extract_items(dv.tree, dv.code, dv.is_builtin, dv.external_builtin, path@),
                    0,
                    pred@,
                ),
                findall,
            ),
            incs == (if depth == 0 {
                seq![s0.builtin_path@]
            } else {
                Seq::<Seq<u8>>::empty()
            }) + spec_inc_edges(dv.tree, dv.code, path@, paths_view(s0.libs@), s0.spec_resident()),
            pre_rec == walk_part + top_part,
            !findall ==> walk_part.len() == 0 && top_part.len() == 0,
            items_view(result@) == pre_rec + done,
            done + spec_incs_scan(s0, incs, ii as int, pred@, findall, depth as int, max_depth as int)
                == spec_incs_scan(s0, incs, 0, pred@, findall, depth as int, max_depth as int),
            !findall ==> done.len() == 0 && pre_rec.len() == 0,
            forall|j: int| 0 <= j < result@.len() ==> (#[trigger] result@[j]).wf(),
        decreases ni - ii,
    {
        let ghost s_pre = *store;
        let target = &inc_vec[ii];
        assert(paths_view(inc_vec@)[ii as int] == inc_vec@[ii as int]@);
        let sub = find_identities(store, target, 0, pred, findall, depth + 1, max_depth);
        proof {
            lemma_find_frozen(
                s0,
                s_pre,
                incs[ii as int],
                0,
                pred@,
                findall,
                depth + 1,
                max_depth as int,
            );
            crate::store::lemma_frozen_trans(s0, s_pre, *store);
            assert(items_view(sub@) == spec_find_identities(
                s0,
                incs[ii as int],
                0,
                pred@,
                findall,
                depth + 1,
                max_depth as int,
            ));
        }
        let ns = sub.len();
        let mut sk: usize = 0;
        let ghost pre_sub = items_view(result@);
        while sk < ns
            invariant
                ns == sub@.len(),
                0 <= sk <= ns,
                items_view(result@) == pre_sub + items_view(sub@).take(sk as int),
                forall|j: int| 0 <= j < sub@.len() ==> (#[trigger] sub@[j]).wf(),
                forall|j: int| 0 <= j < result@.len() ==> (#[trigger] result@[j]).wf(),
            decreases ns - sk,
        {
            let c = sub[sk].duplicate();
            proof {
                crate::item::lemma_items_view_push(result@, c);
                assert(items_view(sub@).take(sk + 1 as int) =~= items_view(sub@).take(
                    sk as int,
                ).push(sub@[sk as int]@));
            }
            result.push(c);
            sk = sk + 1;
        }
        proof {
            assert(items_view(sub@).take(ns as int) =~= items_view(sub@));
            assert(items_view(result@) =~= pre_rec + (done + items_view(sub@)));
        }
        if !findall && result.len() > 0 {
            proof {
                assert(items_view(sub@).len() > 0);
                assert(spec_incs_scan(s0, incs, ii as int, pred@, findall, depth as int,
                    max_depth as int) == items_view(sub@));
                assert(items_view(result@) =~= spec_incs_scan(
                    s0,
                    incs,
                    0,
                    pred@,
                    findall,
                    depth as int,
                    max_depth as int,
                ));
                assert(walk_part.len() == 0);
                assert(top_part.len() == 0);
                assert(items_view(result@) == spec_find_identities(
                    s0,
                    path@,
                    start as int,
                    pred@,
                    findall,
                    depth as int,
                    max_depth as int,
                ));
            }
            return result;
        }
        proof {
            done = done + items_view(sub@);
            if findall {
                assert(spec_incs_scan(s0, incs, ii as int, pred@, findall, depth as int,
                    max_depth as int) == items_view(sub@) + spec_incs_scan(
                    s0,
                    incs,
                    ii + 1,
                    pred@,
                    findall,
                    depth as int,
                    max_depth as int,
                ));
                assert(done + spec_incs_scan(s0, incs, ii + 1, pred@, findall, depth as int,
                    max_depth as int) =~= spec_incs_scan(
                    s0,
                    incs,
                    0,
                    pred@,
                    findall,
                    depth as int,
                    max_depth as int,
                ));
            } else {
                assert(items_view(sub@).len() == 0);
                assert(done.len() == 0);
                assert(spec_incs_scan(s0, incs, ii as int, pred@, findall, depth as int,
                    max_depth as int) == items_view(sub@) + spec_incs_scan(
                    s0,
                    incs,
                    ii + 1,
                    pred@,
                    findall,
                    depth as int,
                    max_depth as int,
                ));
                assert(done + spec_incs_scan(s0, incs, ii + 1, pred@, findall, depth as int,
                    max_depth as int) =~= spec_incs_scan(
                    s0,
                    incs,
                    0,
                    pred@,
                    findall,
                    depth as int,
                    max_depth as int,
                ));
            }
        }
        ii = ii + 1;
    }
    proof {
        assert(spec_incs_scan(s0, incs, ni as int, pred@, findall, depth as int, max_depth as int)
            =~= Seq::<ItemV>::empty());
        assert(done =~= spec_incs_scan(s0, incs, 0, pred@, findall, depth as int,
            max_depth as int));
        assert(items_view(result@) =~= walk_part + top_part + done);
        if !findall {
            assert(walk_part.len() == 0);
            assert(top_part.len() == 0);
            assert(items_view(result@) =~= done);
        }
        assert(items_view(result@) == spec_find_identities(
            s0,
            path@,
            start as int,
            pred@,
            findall,
            depth as int,
            max_depth as int,
        ));
    }
    result
}

proof fn lemma_top_matches_empty(items: Seq<ItemV>, j: int, name: Seq<u8>)
    requires
        forall|k: int| j <= k < items.len() ==> items[k].name != name,
    ensures
        spec_top_matches(items, j, PredicateV::ExactName(name)) == Seq::<ItemV>::empty(),
    decreases items.len() - j,
{
    if 0 <= j < items.len() {
        lemma_top_matches_empty(items, j + 1, name);
    }
}

proof fn lemma_top_matches_unique(items: Seq<ItemV>, j: int, i: int, name: Seq<u8>)
    requires
        0 <= j <= i < items.len(),
        items[i].name == name,
        forall|k: int| j <= k < items.len() && k != i ==> items[k].name != name,
    ensures
        spec_top_matches(items, j, PredicateV::ExactName(name)) == seq![items[i]],
    decreases i - j,
{
    if j == i {
        lemma_top_matches_empty(items, i + 1, name);
        assert(spec_top_matches(items, j, PredicateV::ExactName(name)) =~= seq![items[i]]);
    } else {
        lemma_top_matches_unique(items, j + 1, i, name);
    }
}

/// Scope completeness: a declaration among a document's top-level items that
/// is visible at the reference point with no shadowing — no local declaration
/// of the name, no second top-level declaration of it, and none contributed
/// by the reachable includes — is returned by a collect-all query exactly
/// once.
pub proof fn lemma_scope_completeness(
    s: DocumentStore,
    path: Seq<u8>,
    start: int,
    name: Seq<u8>,
    i: int,
    depth: int,
    max_depth: int,
)
    requires
        depth < max_depth,
        s.docview_of(path) matches Some(dv) && {
            let items = spec_extract_items(dv.tree, dv.code, dv.is_builtin, dv.external_builtin, path);
            &&& 0 <= start < dv.tree.len()
            &&& 0 <= i < items.len()
            &&& items[i].name == name
            // no shadowing: nothing local matches the name
            &&& spec_walk(
                dv.tree,
                dv.code,
                path,
                PredicateV::ExactName(name),
                dv.tree.node(start).start_byte as int,
                start,
            ) == Seq::<ItemV>::empty()
            // the name is declared at top level exactly once
            &&& (forall|k: int| 0 <= k < items.len() && k != i ==> items[k].name != name)
            // the reachable includes contribute no further declaration
            &&& spec_incs_scan(
                s,
                (if depth == 0 {
                    seq![s.builtin_path@]
                } else {
                    Seq::<Seq<u8>>::empty()
                }) + spec_inc_edges(dv.tree, dv.code, path, paths_view(s.libs@), s.spec_resident()),
                0,
                PredicateV::ExactName(name),
                true,
                depth,
                max_depth,
            ) == Seq::<ItemV>::empty()
        },
    ensures
        s.docview_of(path) matches Some(dv) && spec_find_identities(
            s,
            path,
            start,
            PredicateV::ExactName(name),
            true,
            depth,
            max_depth,
        ) == seq![
            spec_extract_items(dv.tree, dv.code, dv.is_builtin, dv.external_builtin, path)[i],
        ],
{
    let dv = s.docview_of(path).unwrap();
    let items = spec_extract_items(dv.tree, dv.code, dv.is_builtin, dv.external_builtin, path);
    lemma_top_matches_unique(items, 0, i, name);
    assert(spec_find_identities(s, path, start, PredicateV::ExactName(name), true, depth, max_depth)
        =~= seq![items[i]]);
}

/// First-match ordering: when any declaration is visible in a local scope,
/// first-match resolution returns the lexically nearest local one — the first
/// the inside-out walk meets — never a top-level or included declaration.
pub proof fn lemma_first_match_prefers_local(
    s: DocumentStore,
    path: Seq<u8>,
    start: int,
    pred: PredicateV,
    depth: int,
    max_depth: int,
)
    requires
        depth < max_depth,
        s.docview_of(path) matches Some(dv) && 0 <= start < dv.tree.len() && spec_walk(
            dv.tree,
            dv.code,
            path,
            pred,
            dv.tree.node(start).start_byte as int,
            start,
        ).len() > 0,
    ensures
        s.docview_of(path) matches Some(dv) && spec_find_identities(
            s,
            path,
            start,
            pred,
            false,
            depth,
            max_depth,
        ) == seq![
            spec_walk(
                dv.tree,
                dv.code,
                path,
                pred,
                dv.tree.node(start).start_byte as int,
                start,
            )[0],
        ],
{
    let dv = s.docview_of(path).unwrap();
    assert(spec_find_identities(s, path, start, pred, false, depth, max_depth) =~= seq![
        spec_walk(dv.tree, dv.code, path, pred, dv.tree.node(start).start_byte as int, start)[0],
    ]);
}

/// Whether a grammar kind name is a module or function call.
pub open spec fn spec_is_call_kind(name: Seq<u8>) -> bool {
    name == crate::bytes::lit("module_call") || name == crate::bytes::lit("function_call")
}

/// The call node whose argument list encloses `n`: `n`'s grandparent when it
/// is the call itself, or the argument list's parent when the grandparent is
/// the argument list.
pub open spec fn spec_enclosing_call(t: SyntaxTree, n: int) -> Option<int> {
    match t.node(n).parent {
        Some(p1) => match t.node(p1 as int).parent {
            Some(p2) => if spec_is_call_kind(t.node(p2 as int).kind_name@) {
                Some(p2 as int)
            } else if t.node(p2 as int).kind_name@ == crate::bytes::lit("arguments") {
                match t.node(p2 as int).parent {
                    Some(p3) => if spec_is_call_kind(t.node(p3 as int).kind_name@) {
                        Some(p3 as int)
                    } else {
                        None
                    },
                    None => None,
                }
            } else {
                None
            },
            None => None,
        },
        None => None,
    }
}

/// The callee name of the call whose argument list encloses `n`, so that a
/// completion inside an argument list can offer the callee's parameter
/// names.
pub open spec fn spec_enclosing_call_name(t: SyntaxTree, code: Seq<u8>, n: int) -> Option<Seq<u8>> {
    match spec_enclosing_call(t, n) {
        Some(c) => match t.spec_child_by_field(c, crate::tree::FieldName::Name) {
            Some(nm) => Some(t.spec_node_text(code, nm)),
            None => None,
        },
        None => None,
    }
}

fn is_call_kind(name: &Vec<u8>) -> (r: bool)
    ensures
        r == spec_is_call_kind(name@),
{
    crate::bytes::vec_eq_slice(name, "module_call".as_bytes()) || crate::bytes::vec_eq_slice(
        name,
        "function_call".as_bytes(),
    )
}

/// The callee name of the call whose argument list encloses `n`, if any.
pub fn enclosing_call_name(t: &SyntaxTree, code: &Vec<u8>, n: usize) -> (r: Option<Vec<u8>>)
    requires
        t.wf(),
        t.within_text(code@.len() as int),
        0 <= n < t.len(),
    ensures
        match r {
            Some(nm) => spec_enclosing_call_name(*t, code@, n as int) == Some(nm@),
            None => spec_enclosing_call_name(*t, code@, n as int) is None,
        },
{
    assert(t.wf_at(n as int));
    let p1 = match t.parent_of(n) {
        Some(p1) => p1,
        None => {
            return None;
        },
    };
    assert(t.wf_at(p1 as int));
    let p2 = match t.parent_of(p1) {
        Some(p2) => p2,
        None => {
            return None;
        },
    };
    assert(t.wf_at(p2 as int));
    let call = if is_call_kind(&t.nodes[p2].kind_name) {
        p2
    } else if crate::bytes::vec_eq_slice(&t.nodes[p2].kind_name, "arguments".as_bytes()) {
        match t.parent_of(p2) {
            Some(p3) => {
                if is_call_kind(&t.nodes[p3].kind_name) {
                    p3
                } else {
                    return None;
                }
            },
            None => {
                return None;
            },
        }
    } else {
        return None;
    };
    match t.child_by_field(call, crate::tree::FieldName::Name) {
        Some(nm) => Some(t.node_text(code, nm)),
        None => None,
    }
}

/// The formal parameters of a callable item, as the synthetic local-variable
/// items a completion offers inside its argument list.
pub fn params_as_items(it: &Item, path: &Vec<u8>) -> (r: Vec<Item>)
    ensures
        items_view(r@) == (match it@.kind {
            ItemKindV::Module { flags: _, params } => spec_param_matches(
                params,
                0,
                PredicateV::Any,
                path@,
            ),
            ItemKindV::Function { flags: _, params } => spec_param_matches(
                params,
                0,
                PredicateV::Any,
                path@,
            ),
            _ => Seq::<ItemV>::empty(),
        }),
        forall|i: int| 0 <= i < r@.len() ==> (#[trigger] r@[i]).wf(),
{
    let mut out: Vec<Item> = Vec::new();
    let pred = Predicate::Any;
    match &it.kind {
        ItemKind::Module { flags: _, params } => {
            let _ = push_param_matches(&mut out, params, &pred, path, true);
        },
        ItemKind::Function { flags: _, params } => {
            let _ = push_param_matches(&mut out, params, &pred, path, true);
        },
        _ => {
            assert(items_view(out@) =~= Seq::<ItemV>::empty());
        },
    }
    out
}

/// Frozen stores resolve identically.
pub proof fn lemma_find_frozen(
    a: DocumentStore,
    b: DocumentStore,
    path: Seq<u8>,
    start: int,
    pred: PredicateV,
    findall: bool,
    depth: int,
    max_depth: int,
)
    requires
        store_frozen(a, b),
        a.inv(),
        b.inv(),
    ensures
        spec_find_identities(a, path, start, pred, findall, depth, max_depth)
            == spec_find_identities(b, path, start, pred, findall, depth, max_depth),
    decreases max_depth - depth, 1int, 0int,
{
    if depth < max_depth {
        crate::store::lemma_frozen_docview(a, b, path);
        crate::store::lemma_frozen_resident_from(a, b, 0);
        match a.docview_of(path) {
            None => {},
            Some(dv) => {
                if 0 <= start < dv.tree.len() {
                    let edges = spec_inc_edges(
                        dv.tree,
                        dv.code,
                        path,
                        paths_view(a.libs@),
                        a.spec_resident(),
                    );
                    let incs = if depth == 0 {
                        seq![a.builtin_path@] + edges
                    } else {
                        edges
                    };
                    lemma_incs_frozen(a, b, incs, 0, pred, findall, depth, max_depth);
                }
            },
        }
    }
}

proof fn lemma_incs_frozen(
    a: DocumentStore,
    b: DocumentStore,
    incs: Seq<Seq<u8>>,
    i: int,
    pred: PredicateV,
    findall: bool,
    depth: int,
    max_depth: int,
)
    requires
        store_frozen(a, b),
        a.inv(),
        b.inv(),
    ensures
        spec_incs_scan(a, incs, i, pred, findall, depth, max_depth) == spec_incs_scan(
            b,
            incs,
            i,
            pred,
            findall,
            depth,
            max_depth,
        ),
    decreases max_depth - depth, 0int, incs.len() - i,
{
    if 0 <= i < incs.len() && depth < max_depth {
        lemma_find_frozen(a, b, incs[i], 0, pred, findall, depth + 1, max_depth);
        lemma_incs_frozen(a, b, incs, i + 1, pred, findall, depth, max_depth);
    }
}

} // verus!
