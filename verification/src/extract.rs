//! Symbol extraction: the top-level declarations of a document, with doc
//! comments attached, and its include edges.
//!
//! Only the direct children of the root are walked. A run of comment lines
//! with gaps of at most one line becomes the doc string of the next
//! declaration; a comment on the same line as the end of the previous
//! declaration is appended to that declaration's doc string instead.

use vstd::prelude::*;

verus! {

use vstd::string::StringSliceAdditionalSpecFns;
use crate::bytes::{lit, push_slice, push_str};
use crate::doc::{spec_extract_doc, extract_doc, B_NL};
use crate::item::{
    spec_parse_item, Item, ItemKind, ItemKindV, ItemV, items_view, lemma_items_view_push,
    lemma_items_view_update,
};
use crate::tree::{kind_eq, NodeKind, SyntaxTree};

/// The doc-comment accumulator carried across the walk.
pub struct ExtState {
    /// Raw text of the pending comment run.
    pub doc: Option<Seq<u8>>,
    /// End row of the last comment in the run.
    pub doc_end_row: Option<int>,
    /// End row of the last extracted declaration, if any.
    pub last_row: Option<int>,
}

pub open spec fn ext_init() -> ExtState {
    ExtState { doc: None, doc_end_row: None, last_row: None }
}

/// One comment's raw text appended to a pending run.
pub open spec fn ext_doc_append(st: ExtState, text: Seq<u8>, end_row: int) -> ExtState {
    ExtState {
        doc: match st.doc {
            Some(d) => Some(d + seq![B_NL] + text),
            None => None,
        },
        doc_end_row: Some(end_row),
        last_row: st.last_row,
    }
}

/// The items extracted from the root's children from slot `j` on, given the
/// accumulator state and the items already extracted.
pub open spec fn spec_ext_items(
    t: SyntaxTree,
    code: Seq<u8>,
    bi: bool,
    ebi: bool,
    path: Seq<u8>,
    j: int,
    st: ExtState,
    acc: Seq<ItemV>,
) -> Seq<ItemV>
    decreases t.node(0).children@.len() - j,
{
    let cs = t.node(0).children@;
    if j < 0 || j >= cs.len() {
        acc
    } else {
        let c = cs[j] as int;
        if t.node(c).kind == NodeKind::Comment {
            if st.last_row matches Some(lr) && t.node(c).start.row == lr && acc.len() > 0 {
                let newdoc = spec_extract_doc(t.spec_node_text(code, c), bi);
                let last = acc[acc.len() - 1];
                let nd = match last.doc {
                    Some(d) => d + lit("  \n") + newdoc,
                    None => lit("  \n") + newdoc,
                };
                let acc2 = acc.update(
                    acc.len() - 1,
                    ItemV {
                        name: last.name,
                        kind: last.kind,
                        range: last.range,
                        url: last.url,
                        is_builtin: last.is_builtin,
                        doc: Some(nd),
                    },
                );
                spec_ext_items(t, code, bi, ebi, path, j + 1, st, acc2)
            } else if st.doc_end_row is Some && t.node(c).end.row - st.doc_end_row.unwrap() <= 1 {
                let st2 = ext_doc_append(st, t.spec_node_text(code, c), t.node(c).end.row as int);
                spec_ext_items(t, code, bi, ebi, path, j + 1, st2, acc)
            } else {
                let st2 = ExtState {
                    doc: Some(t.spec_node_text(code, c)),
                    doc_end_row: Some(t.node(c).end.row as int),
                    last_row: st.last_row,
                };
                spec_ext_items(t, code, bi, ebi, path, j + 1, st2, acc)
            }
        } else {
            match spec_parse_item(t, code, c) {
                Some(it0) => {
                    let it = ItemV {
                        name: it0.name,
                        kind: it0.kind,
                        range: it0.range,
                        url: if !bi || ebi {
                            Some(path)
                        } else {
                            None
                        },
                        is_builtin: bi,
                        doc: match st.doc {
                            Some(d) => Some(spec_extract_doc(d, bi)),
                            None => None,
                        },
                    };
                    let st2 = ExtState {
                        doc: None,
                        doc_end_row: None,
                        last_row: Some(it0.range.end.row as int),
                    };
                    spec_ext_items(t, code, bi, ebi, path, j + 1, st2, acc.push(it))
                },
                None => {
                    let st2 = ExtState {
                        doc: None,
                        doc_end_row: None,
                        last_row: st.last_row,
                    };
                    spec_ext_items(t, code, bi, ebi, path, j + 1, st2, acc)
                },
            }
        }
    }
}

/// One language keyword with its completion snippet, as an item view.
pub open spec fn spec_keyword(name: Seq<u8>, snippet: Seq<u8>) -> ItemV {
    ItemV {
        name: name,
        kind: ItemKindV::Keyword(snippet),
        range: crate::SrcRange {
            start: crate::Pos { row: 0, col: 0 },
            end: crate::Pos { row: 0, col: 0 },
        },
        url: None,
        is_builtin: true,
        doc: None,
    }
}

/// The fixed language keywords appended to a library document's items.
pub open spec fn spec_keyword_items() -> Seq<ItemV> {
    seq![
        spec_keyword(lit("else"), lit("else {  $0\n}")),
        spec_keyword(lit("false"), lit("false")),
        spec_keyword(lit("for"), lit("for (${1:LOOP}) {\n  $0\n}")),
        spec_keyword(lit("function"), lit("function ${1:NAME}(${2:ARGS}) = $0;")),
        spec_keyword(lit("if"), lit("if (${1:COND}) {\n  $0\n}")),
        spec_keyword(lit("include"), lit("include <${1:PATH}>$0")),
        spec_keyword(lit("intersection_for"), lit("intersection_for(${1:LOOP}) {\n  $0\n}")),
        spec_keyword(lit("let"), lit("let (${1:VARS}) $0")),
        spec_keyword(lit("module"), lit("module ${1:NAME}(${2:ARGS}) {\n  $0\n}")),
        spec_keyword(lit("true"), lit("true")),
        spec_keyword(lit("use"), lit("use <${1:PATH}>$0")),
        spec_keyword(lit("each"), lit("each ${1:LIST}$0")),
    ]
}

/// All items a document contributes: its declarations in source order, then,
/// for a library document, the language keywords.
pub open spec fn spec_extract_items(
    t: SyntaxTree,
    code: Seq<u8>,
    bi: bool,
    ebi: bool,
    path: Seq<u8>,
) -> Seq<ItemV> {
    let base = spec_ext_items(t, code, bi, ebi, path, 0, ext_init(), Seq::empty());
    if bi {
        base + spec_keyword_items()
    } else {
        base
    }
}

fn keyword_item(name: &str, snippet: &str) -> (r: Item)
    ensures
        r@ == spec_keyword(name.spec_bytes(), snippet.spec_bytes()),
        r.wf(),
        r.label is None && r.hover is None,
{
    let mut nm: Vec<u8> = Vec::new();
    push_str(&mut nm, name);
    let mut sn: Vec<u8> = Vec::new();
    push_str(&mut sn, snippet);
    Item {
        name: nm,
        kind: ItemKind::Keyword(sn),
        range: crate::SrcRange {
            start: crate::Pos { row: 0, col: 0 },
            end: crate::Pos { row: 0, col: 0 },
        },
        url: None,
        is_builtin: true,
        doc: None,
        label: None,
        hover: None,
    }
}

/// Extract the top-level declarations of a document.
pub fn extract_items(
    t: &SyntaxTree,
    code: &Vec<u8>,
    bi: bool,
    ebi: bool,
    path: &Vec<u8>,
) -> (r: Vec<Item>)
    requires
        t.wf(),
        t.within_text(code@.len() as int),
    ensures
        items_view(r@) == spec_extract_items(*t, code@, bi, ebi, path@),
        forall|i: int| 0 <= i < r@.len() ==> (#[trigger] r@[i]).wf(),
{
    let mut out: Vec<Item> = Vec::new();
    let mut doc: Option<Vec<u8>> = None;
    let mut doc_end_row: Option<usize> = None;
    let mut last_row: Option<usize> = None;
    assert(t.wf_at(0));
    assert(items_view(out@) =~= Seq::<ItemV>::empty());
    let n = t.nodes[0].children.len();
    let mut j: usize = 0;
    while j < n
        invariant
            t.wf(),
            t.within_text(code@.len() as int),
            t.wf_at(0),
            n == t.node(0).children@.len(),
            0 <= j <= n,
            last_row is Some ==> out@.len() > 0,
            doc is Some <==> doc_end_row is Some,
            forall|i: int| 0 <= i < out@.len() ==> (#[trigger] out@[i]).wf(),
            spec_ext_items(
                *t,
                code@,
                bi,
                ebi,
                path@,
                j as int,
                ExtState {
                    doc: match doc {
                        Some(ref d) => Some(d@),
                        None => None,
                    },
                    doc_end_row: match doc_end_row {
                        Some(rr) => Some(rr as int),
                        None => None,
                    },
                    last_row: match last_row {
                        Some(rr) => Some(rr as int),
                        None => None,
                    },
                },
                items_view(out@),
            ) == spec_ext_items(*t, code@, bi, ebi, path@, 0, ext_init(), Seq::empty()),
        decreases n - j,
    {
        let c = t.nodes[0].children[j];
        let ghost st_before = ExtState {
            doc: match doc {
                Some(ref d) => Some(d@),
                None => None,
            },
            doc_end_row: match doc_end_row {
                Some(rr) => Some(rr as int),
                None => None,
            },
            last_row: match last_row {
                Some(rr) => Some(rr as int),
                None => None,
            },
        };
        let ghost acc_before = items_view(out@);
        if kind_eq(t.kind(c), NodeKind::Comment) {
            let start_row = t.nodes[c].start.row;
            let end_row = t.nodes[c].end.row;
            let trailing = match last_row {
                Some(lr) => start_row == lr,
                None => false,
            };
            if trailing {
                // trailing same-line comment: append to the previous item
                let txt = t.node_text(code, c);
                let newdoc = extract_doc(&txt, bi);
                let ghost pre_pop = out@;
                let mut last = out.pop().unwrap();
                let ghost last_v = last@;
                let mut nd: Vec<u8> = Vec::new();
                match &last.doc {
                    Some(d) => {
                        push_slice(&mut nd, d.as_slice());
                    },
                    None => {},
                }
                push_str(&mut nd, "  \n");
                push_slice(&mut nd, newdoc.as_slice());
                last.doc = Some(nd);
                let lbl = last.make_label();
                last.label = Some(lbl);
                let hv = last.make_hover();
                last.hover = Some(hv);
                proof {
                    lemma_items_view_update(pre_pop, pre_pop.len() - 1, last);
                }
                out.push(last);
                proof {
                    assert(out@ =~= pre_pop.update(pre_pop.len() - 1, out@[out@.len() - 1]));
                    assert(items_view(out@) == acc_before.update(
                        acc_before.len() - 1,
                        out@[out@.len() - 1]@,
                    ));
                    assert(last_v == acc_before[acc_before.len() - 1]);
                    assert(out@[out@.len() - 1]@ == ItemV {
                        name: last_v.name,
                        kind: last_v.kind,
                        range: last_v.range,
                        url: last_v.url,
                        is_builtin: last_v.is_builtin,
                        doc: Some(
                            match last_v.doc {
                                Some(d) => d + lit("  \n") + spec_extract_doc(
                                    t.spec_node_text(code@, c as int),
                                    bi,
                                ),
                                None => lit("  \n") + spec_extract_doc(
                                    t.spec_node_text(code@, c as int),
                                    bi,
                                ),
                            },
                        ),
                    }) by {
                        match last_v.doc {
                            Some(d) => {},
                            None => {
                                assert(Seq::<u8>::empty() + lit("  \n") =~= lit("  \n"));
                            },
                        }
                    }
                    assert(spec_ext_items(*t, code@, bi, ebi, path@, j as int, st_before, acc_before)
                        == spec_ext_items(
                        *t,
                        code@,
                        bi,
                        ebi,
                        path@,
                        j + 1,
                        st_before,
                        items_view(out@),
                    ));
                }
            } else {
                let gap_ok = match doc_end_row {
                    Some(der) => end_row < der || end_row - der <= 1,
                    None => false,
                };
                if gap_ok {
                    match &mut doc {
                        Some(d) => {
                            d.push(B_NL);
                            let txt = t.node_text(code, c);
                            push_slice(d, txt.as_slice());
                        },
                        None => {},
                    }
                    doc_end_row = Some(end_row);
                    proof {
                        let st2 = ext_doc_append(
                            st_before,
                            t.spec_node_text(code@, c as int),
                            t.node(c as int).end.row as int,
                        );
                        assert(match doc {
                            Some(ref d) => Some(d@),
                            None => None,
                        } == st2.doc);
                        assert(spec_ext_items(
                            *t,
                            code@,
                            bi,
                            ebi,
                            path@,
                            j as int,
                            st_before,
                            acc_before,
                        ) == spec_ext_items(*t, code@, bi, ebi, path@, j + 1, st2, acc_before));
                    }
                } else {
                    doc = Some(t.node_text(code, c));
                    doc_end_row = Some(end_row);
                    proof {
                        let st2 = ExtState {
                            doc: Some(t.spec_node_text(code@, c as int)),
                            doc_end_row: Some(t.node(c as int).end.row as int),
                            last_row: st_before.last_row,
                        };
                        assert(spec_ext_items(
                            *t,
                            code@,
                            bi,
                            ebi,
                            path@,
                            j as int,
                            st_before,
                            acc_before,
                        ) == spec_ext_items(*t, code@, bi, ebi, path@, j + 1, st2, acc_before));
                    }
                }
            }
        } else {
            match Item::parse(t, code, c) {
                Some(mut it) => {
                    let ghost it0 = spec_parse_item(*t, code@, c as int).unwrap();
                    it.is_builtin = bi;
                    if !bi || ebi {
                        it.url = Some(path.clone());
                    }
                    it.doc = match &doc {
                        Some(d) => Some(extract_doc(d, bi)),
                        None => None,
                    };
                    let lbl = it.make_label();
                    it.label = Some(lbl);
                    let hv = it.make_hover();
                    it.hover = Some(hv);
                    last_row = Some(it.range.end.row);
                    proof {
                        assert(it@ == ItemV {
                            name: it0.name,
                            kind: it0.kind,
                            range: it0.range,
                            url: if !bi || ebi {
                                Some(path@)
                            } else {
                                None
                            },
                            is_builtin: bi,
                            doc: match st_before.doc {
                                Some(d) => Some(spec_extract_doc(d, bi)),
                                None => None,
                            },
                        });
                        lemma_items_view_push(out@, it);
                    }
                    out.push(it);
                },
                None => {},
            }
            doc = None;
            doc_end_row = None;
        }
        proof {
            let st_after = ExtState {
                doc: match doc {
                    Some(ref d) => Some(d@),
                    None => None,
                },
                doc_end_row: match doc_end_row {
                    Some(rr) => Some(rr as int),
                    None => None,
                },
                last_row: match last_row {
                    Some(rr) => Some(rr as int),
                    None => None,
                },
            };
            assert(spec_ext_items(*t, code@, bi, ebi, path@, j as int, st_before, acc_before)
                == spec_ext_items(*t, code@, bi, ebi, path@, j + 1, st_after, items_view(out@)));
        }
        j = j + 1;
    }
    if bi {
        push_keywords(&mut out);
        assert(items_view(out@) =~= spec_extract_items(*t, code@, bi, ebi, path@));
    } else {
        assert(items_view(out@) =~= spec_extract_items(*t, code@, bi, ebi, path@));
    }
    out
}

/// Append the fixed language keywords.
fn push_keywords(out: &mut Vec<Item>)
    requires
        forall|i: int| 0 <= i < old(out)@.len() ==> (#[trigger] old(out)@[i]).wf(),
    ensures
        items_view(final(out)@) == items_view(old(out)@) + spec_keyword_items(),
        forall|i: int| 0 <= i < final(out)@.len() ==> (#[trigger] final(out)@[i]).wf(),
{
    let k0 = keyword_item("else", "else {  $0\n}");
    proof {
        lemma_items_view_push(out@, k0);
    }
    out.push(k0);
    let k1 = keyword_item("false", "false");
    proof {
        lemma_items_view_push(out@, k1);
    }
    out.push(k1);
    let k2 = keyword_item("for", "for (${1:LOOP}) {\n  $0\n}");
    proof {
        lemma_items_view_push(out@, k2);
    }
    out.push(k2);
    let k3 = keyword_item("function", "function ${1:NAME}(${2:ARGS}) = $0;");
    proof {
        lemma_items_view_push(out@, k3);
    }
    out.push(k3);
    let k4 = keyword_item("if", "if (${1:COND}) {\n  $0\n}");
    proof {
        lemma_items_view_push(out@, k4);
    }
    out.push(k4);
    let k5 = keyword_item("include", "include <${1:PATH}>$0");
    proof {
        lemma_items_view_push(out@, k5);
    }
    out.push(k5);
    let k6 = keyword_item("intersection_for", "intersection_for(${1:LOOP}) {\n  $0\n}");
    proof {
        lemma_items_view_push(out@, k6);
    }
    out.push(k6);
    let k7 = keyword_item("let", "let (${1:VARS}) $0");
    proof {
        lemma_items_view_push(out@, k7);
    }
    out.push(k7);
    let k8 = keyword_item("module", "module ${1:NAME}(${2:ARGS}) {\n  $0\n}");
    proof {
        lemma_items_view_push(out@, k8);
    }
    out.push(k8);
    let k9 = keyword_item("true", "true");
    proof {
        lemma_items_view_push(out@, k9);
    }
    out.push(k9);
    let k10 = keyword_item("use", "use <${1:PATH}>$0");
    proof {
        lemma_items_view_push(out@, k10);
    }
    out.push(k10);
    let k11 = keyword_item("each", "each ${1:LIST}$0");
    proof {
        lemma_items_view_push(out@, k11);
    }
    out.push(k11);
    assert(items_view(out@) =~= items_view(old(out)@) + spec_keyword_items());
}

} // verus!
