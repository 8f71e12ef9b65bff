use openscad_lsp::diag::document_diagnostics;
use openscad_lsp::item::{Item, ItemKind};
use openscad_lsp::rename::rename_edits;
use openscad_lsp::scope::{find_identities, Predicate};
use openscad_lsp::store::{ChangeEvent, Document, DocumentStore};
use openscad_lsp::inc::{inc_candidates, include_completions, split_literal};
use openscad_lsp::scope::{enclosing_call_name, params_as_items};
use openscad_lsp::text::find_offset;
use openscad_lsp::{Pos, SrcRange};

fn b(s: &str) -> Vec<u8> {
    s.as_bytes().to_vec()
}

fn new_store() -> DocumentStore {
    DocumentStore::new(1000, b("/builtin.scad"))
}

fn add_doc(store: &mut DocumentStore, path: &str, code: &str) {
    let d = Document::new(b(path), b(code)).expect("parser available");
    assert!(store.insert_document(d));
}

fn names(items: &[Item]) -> Vec<String> {
    items
        .iter()
        .map(|it| String::from_utf8(it.name.clone()).unwrap())
        .collect()
}

#[test]
fn parse_produces_rooted_tree() {
    let d = Document::new(b("/a.scad"), b("x = 1;\n")).unwrap();
    assert!(d.tree.nodes.len() > 1);
    assert_eq!(d.tree.nodes[0].kind_name, b("source_file"));
    assert_eq!(d.tree.nodes[0].parent, None);
}

#[test]
fn find_offset_counts_scalars() {
    let text = b("ab\ncd\n");
    assert_eq!(find_offset(&text, Pos { row: 0, col: 0 }), Some(0));
    assert_eq!(find_offset(&text, Pos { row: 1, col: 1 }), Some(4));
    assert_eq!(find_offset(&text, Pos { row: 2, col: 0 }), Some(6));
    assert_eq!(find_offset(&text, Pos { row: 3, col: 0 }), None);
    // a two-byte scalar counts as one column unit
    let uni = "é=1;\n".as_bytes().to_vec();
    assert_eq!(find_offset(&uni, Pos { row: 0, col: 1 }), Some(2));
}

#[test]
fn incremental_edit_matches_scratch_parse() {
    let mut d = Document::new(b("/a.scad"), b("x = 1;\ncube(1);\n")).unwrap();
    let events = vec![ChangeEvent {
        range: Some(SrcRange {
            start: Pos { row: 0, col: 4 },
            end: Pos { row: 0, col: 5 },
        }),
        text: b("42"),
    }];
    assert!(d.apply_edits(&events));
    assert_eq!(d.code, b("x = 42;\ncube(1);\n"));
    let fresh = Document::new(b("/a.scad"), b("x = 42;\ncube(1);\n")).unwrap();
    assert_eq!(d.tree.nodes.len(), fresh.tree.nodes.len());
    for (a, f) in d.tree.nodes.iter().zip(fresh.tree.nodes.iter()) {
        assert_eq!(a.kind_name, f.kind_name);
        assert_eq!(a.start_byte, f.start_byte);
        assert_eq!(a.end_byte, f.end_byte);
        assert_eq!(a.parent, f.parent);
        assert_eq!(a.children, f.children);
    }
}

#[test]
fn full_replacement_discards_rest_of_batch() {
    let mut d = Document::new(b("/a.scad"), b("x = 1;\n")).unwrap();
    let events = vec![
        ChangeEvent {
            range: None,
            text: b("y = 2;\n"),
        },
        ChangeEvent {
            range: Some(SrcRange {
                start: Pos { row: 0, col: 0 },
                end: Pos { row: 0, col: 1 },
            }),
            text: b("z"),
        },
    ];
    assert!(d.apply_edits(&events));
    assert_eq!(d.code, b("y = 2;\n"));
}

#[test]
fn invalid_edit_position_changes_nothing() {
    let mut d = Document::new(b("/a.scad"), b("x = 1;\n")).unwrap();
    let events = vec![ChangeEvent {
        range: Some(SrcRange {
            start: Pos { row: 9, col: 0 },
            end: Pos { row: 9, col: 1 },
        }),
        text: b("y"),
    }];
    assert!(!d.apply_edits(&events));
    assert_eq!(d.code, b("x = 1;\n"));
    // a rejected batch still marks the document dirty
    assert!(d.changed);
}

#[test]
fn scope_completeness_top_level() {
    let mut store = new_store();
    add_doc(&mut store, "/a.scad", "x = 1;\necho(x);\n");
    let slot = store.find_slot(&b("/a.scad")).unwrap();
    let start = store
        .get_ref(slot)
        .unwrap()
        .tree
        .node_at_point(Pos { row: 1, col: 5 });
    let items = find_identities(
        &mut store,
        &b("/a.scad"),
        start,
        &Predicate::ExactName(b("x")),
        true,
        0,
        3,
    );
    let found = names(&items);
    assert_eq!(found.iter().filter(|n| n.as_str() == "x").count(), 1);
}

#[test]
fn first_match_prefers_nested_declaration() {
    let code = "x = 1;\nmodule m() { x = 2; echo(x); }\n";
    let mut store = new_store();
    add_doc(&mut store, "/a.scad", code);
    let slot = store.find_slot(&b("/a.scad")).unwrap();
    // the `x` inside echo(...) on row 1
    let col = code.lines().nth(1).unwrap().find("echo(x").unwrap() + 5;
    let start = store
        .get_ref(slot)
        .unwrap()
        .tree
        .node_at_point(Pos { row: 1, col });
    let items = find_identities(
        &mut store,
        &b("/a.scad"),
        start,
        &Predicate::ExactName(b("x")),
        false,
        0,
        3,
    );
    assert_eq!(items.len(), 1);
    // the nested x = 2, not the top-level x = 1
    assert_eq!(items[0].range.start.row, 1);
}

#[test]
fn completion_sees_module_parameters() {
    let code = "module m(width) { cube(width); }\n";
    let mut store = new_store();
    add_doc(&mut store, "/a.scad", code);
    let slot = store.find_slot(&b("/a.scad")).unwrap();
    let col = code.find("cube(width").unwrap() + 5;
    let start = store
        .get_ref(slot)
        .unwrap()
        .tree
        .node_at_point(Pos { row: 0, col });
    let items = find_identities(
        &mut store,
        &b("/a.scad"),
        start,
        &Predicate::ExactName(b("width")),
        true,
        0,
        3,
    );
    let found = names(&items);
    assert!(found.iter().any(|n| n == "width"));
}

#[test]
fn shadow_respecting_rename_outer() {
    let code = "x = 1;\nmodule m() { x = 2; echo(x); }\n";
    let mut store = new_store();
    add_doc(&mut store, "/a.scad", code);
    let slot = store.find_slot(&b("/a.scad")).unwrap();
    let d = store.get_ref(slot).unwrap();
    // outer `x` at 0,0
    let start = d.tree.node_at_point(Pos { row: 0, col: 0 });
    let edits = rename_edits(&d.tree, &d.code, start).unwrap();
    assert_eq!(edits.len(), 1);
    assert_eq!(edits[0].start.row, 0);
}

#[test]
fn shadow_respecting_rename_inner() {
    let code = "x = 1;\nmodule m() { x = 2; echo(x); }\n";
    let mut store = new_store();
    add_doc(&mut store, "/a.scad", code);
    let slot = store.find_slot(&b("/a.scad")).unwrap();
    let d = store.get_ref(slot).unwrap();
    let col = code.lines().nth(1).unwrap().find("x = 2").unwrap();
    let start = d.tree.node_at_point(Pos { row: 1, col });
    let edits = rename_edits(&d.tree, &d.code, start).unwrap();
    // the inner declaration and the echo reference, nothing at row 0
    assert_eq!(edits.len(), 2);
    assert!(edits.iter().all(|e| e.start.row == 1));
}

#[test]
fn rename_rejects_non_identifier() {
    let mut store = new_store();
    add_doc(&mut store, "/a.scad", "x = 1;\n");
    let slot = store.find_slot(&b("/a.scad")).unwrap();
    let d = store.get_ref(slot).unwrap();
    // position on the `=` token
    let start = d.tree.node_at_point(Pos { row: 0, col: 2 });
    assert!(rename_edits(&d.tree, &d.code, start).is_none());
}

#[test]
fn include_cycle_terminates() {
    let mut store = new_store();
    add_doc(&mut store, "/a.scad", "include <b.scad>;\nalpha = 1;\n");
    add_doc(&mut store, "/b.scad", "include <a.scad>;\nbeta = 2;\n");
    let slot = store.find_slot(&b("/a.scad")).unwrap();
    let start = store
        .get_ref(slot)
        .unwrap()
        .tree
        .node_at_point(Pos { row: 1, col: 0 });
    let items = find_identities(&mut store, &b("/a.scad"), start, &Predicate::Any, true, 0, 3);
    let found = names(&items);
    assert!(found.iter().any(|n| n == "beta"));
    assert!(found.iter().any(|n| n == "alpha"));
}

#[test]
fn goto_definition_across_include() {
    let mut store = new_store();
    add_doc(&mut store, "/lib.scad", "function helper(v) = v * 2;\n");
    add_doc(&mut store, "/a.scad", "include <lib.scad>;\ny = helper(3);\n");
    let slot = store.find_slot(&b("/a.scad")).unwrap();
    let start = store
        .get_ref(slot)
        .unwrap()
        .tree
        .node_at_point(Pos { row: 1, col: 5 });
    let items = find_identities(
        &mut store,
        &b("/a.scad"),
        start,
        &Predicate::ExactName(b("helper")),
        false,
        0,
        3,
    );
    assert_eq!(items.len(), 1);
    assert_eq!(items[0].url.as_ref().unwrap(), &b("/lib.scad"));
    assert!(matches!(items[0].kind, ItemKind::Function { .. }));
}

#[test]
fn unresolved_include_one_diagnostic() {
    let mut store = new_store();
    add_doc(&mut store, "/a.scad", "include <does_not_exist.scad>;\n");
    let diags = document_diagnostics(&mut store, &b("/a.scad")).unwrap();
    assert_eq!(diags.len(), 1);
    assert_eq!(diags[0].message, b("file not found!"));
    assert!(!diags[0].syntax);
    // the range covers the path inside the angle brackets
    assert_eq!(diags[0].range.start.row, 0);
    assert_eq!(diags[0].range.start.col, 9);
    assert_eq!(diags[0].range.end.col, 28);
}

#[test]
fn resolved_include_no_diagnostic() {
    let mut store = new_store();
    add_doc(&mut store, "/lib.scad", "z = 9;\n");
    add_doc(&mut store, "/a.scad", "include <lib.scad>;\n");
    let diags = document_diagnostics(&mut store, &b("/a.scad")).unwrap();
    assert!(diags.is_empty());
}

#[test]
fn syntax_error_diagnostic() {
    let mut store = new_store();
    add_doc(&mut store, "/a.scad", "module {\n");
    let diags = document_diagnostics(&mut store, &b("/a.scad")).unwrap();
    assert!(!diags.is_empty());
    assert!(diags.iter().all(|d| d.syntax));
}

#[test]
fn fifo_eviction_drops_oldest() {
    let mut store = DocumentStore::new(2, b("/builtin.scad"));
    add_doc(&mut store, "/one.scad", "a = 1;\n");
    add_doc(&mut store, "/two.scad", "b = 2;\n");
    add_doc(&mut store, "/three.scad", "c = 3;\n");
    // the store holds up to capacity + 1 entries; the next insert evicts
    // the single oldest-inserted one
    assert!(store.find_slot(&b("/one.scad")).is_some());
    add_doc(&mut store, "/four.scad", "d = 4;\n");
    assert!(store.find_slot(&b("/one.scad")).is_none());
    assert!(store.find_slot(&b("/two.scad")).is_some());
    assert!(store.find_slot(&b("/three.scad")).is_some());
    assert!(store.find_slot(&b("/four.scad")).is_some());
}

#[test]
fn own_directory_wins_over_search_directory() {
    let mut store = new_store();
    store.extend_lib(b("/lib/"));
    add_doc(&mut store, "/p/x.scad", "marker = 1;
");
    add_doc(&mut store, "/lib/x.scad", "marker = 2;
");
    add_doc(&mut store, "/p/a.scad", "include <x.scad>;
q = marker;
");
    let slot = store.find_slot(&b("/p/a.scad")).unwrap();
    let start = store
        .get_ref(slot)
        .unwrap()
        .tree
        .node_at_point(Pos { row: 1, col: 4 });
    let items = find_identities(
        &mut store,
        &b("/p/a.scad"),
        start,
        &Predicate::ExactName(b("marker")),
        false,
        0,
        3,
    );
    assert_eq!(items.len(), 1);
    assert_eq!(items[0].url.as_ref().unwrap(), &b("/p/x.scad"));
}

#[test]
fn declaration_resolves_to_itself() {
    let mut store = new_store();
    add_doc(&mut store, "/a.scad", "x = 1;\n");
    let slot = store.find_slot(&b("/a.scad")).unwrap();
    let start = store
        .get_ref(slot)
        .unwrap()
        .tree
        .node_at_point(Pos { row: 0, col: 0 });
    let items = find_identities(
        &mut store,
        &b("/a.scad"),
        start,
        &Predicate::ExactName(b("x")),
        false,
        0,
        3,
    );
    assert_eq!(items.len(), 1);
    assert_eq!(items[0].name, b("x"));
    assert_eq!(items[0].range.start.row, 0);
}

#[test]
fn reinsert_keeps_document() {
    let mut store = new_store();
    add_doc(&mut store, "/a.scad", "a = 1;\n");
    add_doc(&mut store, "/a.scad", "a = 2;\n");
    let slot = store.find_slot(&b("/a.scad")).unwrap();
    assert_eq!(store.get_ref(slot).unwrap().code, b("a = 2;\n"));
}

#[test]
fn identical_reload_keeps_caches() {
    let mut store = new_store();
    add_doc(&mut store, "/a.scad", "a = 1;\n");
    let slot = store.find_slot(&b("/a.scad")).unwrap();
    store.gen_items_for(slot);
    assert!(store.get_ref(slot).unwrap().root_items.is_some());
    // an identical re-read keeps the resident document and its caches
    assert!(store.insert_or_reuse(&b("/a.scad"), b("a = 1;\n")));
    let slot2 = store.find_slot(&b("/a.scad")).unwrap();
    let d = store.get_ref(slot2).unwrap();
    assert!(d.root_items.is_some());
    assert!(!d.changed);
    // a differing re-read replaces it
    assert!(store.insert_or_reuse(&b("/a.scad"), b("a = 3;\n")));
    let slot3 = store.find_slot(&b("/a.scad")).unwrap();
    assert_eq!(store.get_ref(slot3).unwrap().code, b("a = 3;\n"));
}

#[test]
fn include_completion_filters_by_prefix() {
    let (dir, prefix) = split_literal(&b("sub/Li"));
    assert_eq!(dir, b("sub/"));
    assert_eq!(prefix, b("Li"));
    let entries = vec![
        (b("lib.scad"), false),
        (b("LibExtra"), true),
        (b("other.scad"), false),
    ];
    let names = include_completions(&entries, &prefix);
    // case-insensitive prefix match; directories gain a trailing slash
    assert_eq!(names, vec![b("lib.scad"), b("LibExtra/")]);
}

#[test]
fn candidate_order_prefers_own_directory() {
    let cands = inc_candidates(&b("x.scad"), &b("/p/a.scad"), &vec![b("/lib/")]);
    assert_eq!(cands, vec![b("/p/x.scad"), b("/lib/x.scad")]);
}

#[test]
fn completion_offers_callee_parameters() {
    let code = "module m(width, height) { cube(width); }\nm(3, 4);\n";
    let mut store = new_store();
    add_doc(&mut store, "/a.scad", code);
    let slot = store.find_slot(&b("/a.scad")).unwrap();
    // a position inside the argument list of the call `m(3, 4)`
    let start = store
        .get_ref(slot)
        .unwrap()
        .tree
        .node_at_point(Pos { row: 1, col: 2 });
    let callee = {
        let d = store.get_ref(slot).unwrap();
        enclosing_call_name(&d.tree, &d.code, start)
    };
    assert_eq!(callee, Some(b("m")));
    let found = find_identities(
        &mut store,
        &b("/a.scad"),
        start,
        &Predicate::ExactName(b("m")),
        false,
        0,
        3,
    );
    let params = params_as_items(&found[0], &b("/a.scad"));
    let names = names(&params);
    assert_eq!(names, vec!["width".to_string(), "height".to_string()]);
}
