use openscad_lsp::doc::extract_doc;
use openscad_lsp::scope::{find_identities, Predicate};
use openscad_lsp::store::{Document, DocumentStore};

fn b(s: &str) -> Vec<u8> {
    s.as_bytes().to_vec()
}

fn items_of(code: &str) -> Vec<openscad_lsp::item::Item> {
    let mut store = DocumentStore::new(1000, b("/builtin.scad"));
    let d = Document::new(b("/a.scad"), b(code)).expect("parser available");
    assert!(store.insert_document(d));
    let slot = store.find_slot(&b("/a.scad")).unwrap();
    let start = store
        .get_ref(slot)
        .unwrap()
        .tree
        .node_at_point(openscad_lsp::Pos { row: 0, col: 0 });
    find_identities(&mut store, &b("/a.scad"), start, &Predicate::Any, true, 0, 2)
}

#[test]
fn doc_comment_attaches_to_next_declaration() {
    let items = items_of("// doubles a value\nfunction f(x) = x * 2;\n");
    let f = items.iter().find(|it| it.name == b("f")).unwrap();
    assert_eq!(f.doc.as_ref().unwrap(), &b(" doubles a value"));
}

#[test]
fn comment_runs_accumulate() {
    let items = items_of("// first line\n// second line\na = 1;\n");
    let a = items.iter().find(|it| it.name == b("a")).unwrap();
    assert_eq!(a.doc.as_ref().unwrap(), &b(" first line\n second line"));
}

#[test]
fn distant_comment_still_pending_until_declaration() {
    // a gap of more than one line starts a fresh doc run
    let items = items_of("// far away\n\n\n// near\na = 1;\n");
    let a = items.iter().find(|it| it.name == b("a")).unwrap();
    assert_eq!(a.doc.as_ref().unwrap(), &b(" near"));
}

#[test]
fn same_line_comment_attaches_to_previous_declaration() {
    let items = items_of("z = 0;\na = 1; // trailing note\nb = 2;\n");
    let a = items.iter().find(|it| it.name == b("a")).unwrap();
    assert_eq!(a.doc.as_ref().unwrap(), &b("  \n trailing note"));
    let bb = items.iter().find(|it| it.name == b("b")).unwrap();
    assert!(bb.doc.is_none());
}

#[test]
fn trailing_comment_on_first_row_attaches() {
    // keyed on the previous declaration's end row, even row 0
    let items = items_of("a = 1; // note\n");
    let a = items.iter().find(|it| it.name == b("a")).unwrap();
    assert_eq!(a.doc.as_ref().unwrap(), &b("  \n note"));
}

#[test]
fn trailing_comment_follows_declaration_end_row() {
    // the declaration spans two rows; a comment on its end row attaches to it
    let items = items_of("v = [1,\n     2]; // spans\nw = 3;\n");
    let v = items.iter().find(|it| it.name == b("v")).unwrap();
    assert_eq!(v.doc.as_ref().unwrap(), &b("  \n spans"));
    let w = items.iter().find(|it| it.name == b("w")).unwrap();
    assert!(w.doc.is_none());
}

#[test]
fn labels_and_snippets() {
    let items = items_of("function f(x, y = 1) = x + y;\nmodule m(a) { cube(a); }\nv = 3;\n");
    let f = items.iter().find(|it| it.name == b("f")).unwrap();
    assert_eq!(f.make_label(), b("f(x, y=1)"));
    // defaults ignored: only required parameters stay, each a named tab stop
    assert_eq!(f.make_snippet(true), b("f(x = ${1:x});$0"));
    // defaults kept: the optional parameter is spelled out literally
    assert_eq!(f.make_snippet(false), b("f(x = ${1:x}, y = 1);$0"));
    let m = items.iter().find(|it| it.name == b("m")).unwrap();
    assert_eq!(m.make_label(), b("m(a)"));
    assert_eq!(m.make_snippet(true), b("m(a = ${1:a});$0"));
    let v = items.iter().find(|it| it.name == b("v")).unwrap();
    assert_eq!(v.make_label(), b("v"));
    assert_eq!(v.make_snippet(true), b("v"));
    // a defaulted parameter's range points at its name, not its default
    let col = "function f(x, y = 1) = x + y;".find("y = 1").unwrap();
    match &f.kind {
        openscad_lsp::item::ItemKind::Function { flags, params } => {
            assert_eq!(*flags, 0);
            assert_eq!(params[1].range.start.col, col);
        }
        _ => panic!("expected a function"),
    }
}

#[test]
fn operator_flag_module_snippet_takes_block() {
    // flag bit 0: the module takes a block instead of a `;`
    let items = items_of("module g(a) { builtin_flags(0000000000000001); cube(a); }\n");
    let g = items.iter().find(|it| it.name == b("g")).unwrap();
    assert_eq!(g.make_snippet(true), b("g(a = ${1:a}) $0"));
}

#[test]
fn elide_names_flag_drops_parameter_names() {
    // flag bit 1: parameter names are elided in snippets
    let items = items_of("module e(a, b) { builtin_flags(0000000000000010); cube(a); }\n");
    let e = items.iter().find(|it| it.name == b("e")).unwrap();
    assert_eq!(e.make_snippet(true), b("e(${1:a}, ${2:b});$0"));
}

#[test]
fn function_flag_marker_is_parsed() {
    let items = items_of("function h(x) = builtin_flags(0000000000000011);\n");
    let h = items.iter().find(|it| it.name == b("h")).unwrap();
    match &h.kind {
        openscad_lsp::item::ItemKind::Function { flags, .. } => assert_eq!(*flags, 3),
        _ => panic!("expected a function"),
    }
}

#[test]
fn hover_wraps_label_and_doc() {
    let items = items_of("// adds one\nfunction inc(n) = n + 1;\n");
    let f = items.iter().find(|it| it.name == b("inc")).unwrap();
    let hover = String::from_utf8(f.make_hover()).unwrap();
    assert_eq!(
        hover,
        "```scad\nfunction inc(n)\n```\n---\n\n<pre>\n adds one\n</pre>\n"
    );
}

#[test]
fn builtin_document_contributes_keywords() {
    let mut store = DocumentStore::new(1000, b("/builtin.scad"));
    let mut d = Document::new(b("/builtin.scad"), b("function version() = 1;\n")).unwrap();
    d.set_builtin(false);
    assert!(store.insert_document(d));
    let d2 = Document::new(b("/a.scad"), b("q = 1;\n")).unwrap();
    assert!(store.insert_document(d2));
    let slot = store.find_slot(&b("/a.scad")).unwrap();
    let start = store
        .get_ref(slot)
        .unwrap()
        .tree
        .node_at_point(openscad_lsp::Pos { row: 0, col: 0 });
    let items = find_identities(&mut store, &b("/a.scad"), start, &Predicate::Any, true, 0, 3);
    let names: Vec<&[u8]> = items.iter().map(|it| it.name.as_slice()).collect();
    assert!(names.contains(&b("version").as_slice()));
    assert!(names.contains(&b("module").as_slice()));
    assert!(names.contains(&b("each").as_slice()));
}

#[test]
fn extract_doc_strips_markers() {
    assert_eq!(extract_doc(&b("// note"), false), b(" note"));
    assert_eq!(extract_doc(&b("/* block */"), false), b(" block "));
    assert_eq!(extract_doc(&b("   indented"), false), b("indented"));
    assert_eq!(extract_doc(&b("/* keep */"), true), b(" keep "));
    assert_eq!(extract_doc(&b("  // a\n  // b"), false), b(" a\n b"));
}
