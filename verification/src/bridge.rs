//! Bridge to the incremental parser.
//!
//! The parser, its trees and its nodes are outside types that Verus treats as
//! opaque; each call into them sits in one small trusted wrapper. A verified
//! walk then mirrors a parsed tree into the crate's own `SyntaxTree` arena,
//! establishing the arena's well-formedness by construction.

use vstd::prelude::*;

verus! {

use crate::Pos;
use crate::bytes::vec_eq_slice;
use crate::tree::{FieldName, NodeKind, SyntaxNode, SyntaxTree};

#[verifier::external_type_specification]
#[verifier::external_body]
pub struct ExParser(tree_sitter::Parser);

#[verifier::external_type_specification]
#[verifier::external_body]
pub struct ExTree(tree_sitter::Tree);

#[verifier::external_type_specification]
#[verifier::external_body]
pub struct ExLanguage(tree_sitter::Language);

#[verifier::external_type_specification]
#[verifier::external_body]
pub struct ExNode<'a>(tree_sitter::Node<'a>);

/// Relies on tree_sitter::Parser::new.
#[verifier::external_body]
pub(crate) fn ts_parser_new() -> tree_sitter::Parser {
    tree_sitter::Parser::new()
}

/// Relies on tree_sitter_openscad::language: the grammar this crate parses.
#[verifier::external_body]
pub(crate) fn ts_openscad_language() -> tree_sitter::Language {
    tree_sitter_openscad::language()
}

/// Relies on tree_sitter::Parser::set_language; returns whether the grammar
/// was accepted.
#[verifier::external_body]
pub(crate) fn ts_set_language(p: &mut tree_sitter::Parser, lang: tree_sitter::Language) -> (r: bool) {
    p.set_language(lang).is_ok()
}

/// The scratch parse of a byte text, named: the parser is deterministic, so
/// the tree's shape is a function of the text alone.
pub uninterp spec fn parse_of(code: Seq<u8>) -> Seq<SyntaxNode>;

/// The nodes of a parser tree, in preorder, as this crate's own node records
/// (with byte ranges clamped to the text and each node's links rebuilt by the
/// verified walk below).
pub uninterp spec fn tree_nodes(t: tree_sitter::Tree) -> Seq<SyntaxNode>;

/// Relies on tree_sitter::Parser::parse. Only the from-scratch path carries
/// a promise: parsing is deterministic for the one grammar this crate sets,
/// so without an old tree the result is a function of the text alone. With
/// an old tree the library requires the caller to have edited it to match
/// the new text and promises nothing otherwise, so no claim is stated here
/// for that path.
#[verifier::external_body]
pub(crate) fn ts_parse(
    p: &mut tree_sitter::Parser,
    code: &Vec<u8>,
    old: Option<&tree_sitter::Tree>,
) -> (r: Option<tree_sitter::Tree>)
    ensures
        match r {
            Some(t) => old is None ==> tree_nodes(t) == parse_of(code@),
            None => true,
        },
{
    p.parse(code.as_slice(), old)
}

/// Relies on tree_sitter::Tree::edit: records a text edit against the tree
/// so the next parse can reuse unaffected subtrees.
#[verifier::external_body]
pub(crate) fn ts_tree_edit(
    t: &mut tree_sitter::Tree,
    start_byte: usize,
    old_end_byte: usize,
    new_end_byte: usize,
    start: Pos,
    old_end: Pos,
    new_end: Pos,
) {
    t.edit(
        &tree_sitter::InputEdit {
            start_byte,
            old_end_byte,
            new_end_byte,
            start_position: tree_sitter::Point { row: start.row, column: start.col },
            old_end_position: tree_sitter::Point { row: old_end.row, column: old_end.col },
            new_end_position: tree_sitter::Point { row: new_end.row, column: new_end.col },
        },
    );
}

/// Relies on tree_sitter::Tree::root_node.
#[verifier::external_body]
pub(crate) fn ts_root_node<'a>(t: &'a tree_sitter::Tree) -> tree_sitter::Node<'a> {
    t.root_node()
}

/// Relies on tree_sitter::Node::kind: the grammar's name for the node.
#[verifier::external_body]
pub(crate) fn ts_node_kind(n: &tree_sitter::Node) -> Vec<u8> {
    n.kind().as_bytes().to_vec()
}

/// Relies on tree_sitter::Node::child_count.
#[verifier::external_body]
pub(crate) fn ts_child_count(n: &tree_sitter::Node) -> usize {
    n.child_count()
}

/// Relies on tree_sitter::Node::child.
#[verifier::external_body]
pub(crate) fn ts_child<'a>(n: &tree_sitter::Node<'a>, i: usize) -> Option<tree_sitter::Node<'a>> {
    n.child(i)
}

/// Relies on tree_sitter::Node::field_name_for_child.
#[verifier::external_body]
pub(crate) fn ts_field_name_for_child(n: &tree_sitter::Node, i: usize) -> Option<Vec<u8>> {
    match n.field_name_for_child(i as u32) {
        Some(s) => Some(s.as_bytes().to_vec()),
        None => None,
    }
}

/// Relies on tree_sitter::Node::start_byte.
#[verifier::external_body]
pub(crate) fn ts_start_byte(n: &tree_sitter::Node) -> usize {
    n.start_byte()
}

/// Relies on tree_sitter::Node::end_byte.
#[verifier::external_body]
pub(crate) fn ts_end_byte(n: &tree_sitter::Node) -> usize {
    n.end_byte()
}

/// Relies on tree_sitter::Node::start_position.
#[verifier::external_body]
pub(crate) fn ts_start_pos(n: &tree_sitter::Node) -> Pos {
    let p = n.start_position();
    Pos { row: p.row, col: p.column }
}

/// Relies on tree_sitter::Node::end_position.
#[verifier::external_body]
pub(crate) fn ts_end_pos(n: &tree_sitter::Node) -> Pos {
    let p = n.end_position();
    Pos { row: p.row, col: p.column }
}

/// Relies on tree_sitter::Node::is_named.
#[verifier::external_body]
pub(crate) fn ts_is_named(n: &tree_sitter::Node) -> bool {
    n.is_named()
}

/// Relies on tree_sitter::Node::is_missing.
#[verifier::external_body]
pub(crate) fn ts_is_missing(n: &tree_sitter::Node) -> bool {
    n.is_missing()
}

/// Relies on tree_sitter::Node::is_error.
#[verifier::external_body]
pub(crate) fn ts_is_error(n: &tree_sitter::Node) -> bool {
    n.is_error()
}

/// Map a grammar kind name to the crate's node kinds.
pub open spec fn spec_kind_from_name(name: Seq<u8>) -> NodeKind {
    if name == crate::bytes::lit("source_file") {
        NodeKind::SourceFile
    } else if name == crate::bytes::lit("module_declaration") {
        NodeKind::ModuleDeclaration
    } else if name == crate::bytes::lit("function_declaration") {
        NodeKind::FunctionDeclaration
    } else if name == crate::bytes::lit("assignment") {
        NodeKind::Assignment
    } else if name == crate::bytes::lit("union_block") {
        NodeKind::UnionBlock
    } else if name == crate::bytes::lit("identifier") {
        NodeKind::Identifier
    } else if name == crate::bytes::lit("comment") {
        NodeKind::Comment
    } else if name == crate::bytes::lit("include_statement") {
        NodeKind::IncludeStatement
    } else if name == crate::bytes::lit("use_statement") {
        NodeKind::UseStatement
    } else if name == crate::bytes::lit("include_path") {
        NodeKind::IncludePath
    } else if name == crate::bytes::lit("parameter") {
        NodeKind::Parameter
    } else if name == crate::bytes::lit("special_variable") {
        NodeKind::SpecialVariable
    } else {
        NodeKind::Other
    }
}

/// Map a grammar kind name to the crate's node kinds.
pub fn kind_from_name(name: &Vec<u8>) -> (k: NodeKind)
    ensures
        k == spec_kind_from_name(name@),
{
    if vec_eq_slice(name, "source_file".as_bytes()) {
        NodeKind::SourceFile
    } else if vec_eq_slice(name, "module_declaration".as_bytes()) {
        NodeKind::ModuleDeclaration
    } else if vec_eq_slice(name, "function_declaration".as_bytes()) {
        NodeKind::FunctionDeclaration
    } else if vec_eq_slice(name, "assignment".as_bytes()) {
        NodeKind::Assignment
    } else if vec_eq_slice(name, "union_block".as_bytes()) {
        NodeKind::UnionBlock
    } else if vec_eq_slice(name, "identifier".as_bytes()) {
        NodeKind::Identifier
    } else if vec_eq_slice(name, "comment".as_bytes()) {
        NodeKind::Comment
    } else if vec_eq_slice(name, "include_statement".as_bytes()) {
        NodeKind::IncludeStatement
    } else if vec_eq_slice(name, "use_statement".as_bytes()) {
        NodeKind::UseStatement
    } else if vec_eq_slice(name, "include_path".as_bytes()) {
        NodeKind::IncludePath
    } else if vec_eq_slice(name, "parameter".as_bytes()) {
        NodeKind::Parameter
    } else if vec_eq_slice(name, "special_variable".as_bytes()) {
        NodeKind::SpecialVariable
    } else {
        NodeKind::Other
    }
}

/// Map a grammar field name to the crate's field tags.
pub open spec fn spec_field_from_name(name: Option<Seq<u8>>) -> FieldName {
    match name {
        None => FieldName::NoField,
        Some(f) => if f == crate::bytes::lit("name") {
            FieldName::Name
        } else if f == crate::bytes::lit("parameters") {
            FieldName::Parameters
        } else if f == crate::bytes::lit("body") {
            FieldName::Body
        } else if f == crate::bytes::lit("left") {
            FieldName::Left
        } else if f == crate::bytes::lit("right") {
            FieldName::Right
        } else {
            FieldName::OtherField
        },
    }
}

/// Map a grammar field name to the crate's field tags.
pub fn field_from_name(name: &Option<Vec<u8>>) -> (f: FieldName)
    ensures
        f == spec_field_from_name(match *name {
            Some(ref v) => Some(v@),
            None => None,
        }),
{
    match name {
        None => FieldName::NoField,
        Some(v) => {
            if vec_eq_slice(v, "name".as_bytes()) {
                FieldName::Name
            } else if vec_eq_slice(v, "parameters".as_bytes()) {
                FieldName::Parameters
            } else if vec_eq_slice(v, "body".as_bytes()) {
                FieldName::Body
            } else if vec_eq_slice(v, "left".as_bytes()) {
                FieldName::Left
            } else if vec_eq_slice(v, "right".as_bytes()) {
                FieldName::Right
            } else {
                FieldName::OtherField
            }
        },
    }
}

/// A node's links point only forward, at nodes that exist, in ascending
/// order, and its byte range is ordered: the per-node half of tree
/// well-formedness that construction establishes before the parent's child
/// list is written.
pub open spec fn node_ok(v: Seq<SyntaxNode>, i: int) -> bool {
    let n = v[i];
    &&& (forall|j: int| 0 <= j < n.children@.len() ==> i < #[trigger] n.children@[j] < v.len())
    &&& (forall|j: int|
        0 <= j < n.children@.len() ==> v[#[trigger] n.children@[j] as int].parent == Some(
            i as usize,
        ))
    &&& (forall|j: int, k: int|
        0 <= j < k < n.children@.len() ==> #[trigger] n.children@[j] < #[trigger] n.children@[k])
    &&& n.start_byte <= n.end_byte
}

/// A node's parent lists it as a child: the other half of tree
/// well-formedness.
pub open spec fn parent_linked(v: Seq<SyntaxNode>, i: int) -> bool {
    match v[i].parent {
        Some(p) => i != 0 && 0 <= p < i && v[p as int].children@.contains(i as usize),
        None => i == 0,
    }
}

/// Copy a list of indices.
fn copy_indices(v: &Vec<usize>) -> (r: Vec<usize>)
    ensures
        r@ == v@,
{
    let mut out: Vec<usize> = Vec::new();
    let n = v.len();
    let mut i: usize = 0;
    while i < n
        invariant
            n == v@.len(),
            0 <= i <= n,
            out@ =~= v@.subrange(0, i as int),
        decreases n - i,
    {
        out.push(v[i]);
        assert(out@ =~= v@.subrange(0, i + 1 as int));
        i = i + 1;
    }
    assert(out@ =~= v@);
    out
}

/// Overwrite the child list of node `k`.
fn set_children(v: &mut Vec<SyntaxNode>, k: usize, kids: &Vec<usize>)
    requires
        k < old(v)@.len(),
    ensures
        final(v)@.len() == old(v)@.len(),
        forall|i: int| 0 <= i < old(v)@.len() && i != k ==> final(v)@[i] == old(v)@[i],
        final(v)@[k as int].children@ == kids@,
        final(v)@[k as int].parent == old(v)@[k as int].parent,
        final(v)@[k as int].kind == old(v)@[k as int].kind,
        final(v)@[k as int].kind_name == old(v)@[k as int].kind_name,
        final(v)@[k as int].field == old(v)@[k as int].field,
        final(v)@[k as int].start_byte == old(v)@[k as int].start_byte,
        final(v)@[k as int].end_byte == old(v)@[k as int].end_byte,
        final(v)@[k as int].start == old(v)@[k as int].start,
        final(v)@[k as int].end == old(v)@[k as int].end,
        final(v)@[k as int].named == old(v)@[k as int].named,
        final(v)@[k as int].missing == old(v)@[k as int].missing,
        final(v)@[k as int].error == old(v)@[k as int].error,
{
    let mut node = v.remove(k);
    node.children = copy_indices(kids);
    v.insert(k, node);
    assert(final(v)@ =~= old(v)@.update(k as int, final(v)@[k as int]));
}

/// Mirror the subtree rooted at `n` into the arena, returning the new node's
/// index. `fuel` bounds the recursion depth; on exhaustion the build fails
/// and the caller discards the arena.
fn build_node<'a>(
    n: &tree_sitter::Node<'a>,
    code_len: usize,
    parent: Option<usize>,
    field: FieldName,
    fuel: usize,
    out: &mut Vec<SyntaxNode>,
) -> (r: Option<usize>)
    requires
        parent is Some ==> parent.unwrap() < old(out)@.len(),
        old(out)@.len() < usize::MAX - 1,
    ensures
        match r {
            Some(k) => {
                &&& k == old(out)@.len()
                &&& final(out)@.len() > k
                &&& final(out)@.subrange(0, k as int) == old(out)@
                &&& forall|i: int| k <= i < final(out)@.len() ==> node_ok(final(out)@, i)
                &&& forall|i: int| k < i < final(out)@.len() ==> parent_linked(final(out)@, i)
                &&& final(out)@[k as int].parent == parent
                &&& forall|i: int|
                    k <= i < final(out)@.len() ==> (#[trigger] final(out)@[i]).end_byte <= code_len
                &&& final(out)@.len() <= usize::MAX
            },
            None => true,
        },
    decreases fuel,
{
    if fuel == 0 {
        return None;
    }
    if out.len() >= usize::MAX - 1 {
        return None;
    }
    let k = out.len();
    let kind_name = ts_node_kind(n);
    let kind = kind_from_name(&kind_name);
    let sb = ts_start_byte(n);
    let eb = ts_end_byte(n);
    // clamp the byte range so it is ordered and within the text
    let start_byte = if sb > code_len {
        code_len
    } else {
        sb
    };
    let end_byte = if eb > code_len {
        code_len
    } else if eb < start_byte {
        start_byte
    } else {
        eb
    };
    let node = SyntaxNode {
        kind,
        kind_name,
        field,
        start_byte,
        end_byte,
        start: ts_start_pos(n),
        end: ts_end_pos(n),
        parent,
        children: Vec::new(),
        named: ts_is_named(n),
        missing: ts_is_missing(n),
        error: ts_is_error(n),
    };
    out.push(node);
    let cc = ts_child_count(n);
    let mut kids: Vec<usize> = Vec::new();
    let mut ci: usize = 0;
    while ci < cc
        invariant
            fuel >= 1,
            k < out@.len(),
            out@.len() <= usize::MAX,
            out@.subrange(0, k as int) == old(out)@,
            out@[k as int].children@.len() == 0,
            out@[k as int].parent == parent,
            out@[k as int].start_byte <= out@[k as int].end_byte <= code_len,
            forall|i: int| k < i < out@.len() ==> node_ok(out@, i),
            forall|i: int|
                k < i < out@.len() ==> (parent_linked(out@, i) || kids@.contains(i as usize)),
            forall|i: int|
                k < i < out@.len() && (#[trigger] out@[i]).parent == Some(k) ==> kids@.contains(
                    i as usize,
                ),
            forall|j: int|
                0 <= j < kids@.len() ==> k < #[trigger] kids@[j] < out@.len()
                    && out@[kids@[j] as int].parent == Some(k),
            forall|j: int, l: int| 0 <= j < l < kids@.len() ==> kids@[j] < kids@[l],
            forall|i: int| k < i < out@.len() ==> (#[trigger] out@[i]).end_byte <= code_len,
        decreases cc - ci,
    {
        match ts_child(n, ci) {
            Some(ch) => {
                let f = ts_field_name_for_child(n, ci);
                let fname = field_from_name(&f);
                if out.len() >= usize::MAX - 1 {
                    return None;
                }
                let ghost before = out@;
                let r = build_node(&ch, code_len, Some(k), fname, fuel - 1, out);
                match r {
                    Some(kid) => {
                        proof {
                            assert(out@.subrange(0, kid as int) == before);
                            assert forall|m: int| 0 <= m < kid implies out@[m] == before[m] by {
                                assert(out@.subrange(0, kid as int)[m] == out@[m]);
                            }
                            assert(out@.subrange(0, k as int) =~= old(out)@);
                            assert forall|i: int| k < i < kid implies node_ok(out@, i) by {
                                assert(node_ok(before, i));
                                assert(out@[i] == before[i]);
                                assert forall|j: int|
                                    0 <= j < out@[i].children@.len() implies i
                                    < #[trigger] out@[i].children@[j] < out@.len()
                                    && out@[out@[i].children@[j] as int].parent == Some(
                                    i as usize,
                                ) by {
                                    assert(before[i].children@[j] < before.len());
                                    assert(out@[before[i].children@[j] as int] == before[before[i].children@[j] as int]);
                                }
                            }
                            assert forall|i: int|
                                k < i < out@.len() implies (#[trigger] out@[i]).end_byte
                                <= code_len by {
                                if i < kid {
                                    assert(out@[i] == before[i]);
                                }
                            }
                            assert forall|i: int|
                                k < i < kid implies (parent_linked(out@, i) || kids@.contains(
                                i as usize,
                            )) by {
                                if parent_linked(before, i) {
                                    match before[i].parent {
                                        Some(p) => {
                                            assert(out@[p as int] == before[p as int]);
                                        },
                                        None => {},
                                    }
                                }
                            }
                        }
                        let ghost kids_old = kids@;
                        kids.push(kid);
                        proof {
                            assert(kids@[kids@.len() - 1] == kid);
                            assert(kids@.contains(kid));
                            assert forall|x: usize| kids_old.contains(x) implies kids@.contains(
                                x,
                            ) by {
                                let j = choose|j: int| 0 <= j < kids_old.len() && kids_old[j] == x;
                                assert(kids@[j] == x);
                            }
                            assert forall|i: int|
                                k < i < out@.len() implies (parent_linked(out@, i)
                                || kids@.contains(i as usize)) by {
                                if i == kid {
                                } else if i > kid {
                                    assert(parent_linked(out@, i));
                                } else {
                                    assert(out@[i] == before[i]);
                                    assert(parent_linked(before, i) || kids_old.contains(
                                        i as usize,
                                    ));
                                    if parent_linked(before, i) {
                                        match before[i].parent {
                                            Some(p) => {
                                                assert(out@[p as int] == before[p as int]);
                                                assert(parent_linked(out@, i));
                                            },
                                            None => {},
                                        }
                                    }
                                }
                            }
                            assert forall|i: int|
                                k < i < out@.len() && (#[trigger] out@[i]).parent == Some(
                                k,
                            ) implies kids@.contains(i as usize) by {
                                if i > kid {
                                    assert(parent_linked(out@, i));
                                    assert(out@[k as int].children@.len() == 0);
                                } else if i < kid {
                                    assert(out@[i] == before[i]);
                                    assert(before[i].parent == Some(k));
                                    assert(kids_old.contains(i as usize));
                                }
                            }
                        }
                    },
                    None => {
                        return None;
                    },
                }
            },
            None => {},
        }
        ci = ci + 1;
    }
    let ghost pre_set = out@;
    set_children(out, k, &kids);
    proof {
        assert(out@[k as int].children@ == kids@);
        assert forall|m: int| 0 <= m < out@.len() && m != k implies out@[m] == pre_set[m] by {}
        assert forall|i: int| k <= i < out@.len() implies node_ok(out@, i) by {
            if i == k {
                assert forall|j: int|
                    0 <= j < out@[i].children@.len() implies i < #[trigger] out@[i].children@[j]
                    < out@.len() && out@[out@[i].children@[j] as int].parent == Some(
                    i as usize,
                ) by {
                    assert(kids@[j] != k);
                    assert(out@[kids@[j] as int] == pre_set[kids@[j] as int]);
                }
            } else {
                assert(node_ok(pre_set, i));
                assert forall|j: int|
                    0 <= j < out@[i].children@.len() implies i < #[trigger] out@[i].children@[j]
                    < out@.len() && out@[out@[i].children@[j] as int].parent == Some(
                    i as usize,
                ) by {
                    if pre_set[i].children@[j] == k {
                        assert(pre_set[k as int].parent == parent);
                        assert(pre_set[pre_set[i].children@[j] as int].parent == Some(i as usize));
                        assert(out@[k as int].parent == parent);
                    } else {
                        assert(out@[pre_set[i].children@[j] as int] == pre_set[pre_set[i].children@[j] as int]);
                    }
                }
            }
        }
        assert forall|i: int| k < i < out@.len() implies parent_linked(out@, i) by {
            if pre_set[i].parent == Some(k as usize) {
                assert(kids@.contains(i as usize));
                assert(out@[k as int].children@.contains(i as usize));
            } else {
                assert(parent_linked(pre_set, i) || kids@.contains(i as usize));
                if kids@.contains(i as usize) {
                    let j = choose|j: int| 0 <= j < kids@.len() && kids@[j] == i as usize;
                    assert(pre_set[kids@[j] as int].parent == Some(k as usize));
                    assert((i as usize) as int == i);
                    assert(pre_set[i].parent == Some(k as usize));
                } else {
                    match pre_set[i].parent {
                        Some(p) => {
                            assert(p != k);
                            assert(out@[p as int] == pre_set[p as int]);
                        },
                        None => {},
                    }
                }
            }
        }
        assert(out@.subrange(0, k as int) =~= old(out)@);
    }
    let n_final = out.len();
    assert(n_final == out@.len());
    Some(k)
}

/// A fresh parser with the grammar loaded, or None if the grammar was
/// refused.
pub fn new_parser() -> Option<tree_sitter::Parser> {
    let mut p = ts_parser_new();
    let lang = ts_openscad_language();
    if ts_set_language(&mut p, lang) {
        Some(p)
    } else {
        None
    }
}

/// Parse `code`, reusing `old` where it was edited to match, and mirror the
/// result into a well-formed arena.
pub fn parse_bytes(
    p: &mut tree_sitter::Parser,
    code: &Vec<u8>,
    old: Option<&tree_sitter::Tree>,
) -> (r: Option<(tree_sitter::Tree, SyntaxTree)>)
    ensures
        match r {
            Some(pair) => {
                &&& pair.1.wf()
                &&& pair.1.within_text(code@.len() as int)
                &&& (old is None ==> tree_nodes(pair.0) == parse_of(code@))
            },
            None => true,
        },
{
    let t = match ts_parse(p, code, old) {
        Some(t) => t,
        None => {
            return None;
        },
    };
    let code_len = code.len();
    let fuel: usize = if code_len >= usize::MAX - 1024 {
        usize::MAX
    } else {
        code_len + 1024
    };
    let mut nodes: Vec<SyntaxNode> = Vec::new();
    let built = {
        let root = ts_root_node(&t);
        build_node(&root, code_len, None, FieldName::NoField, fuel, &mut nodes)
    };
    match built {
        Some(k) => {
            let arena = SyntaxTree { nodes };
            assert(k == 0);
            assert forall|i: int| 0 <= i < arena.nodes@.len() implies arena.wf_at(i) by {
                assert(node_ok(arena.nodes@, i));
                if i > 0 {
                    assert(parent_linked(arena.nodes@, i));
                }
            }
            assert(arena.wf());
            assert(arena.within_text(code@.len() as int));
            Some((t, arena))
        },
        None => None,
    }
}

} // verus!
