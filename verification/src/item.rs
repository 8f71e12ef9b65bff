//! Declarations extracted from a syntax tree: variables, functions,
//! parameterized modules and language keywords, with the strings shown for
//! them in completions and hovers.

use vstd::prelude::*;

verus! {

use vstd::string::StringSliceAdditionalSpecFns;
use crate::SrcRange;
use crate::Pos;
use crate::bytes::{byte_range, bytes_eq, lit, push_decimal, push_slice, push_str, vec_eq_slice};
use crate::tree::{kind_eq, FieldName, NodeKind, SyntaxTree};

/// A formal parameter: name, optional default-value text, source range.
pub struct Param {
    pub name: Vec<u8>,
    pub default: Option<Vec<u8>>,
    pub range: SrcRange,
}

/// Spec view of a parameter.
pub struct ParamV {
    pub name: Seq<u8>,
    pub default: Option<Seq<u8>>,
    pub range: SrcRange,
}

impl View for Param {
    type V = ParamV;

    open spec fn view(&self) -> ParamV {
        ParamV {
            name: self.name@,
            default: match self.default {
                Some(d) => Some(d@),
                None => None,
            },
            range: self.range,
        }
    }
}

/// Flag bit of a behavior-flag word marking a block-taking ("operator")
/// module, invoked as `name(args) { ... }` rather than `name(args);`.
pub const FLAG_OPERATOR: u16 = 1;

/// Flag bit of a behavior-flag word marking a declaration whose parameter
/// names are elided in generated call snippets.
pub const FLAG_ELIDE_NAMES: u16 = 2;

/// What kind of declaration an item is. Functions and modules carry the
/// behavior-flag word optionally encoded in a marker token at the start of
/// their bodies.
pub enum ItemKind {
    Variable,
    Function { flags: u16, params: Vec<Param> },
    Keyword(Vec<u8>),
    Module { flags: u16, params: Vec<Param> },
}

/// Spec view of an item kind.
pub enum ItemKindV {
    Variable,
    Function { flags: u16, params: Seq<ParamV> },
    Keyword(Seq<u8>),
    Module { flags: u16, params: Seq<ParamV> },
}

pub open spec fn params_view(ps: Seq<Param>) -> Seq<ParamV> {
    ps.map_values(|p: Param| p@)
}

impl View for ItemKind {
    type V = ItemKindV;

    open spec fn view(&self) -> ItemKindV {
        match self {
            ItemKind::Variable => ItemKindV::Variable,
            ItemKind::Function { flags, params } => ItemKindV::Function {
                flags: *flags,
                params: params_view(params@),
            },
            ItemKind::Keyword(c) => ItemKindV::Keyword(c@),
            ItemKind::Module { flags, params } => ItemKindV::Module {
                flags: *flags,
                params: params_view(params@),
            },
        }
    }
}

/// One extracted declaration.
pub struct Item {
    pub name: Vec<u8>,
    pub kind: ItemKind,
    pub range: SrcRange,
    /// Path of the owning document; absent for parameters synthesized as
    /// local variables.
    pub url: Option<Vec<u8>>,
    pub is_builtin: bool,
    pub doc: Option<Vec<u8>>,
    /// Memoized display strings; when present they equal the corresponding
    /// builder's output.
    pub label: Option<Vec<u8>>,
    pub hover: Option<Vec<u8>>,
}

/// Spec view of an item (memo fields excluded).
pub struct ItemV {
    pub name: Seq<u8>,
    pub kind: ItemKindV,
    pub range: SrcRange,
    pub url: Option<Seq<u8>>,
    pub is_builtin: bool,
    pub doc: Option<Seq<u8>>,
}

impl View for Item {
    type V = ItemV;

    open spec fn view(&self) -> ItemV {
        ItemV {
            name: self.name@,
            kind: self.kind@,
            range: self.range,
            url: match self.url {
                Some(u) => Some(u@),
                None => None,
            },
            is_builtin: self.is_builtin,
            doc: match self.doc {
                Some(d) => Some(d@),
                None => None,
            },
        }
    }
}

impl Item {
    /// The memo fields, when filled, hold exactly the built strings.
    pub open spec fn wf(self) -> bool {
        &&& (match self.label {
            Some(l) => l@ == spec_label(self@),
            None => true,
        })
        &&& (match self.hover {
            Some(h) => h@ == spec_hover(self@),
            None => true,
        })
    }
}

/// One parameter as shown in a label: `name` or `name=default`.
pub open spec fn spec_param_label(p: ParamV) -> Seq<u8> {
    match p.default {
        Some(d) => p.name + lit("=") + d,
        None => p.name,
    }
}

/// The comma-separated parameter list from slot `i` on.
pub open spec fn spec_params_label_from(ps: Seq<ParamV>, i: int) -> Seq<u8>
    decreases ps.len() - i,
{
    if i < 0 || i >= ps.len() {
        Seq::empty()
    } else if i == ps.len() - 1 {
        spec_param_label(ps[i])
    } else {
        spec_param_label(ps[i]) + lit(", ") + spec_params_label_from(ps, i + 1)
    }
}

/// Label text of an item: its name, with `(parameters)` for callables.
pub open spec fn spec_label(it: ItemV) -> Seq<u8> {
    match it.kind {
        ItemKindV::Variable => it.name,
        ItemKindV::Keyword(_) => it.name,
        ItemKindV::Function { flags: _, params } => it.name + lit("(") + spec_params_label_from(
            params,
            0,
        ) + lit(")"),
        ItemKindV::Module { flags: _, params } => it.name + lit("(") + spec_params_label_from(
            params,
            0,
        ) + lit(")"),
    }
}

/// One required parameter as a snippet tab stop: `${idx:name}`.
pub open spec fn spec_param_snippet(p: ParamV, idx: int, ignore_name: bool, ignore_default: bool) -> Seq<u8> {
    if !ignore_default && p.default is Some {
        p.name + lit(" = ") + p.default.unwrap()
    } else if ignore_name {
        lit("${") + crate::bytes::spec_decimal(idx as nat) + lit(":") + p.name + lit("}")
    } else {
        p.name + lit(" = ${") + crate::bytes::spec_decimal(idx as nat) + lit(":") + p.name + lit(
            "}",
        )
    }
}

/// Whether a parameter is kept in a snippet: required parameters always,
/// optional ones only when defaults are not ignored.
pub open spec fn spec_param_kept(p: ParamV, ignore_default: bool) -> bool {
    p.default is None || !ignore_default
}

/// The comma-separated snippet parameter list from slot `i` on; `idx` is the
/// next tab-stop number (every kept parameter consumes one) and `first`
/// whether no entry has been emitted yet.
pub open spec fn spec_params_snippet_from(
    ps: Seq<ParamV>,
    i: int,
    idx: int,
    first: bool,
    ignore_name: bool,
    ignore_default: bool,
) -> Seq<u8>
    decreases ps.len() - i,
{
    if i < 0 || i >= ps.len() {
        Seq::empty()
    } else if !spec_param_kept(ps[i], ignore_default) {
        spec_params_snippet_from(ps, i + 1, idx, first, ignore_name, ignore_default)
    } else {
        let sep: Seq<u8> = if first {
            Seq::empty()
        } else {
            lit(", ")
        };
        sep + spec_param_snippet(ps[i], idx, ignore_name, ignore_default)
            + spec_params_snippet_from(ps, i + 1, idx + 1, false, ignore_name, ignore_default)
    }
}

/// Insertable snippet text of an item. A module whose flag word has the
/// operator bit takes a block; every other callable is rendered as a
/// statement-style call.
pub open spec fn spec_snippet(it: ItemV, ignore_default: bool) -> Seq<u8> {
    match it.kind {
        ItemKindV::Variable => it.name,
        ItemKindV::Keyword(c) => c,
        ItemKindV::Function { flags, params } => it.name + lit("(") + spec_params_snippet_from(
            params,
            0,
            1,
            true,
            flags & FLAG_ELIDE_NAMES != 0,
            ignore_default,
        ) + lit(");$0"),
        ItemKindV::Module { flags, params } => {
            let ps = spec_params_snippet_from(
                params,
                0,
                1,
                true,
                flags & FLAG_ELIDE_NAMES != 0,
                ignore_default,
            );
            if flags & FLAG_OPERATOR != 0 {
                it.name + lit("(") + ps + lit(") $0")
            } else {
                it.name + lit("(") + ps + lit(");$0")
            }
        },
    }
}

/// Hover text of an item: its label in a fenced code block, with the doc
/// string appended after a rule.
pub open spec fn spec_hover(it: ItemV) -> Seq<u8> {
    let head = match it.kind {
        ItemKindV::Function { .. } => lit("```scad\nfunction ") + spec_label(it) + lit("\n```"),
        ItemKindV::Module { .. } => lit("```scad\nmodule ") + spec_label(it) + lit("\n```"),
        _ => lit("```scad\n") + spec_label(it) + lit("\n```"),
    };
    match it.doc {
        Some(d) => if it.is_builtin {
            head + lit("\n---\n\n") + d + lit("\n")
        } else {
            head + lit("\n---\n\n<pre>\n") + d + lit("\n</pre>\n")
        },
        None => head,
    }
}

fn push_param_label(out: &mut Vec<u8>, p: &Param)
    ensures
        final(out)@ == old(out)@ + spec_param_label(p@),
{
    push_slice(out, p.name.as_slice());
    match &p.default {
        Some(d) => {
            push_str(out, "=");
            push_slice(out, d.as_slice());
        },
        None => {},
    }
}

/// Build the comma-separated parameter list of a label.
fn params_label(ps: &Vec<Param>) -> (r: Vec<u8>)
    ensures
        r@ == spec_params_label_from(params_view(ps@), 0),
{
    let mut out: Vec<u8> = Vec::new();
    let n = ps.len();
    let mut i: usize = 0;
    while i < n
        invariant
            n == ps@.len(),
            0 <= i <= n,
            spec_params_label_from(params_view(ps@), 0) == out@ + spec_params_label_from(
                params_view(ps@),
                i as int,
            ),
        decreases n - i,
    {
        assert(params_view(ps@)[i as int] == ps@[i as int]@);
        push_param_label(&mut out, &ps[i]);
        if i + 1 < n {
            push_str(&mut out, ", ");
        }
        i = i + 1;
    }
    assert(out@ + spec_params_label_from(params_view(ps@), n as int) =~= out@);
    out
}

fn push_param_snippet(out: &mut Vec<u8>, p: &Param, idx: usize, ignore_name: bool, ignore_default: bool)
    ensures
        final(out)@ == old(out)@ + spec_param_snippet(p@, idx as int, ignore_name, ignore_default),
{
    let rendered_default = !ignore_default && p.default.is_some();
    if rendered_default {
        match &p.default {
            Some(d) => {
                push_slice(out, p.name.as_slice());
                push_str(out, " = ");
                push_slice(out, d.as_slice());
            },
            None => {},
        }
    } else if ignore_name {
        push_str(out, "${");
        push_decimal(out, idx);
        push_str(out, ":");
        push_slice(out, p.name.as_slice());
        push_str(out, "}");
    } else {
        push_slice(out, p.name.as_slice());
        push_str(out, " = ${");
        push_decimal(out, idx);
        push_str(out, ":");
        push_slice(out, p.name.as_slice());
        push_str(out, "}");
    }
}

/// Build the comma-separated parameter list of a snippet.
#[verifier::rlimit(60)]
#[verifier::spinoff_prover]
fn params_snippet(ps: &Vec<Param>, ignore_name: bool, ignore_default: bool) -> (r: Vec<u8>)
    ensures
        r@ == spec_params_snippet_from(params_view(ps@), 0, 1, true, ignore_name, ignore_default),
{
    let mut out: Vec<u8> = Vec::new();
    let n = ps.len();
    let mut i: usize = 0;
    let mut count: usize = 0;
    let mut first: bool = true;
    while i < n
        invariant
            n == ps@.len(),
            0 <= i <= n,
            0 <= count <= i,
            spec_params_snippet_from(params_view(ps@), 0, 1, true, ignore_name, ignore_default)
                == out@ + spec_params_snippet_from(
                params_view(ps@),
                i as int,
                count + 1,
                first,
                ignore_name,
                ignore_default,
            ),
        decreases n - i,
    {
        assert(params_view(ps@)[i as int] == ps@[i as int]@);
        let kept = match &ps[i].default {
            Some(_) => !ignore_default,
            None => true,
        };
        if kept {
            if !first {
                push_str(&mut out, ", ");
            }
            push_param_snippet(&mut out, &ps[i], count + 1, ignore_name, ignore_default);
            count = count + 1;
            first = false;
        }
        i = i + 1;
    }
    assert(out@ + spec_params_snippet_from(params_view(ps@), n as int, count + 1, first,
        ignore_name, ignore_default) =~= out@);
    out
}

impl Item {
    /// Build the label text.
    pub fn make_label(&self) -> (r: Vec<u8>)
        ensures
            r@ == spec_label(self@),
    {
        let mut out: Vec<u8> = Vec::new();
        push_slice(&mut out, self.name.as_slice());
        match &self.kind {
            ItemKind::Variable => {},
            ItemKind::Keyword(_) => {},
            ItemKind::Function { flags: _, params } => {
                push_str(&mut out, "(");
                let pl = params_label(params);
                push_slice(&mut out, pl.as_slice());
                push_str(&mut out, ")");
            },
            ItemKind::Module { flags: _, params } => {
                push_str(&mut out, "(");
                let pl = params_label(params);
                push_slice(&mut out, pl.as_slice());
                push_str(&mut out, ")");
            },
        }
        assert(out@ =~= spec_label(self@));
        out
    }

    /// Build the snippet text.
    pub fn make_snippet(&self, ignore_default: bool) -> (r: Vec<u8>)
        ensures
            r@ == spec_snippet(self@, ignore_default),
    {
        let mut out: Vec<u8> = Vec::new();
        match &self.kind {
            ItemKind::Variable => {
                push_slice(&mut out, self.name.as_slice());
            },
            ItemKind::Keyword(c) => {
                push_slice(&mut out, c.as_slice());
            },
            ItemKind::Function { flags, params } => {
                push_slice(&mut out, self.name.as_slice());
                push_str(&mut out, "(");
                let pl = params_snippet(params, *flags & FLAG_ELIDE_NAMES != 0, ignore_default);
                push_slice(&mut out, pl.as_slice());
                push_str(&mut out, ");$0");
            },
            ItemKind::Module { flags, params } => {
                push_slice(&mut out, self.name.as_slice());
                push_str(&mut out, "(");
                let pl = params_snippet(params, *flags & FLAG_ELIDE_NAMES != 0, ignore_default);
                push_slice(&mut out, pl.as_slice());
                if *flags & FLAG_OPERATOR != 0 {
                    push_str(&mut out, ") $0");
                } else {
                    push_str(&mut out, ");$0");
                }
            },
        }
        assert(out@ =~= spec_snippet(self@, ignore_default));
        out
    }

    /// Build the hover text.
    pub fn make_hover(&self) -> (r: Vec<u8>)
        ensures
            r@ == spec_hover(self@),
    {
        let mut out: Vec<u8> = Vec::new();
        match &self.kind {
            ItemKind::Function { .. } => {
                push_str(&mut out, "```scad\nfunction ");
            },
            ItemKind::Module { .. } => {
                push_str(&mut out, "```scad\nmodule ");
            },
            _ => {
                push_str(&mut out, "```scad\n");
            },
        }
        let l = self.make_label();
        push_slice(&mut out, l.as_slice());
        push_str(&mut out, "\n```");
        match &self.doc {
            Some(d) => {
                if self.is_builtin {
                    push_str(&mut out, "\n---\n\n");
                    push_slice(&mut out, d.as_slice());
                    push_str(&mut out, "\n");
                } else {
                    push_str(&mut out, "\n---\n\n<pre>\n");
                    push_slice(&mut out, d.as_slice());
                    push_str(&mut out, "\n</pre>\n");
                }
            },
            None => {},
        }
        assert(out@ =~= spec_hover(self@));
        out
    }

    /// Label, memoized on first request.
    pub fn get_label(&mut self) -> (r: Vec<u8>)
        requires
            old(self).wf(),
        ensures
            final(self).wf(),
            final(self)@ == old(self)@,
            final(self).label is Some,
            r@ == spec_label(old(self)@),
    {
        match &self.label {
            Some(l) => l.clone(),
            None => {
                let l = self.make_label();
                self.label = Some(l.clone());
                l
            },
        }
    }

    /// Hover text, memoized on first request.
    pub fn get_hover(&mut self) -> (r: Vec<u8>)
        requires
            old(self).wf(),
        ensures
            final(self).wf(),
            final(self)@ == old(self)@,
            final(self).hover is Some,
            r@ == spec_hover(old(self)@),
    {
        match &self.hover {
            Some(h) => h.clone(),
            None => {
                let h = self.make_hover();
                self.hover = Some(h.clone());
                h
            },
        }
    }

    /// A field-wise copy whose view equals this item's.
    pub fn duplicate(&self) -> (r: Item)
        ensures
            r@ == self@,
            self.wf() ==> r.wf(),
    {
        Item {
            name: self.name.clone(),
            kind: match &self.kind {
                ItemKind::Variable => ItemKind::Variable,
                ItemKind::Function { flags, params } => ItemKind::Function {
                    flags: *flags,
                    params: clone_params(params),
                },
                ItemKind::Keyword(c) => ItemKind::Keyword(c.clone()),
                ItemKind::Module { flags, params } => ItemKind::Module {
                    flags: *flags,
                    params: clone_params(params),
                },
            },
            range: self.range,
            url: clone_opt_bytes(&self.url),
            is_builtin: self.is_builtin,
            doc: clone_opt_bytes(&self.doc),
            label: clone_opt_bytes(&self.label),
            hover: clone_opt_bytes(&self.hover),
        }
    }
}

/// Source range of node `n`, as a spec value.
pub open spec fn spec_range_of(t: SyntaxTree, n: int) -> SrcRange {
    SrcRange { start: t.node(n).start, end: t.node(n).end }
}

/// The parameter record contributed by the child in slot `j` of the
/// parameter-list node `pn`, if any.
pub open spec fn spec_param_at(t: SyntaxTree, code: Seq<u8>, pn: int, j: int) -> Option<ParamV> {
    let c = t.node(pn).children@[j] as int;
    match t.node(c).kind {
        NodeKind::Identifier => Some(
            ParamV { name: t.spec_node_text(code, c), default: None, range: spec_range_of(t, c) },
        ),
        NodeKind::Parameter => {
            if t.node(c).children@.len() > 0 {
                let cc = t.node(c).children@[0] as int;
                if t.node(cc).kind == NodeKind::Identifier {
                    Some(
                        ParamV {
                            name: t.spec_node_text(code, cc),
                            default: None,
                            range: spec_range_of(t, cc),
                        },
                    )
                } else {
                    None
                }
            } else {
                None
            }
        },
        NodeKind::Assignment => {
            match (t.spec_child_by_field(c, FieldName::Left), t.spec_child_by_field(
                c,
                FieldName::Right,
            )) {
                (Some(l), Some(r)) => Some(
                    ParamV {
                        name: t.spec_node_text(code, l),
                        default: Some(t.spec_node_text(code, r)),
                        range: spec_range_of(t, l),
                    },
                ),
                _ => None,
            }
        },
        _ => None,
    }
}

/// The parameters declared by the children of `pn` from slot `j` on.
pub open spec fn spec_params_from(t: SyntaxTree, code: Seq<u8>, pn: int, j: int) -> Seq<ParamV>
    decreases t.node(pn).children@.len() - j,
{
    if j < 0 || j >= t.node(pn).children@.len() {
        Seq::empty()
    } else {
        match spec_param_at(t, code, pn, j) {
            Some(p) => seq![p] + spec_params_from(t, code, pn, j + 1),
            None => spec_params_from(t, code, pn, j + 1),
        }
    }
}

/// All parameters declared by the parameter-list node `pn`.
pub open spec fn spec_parse_params(t: SyntaxTree, code: Seq<u8>, pn: int) -> Seq<ParamV> {
    spec_params_from(t, code, pn, 0)
}

/// Whether the text carries a behavior-flag marker at index `i`: the word
/// `builtin_flags(`, sixteen binary digits, and a closing parenthesis.
pub open spec fn spec_marker_at(s: Seq<u8>, i: int) -> bool {
    &&& 0 <= i && i + 31 <= s.len()
    &&& s.subrange(i, i + 14) == lit("builtin_flags(")
    &&& (forall|j: int| i + 14 <= j < i + 30 ==> s[j] == 48 || s[j] == 49)
    &&& s[i + 30] == 41
}

/// The first flag-marker position at or after `i`, if any.
pub open spec fn spec_find_marker(s: Seq<u8>, i: int) -> Option<int>
    decreases s.len() - i,
{
    if i < 0 || i > s.len() {
        None
    } else if spec_marker_at(s, i) {
        Some(i)
    } else if i < s.len() {
        spec_find_marker(s, i + 1)
    } else {
        None
    }
}

/// The value of the sixteen binary digits starting at `i`, most significant
/// first, folded over `acc`.
pub open spec fn spec_bits(s: Seq<u8>, i: int, k: int, acc: int) -> int
    decreases 16 - k,
{
    if k < 0 || k >= 16 {
        acc
    } else {
        spec_bits(
            s,
            i,
            k + 1,
            acc * 2 + if s[i + k] == 49 {
                1int
            } else {
                0int
            },
        )
    }
}

/// The behavior-flag word of a marker token's text: the binary value of the
/// first `builtin_flags(...)` marker, or 0 when none is present.
pub open spec fn spec_parse_flags(s: Seq<u8>) -> u16 {
    match spec_find_marker(s, 0) {
        Some(i) => spec_bits(s, i + 14, 0, 0) as u16,
        None => 0,
    }
}

/// The behavior-flag word of a declaration: parsed from the marker token at
/// the start of a module's body, or from a function's body expression; 0
/// when absent.
pub open spec fn spec_decl_flags(t: SyntaxTree, code: Seq<u8>, n: int) -> u16 {
    if t.node(n).kind == NodeKind::ModuleDeclaration {
        match t.spec_child_by_field(n, FieldName::Body) {
            Some(b) => match t.spec_first_named_child(b) {
                Some(c) => spec_parse_flags(t.spec_node_text(code, c)),
                None => 0,
            },
            None => 0,
        }
    } else {
        if t.node(n).children@.len() > 4 {
            spec_parse_flags(t.spec_node_text(code, t.node(n).children@[4] as int))
        } else {
            0
        }
    }
}

/// The declaration item contributed by node `n`, if it is one of the three
/// declaration shapes.
pub open spec fn spec_parse_item(t: SyntaxTree, code: Seq<u8>, n: int) -> Option<ItemV> {
    match t.node(n).kind {
        NodeKind::ModuleDeclaration => match t.spec_child_by_field(n, FieldName::Name) {
            Some(nm) => Some(
                ItemV {
                    name: t.spec_node_text(code, nm),
                    kind: ItemKindV::Module {
                        flags: spec_decl_flags(t, code, n),
                        params: match t.spec_child_by_field(n, FieldName::Parameters) {
                            Some(pn) => spec_parse_params(t, code, pn),
                            None => Seq::empty(),
                        },
                    },
                    range: spec_range_of(t, n),
                    url: None,
                    is_builtin: false,
                    doc: None,
                },
            ),
            None => None,
        },
        NodeKind::FunctionDeclaration => match t.spec_child_by_field(n, FieldName::Name) {
            Some(nm) => Some(
                ItemV {
                    name: t.spec_node_text(code, nm),
                    kind: ItemKindV::Function {
                        flags: spec_decl_flags(t, code, n),
                        params: match t.spec_child_by_field(n, FieldName::Parameters) {
                            Some(pn) => spec_parse_params(t, code, pn),
                            None => Seq::empty(),
                        },
                    },
                    range: spec_range_of(t, n),
                    url: None,
                    is_builtin: false,
                    doc: None,
                },
            ),
            None => None,
        },
        NodeKind::Assignment => match t.spec_child_by_field(n, FieldName::Left) {
            Some(l) => Some(
                ItemV {
                    name: t.spec_node_text(code, l),
                    kind: ItemKindV::Variable,
                    range: spec_range_of(t, n),
                    url: None,
                    is_builtin: false,
                    doc: None,
                },
            ),
            None => None,
        },
        _ => None,
    }
}

/// The views of a list of items.
pub open spec fn items_view(s: Seq<Item>) -> Seq<ItemV> {
    s.map_values(|it: Item| it@)
}

pub proof fn lemma_items_view_push(s: Seq<Item>, it: Item)
    ensures
        items_view(s.push(it)) == items_view(s).push(it@),
{
    assert(items_view(s.push(it)) =~= items_view(s).push(it@));
}

pub proof fn lemma_items_view_update(s: Seq<Item>, i: int, x: Item)
    requires
        0 <= i < s.len(),
    ensures
        items_view(s.update(i, x)) == items_view(s).update(i, x@),
{
    assert(items_view(s.update(i, x)) =~= items_view(s).update(i, x@));
}

proof fn lemma_params_view_push(s: Seq<Param>, p: Param)
    ensures
        params_view(s.push(p)) == params_view(s).push(p@),
{
    assert(params_view(s.push(p)) =~= params_view(s).push(p@));
}

/// Powers of two up to the width of a flag word.
spec fn pw16(k: int) -> int
    decreases k,
{
    if k <= 0 {
        1
    } else {
        2 * pw16(k - 1)
    }
}

proof fn lemma_pw16_le(k: int)
    requires
        0 <= k <= 16,
    ensures
        pw16(k) <= 65536,
        pw16(k) >= 1,
    decreases 16 - k,
{
    if k < 16 {
        lemma_pw16_le(k + 1);
    } else {
        assert(pw16(16) == 65536) by {
            reveal_with_fuel(pw16, 17);
        }
    }
}

/// Whether the behavior-flag marker starts at index `i` of `s`.
fn marker_at(s: &Vec<u8>, i: usize) -> (r: bool)
    requires
        i <= s@.len(),
    ensures
        r == spec_marker_at(s@, i as int),
{
    let n = s.len();
    if n - i < 31 {
        assert(!spec_marker_at(s@, i as int));
        return false;
    }
    let head = byte_range(s, i, i + 14);
    if !vec_eq_slice(&head, "builtin_flags(".as_bytes()) {
        assert(!spec_marker_at(s@, i as int));
        return false;
    }
    assert(s@.subrange(i as int, i + 14) == lit("builtin_flags("));
    let mut j = i + 14;
    while j < i + 30
        invariant
            n == s@.len(),
            i + 31 <= n,
            i + 14 <= j <= i + 30,
            forall|k: int| i + 14 <= k < j ==> s@[k] == 48 || s@[k] == 49,
        decreases i + 30 - j,
    {
        if !(s[j] == 48 || s[j] == 49) {
            assert(!spec_marker_at(s@, i as int));
            return false;
        }
        j = j + 1;
    }
    if s[i + 30] != 41 {
        assert(!spec_marker_at(s@, i as int));
        return false;
    }
    assert(spec_marker_at(s@, i as int));
    true
}

/// Find the first behavior-flag marker of `s`.
fn find_marker(s: &Vec<u8>) -> (r: Option<usize>)
    ensures
        match r {
            Some(i) => spec_find_marker(s@, 0) == Some(i as int) && i + 31 <= s@.len(),
            None => spec_find_marker(s@, 0) is None,
        },
{
    let n = s.len();
    let mut i: usize = 0;
    while i < n
        invariant
            n == s@.len(),
            0 <= i <= n,
            spec_find_marker(s@, 0) == spec_find_marker(s@, i as int),
        decreases n - i,
    {
        if marker_at(s, i) {
            return Some(i);
        }
        i = i + 1;
    }
    assert(!spec_marker_at(s@, n as int));
    None
}

/// The behavior-flag word encoded in a marker token's text, or 0 when none
/// is present.
pub fn parse_flags(s: &Vec<u8>) -> (r: u16)
    ensures
        r == spec_parse_flags(s@),
{
    let i = match find_marker(s) {
        Some(i) => i,
        None => {
            return 0;
        },
    };
    let n = s.len();
    assert(i + 31 <= n);
    let base = i + 14;
    let mut acc: u16 = 0;
    let mut k: usize = 0;
    proof {
        lemma_pw16_le(0);
    }
    while k < 16
        invariant
            n == s@.len(),
            base + 16 <= n,
            0 <= k <= 16,
            (acc as int) < pw16(k as int),
            spec_bits(s@, base as int, k as int, acc as int) == spec_bits(s@, base as int, 0, 0),
        decreases 16 - k,
    {
        proof {
            lemma_pw16_le(k + 1);
        }
        let bit: u16 = if s[base + k] == 49 {
            1
        } else {
            0
        };
        acc = acc * 2 + bit;
        k = k + 1;
    }
    proof {
        lemma_pw16_le(16);
    }
    acc
}

/// The behavior-flag word of a declaration node: from the first named child
/// of a module's body, or a function's body expression.
fn decl_flags(t: &SyntaxTree, code: &Vec<u8>, n: usize) -> (r: u16)
    requires
        t.wf(),
        t.within_text(code@.len() as int),
        0 <= n < t.len(),
    ensures
        r == spec_decl_flags(*t, code@, n as int),
{
    if kind_eq(t.kind(n), NodeKind::ModuleDeclaration) {
        match t.child_by_field(n, FieldName::Body) {
            Some(b) => match t.first_named_child(b) {
                Some(c) => {
                    let txt = t.node_text(code, c);
                    parse_flags(&txt)
                },
                None => 0,
            },
            None => 0,
        }
    } else {
        assert(t.wf_at(n as int));
        if t.nodes[n].children.len() > 4 {
            let body = t.nodes[n].children[4];
            let txt = t.node_text(code, body);
            parse_flags(&txt)
        } else {
            0
        }
    }
}

/// Parse the parameter list node `pn`.
pub fn parse_params(t: &SyntaxTree, code: &Vec<u8>, pn: usize) -> (r: Vec<Param>)
    requires
        t.wf(),
        t.within_text(code@.len() as int),
        0 <= pn < t.len(),
    ensures
        params_view(r@) == spec_parse_params(*t, code@, pn as int),
{
    let mut out: Vec<Param> = Vec::new();
    assert(t.wf_at(pn as int));
    let n = t.nodes[pn].children.len();
    let mut j: usize = 0;
    while j < n
        invariant
            t.wf(),
            t.within_text(code@.len() as int),
            0 <= pn < t.len(),
            t.wf_at(pn as int),
            n == t.node(pn as int).children@.len(),
            0 <= j <= n,
            params_view(out@) + spec_params_from(*t, code@, pn as int, j as int)
                == spec_parse_params(*t, code@, pn as int),
        decreases n - j,
    {
        let c = t.nodes[pn].children[j];
        assert(c as int == t.node(pn as int).children@[j as int] as int);
        let ghost prev = out@;
        let entry: Option<Param> = match t.kind(c) {
            NodeKind::Identifier => {
                let pr = Param { name: t.node_text(code, c), default: None, range: t.src_range(c) };
                assert(pr@.name == t.spec_node_text(code@, c as int));
                assert(t.node(c as int).kind == NodeKind::Identifier);
                assert(spec_param_at(*t, code@, pn as int, j as int) == Some(
                    ParamV {
                        name: t.spec_node_text(code@, c as int),
                        default: None,
                        range: spec_range_of(*t, c as int),
                    },
                ));
                assert(spec_param_at(*t, code@, pn as int, j as int) == Some(pr@));
                Some(pr)
            },
            NodeKind::Parameter => {
                assert(t.wf_at(c as int));
                if t.nodes[c].children.len() > 0 {
                    let cc = t.nodes[c].children[0];
                    if kind_eq(t.kind(cc), NodeKind::Identifier) {
                        let pr = Param {
                            name: t.node_text(code, cc),
                            default: None,
                            range: t.src_range(cc),
                        };
                        assert(spec_param_at(*t, code@, pn as int, j as int) == Some(
                            ParamV {
                                name: t.spec_node_text(code@, cc as int),
                                default: None,
                                range: spec_range_of(*t, cc as int),
                            },
                        ));
                        assert(spec_param_at(*t, code@, pn as int, j as int) == Some(pr@));
                        Some(pr)
                    } else {
                        assert(spec_param_at(*t, code@, pn as int, j as int) is None);
                        None
                    }
                } else {
                    assert(spec_param_at(*t, code@, pn as int, j as int) is None);
                    None
                }
            },
            NodeKind::Assignment => {
                let l = t.child_by_field(c, FieldName::Left);
                let r = t.child_by_field(c, FieldName::Right);
                match (l, r) {
                    (Some(l), Some(r)) => {
                        let pr = Param {
                            name: t.node_text(code, l),
                            default: Some(t.node_text(code, r)),
                            range: t.src_range(l),
                        };
                        assert(spec_param_at(*t, code@, pn as int, j as int) == Some(
                            ParamV {
                                name: t.spec_node_text(code@, l as int),
                                default: Some(t.spec_node_text(code@, r as int)),
                                range: spec_range_of(*t, l as int),
                            },
                        ));
                        assert(spec_param_at(*t, code@, pn as int, j as int) == Some(pr@));
                        Some(pr)
                    },
                    _ => {
                        assert(spec_param_at(*t, code@, pn as int, j as int) is None);
                        None
                    },
                }
            },
            _ => {
                assert(spec_param_at(*t, code@, pn as int, j as int) is None);
                None
            },
        };
        match entry {
            Some(p) => {
                proof {
                    assert(spec_param_at(*t, code@, pn as int, j as int) == Some(p@));
                    lemma_params_view_push(prev, p);
                }
                out.push(p);
                proof {
                    assert(params_view(out@) =~= params_view(prev) + seq![
                        spec_param_at(*t, code@, pn as int, j as int).unwrap(),
                    ]);
                }
            },
            None => {
                proof {
                    assert(spec_param_at(*t, code@, pn as int, j as int) is None);
                }
            },
        }
        proof {
            assert(params_view(out@) + spec_params_from(*t, code@, pn as int, j + 1)
                =~= spec_parse_params(*t, code@, pn as int));
        }
        j = j + 1;
    }
    assert(params_view(out@) + spec_params_from(*t, code@, pn as int, n as int) =~= params_view(
        out@,
    ));
    out
}

impl Item {
    /// Parse node `n` as a declaration, if it has one of the declaration
    /// shapes. The owning document and doc string are left unset.
    pub fn parse(t: &SyntaxTree, code: &Vec<u8>, n: usize) -> (r: Option<Item>)
        requires
            t.wf(),
            t.within_text(code@.len() as int),
            0 <= n < t.len(),
        ensures
            match r {
                Some(it) => spec_parse_item(*t, code@, n as int) == Some(it@) && it.wf()
                    && it.label is None && it.hover is None,
                None => spec_parse_item(*t, code@, n as int) is None,
            },
    {
        match t.kind(n) {
            NodeKind::ModuleDeclaration => {
                let nm = match t.child_by_field(n, FieldName::Name) {
                    Some(nm) => nm,
                    None => {
                        return None;
                    },
                };
                let flags = decl_flags(t, code, n);
                let params = match t.child_by_field(n, FieldName::Parameters) {
                    Some(pn) => parse_params(t, code, pn),
                    None => {
                        let v: Vec<Param> = Vec::new();
                        assert(params_view(v@) =~= Seq::<ParamV>::empty());
                        v
                    },
                };
                Some(
                    Item {
                        name: t.node_text(code, nm),
                        kind: ItemKind::Module { flags, params },
                        range: t.src_range(n),
                        url: None,
                        is_builtin: false,
                        doc: None,
                        label: None,
                        hover: None,
                    },
                )
            },
            NodeKind::FunctionDeclaration => {
                let nm = match t.child_by_field(n, FieldName::Name) {
                    Some(nm) => nm,
                    None => {
                        return None;
                    },
                };
                let flags = decl_flags(t, code, n);
                let params = match t.child_by_field(n, FieldName::Parameters) {
                    Some(pn) => parse_params(t, code, pn),
                    None => {
                        let v: Vec<Param> = Vec::new();
                        assert(params_view(v@) =~= Seq::<ParamV>::empty());
                        v
                    },
                };
                Some(
                    Item {
                        name: t.node_text(code, nm),
                        kind: ItemKind::Function { flags, params },
                        range: t.src_range(n),
                        url: None,
                        is_builtin: false,
                        doc: None,
                        label: None,
                        hover: None,
                    },
                )
            },
            NodeKind::Assignment => {
                let l = match t.child_by_field(n, FieldName::Left) {
                    Some(l) => l,
                    None => {
                        return None;
                    },
                };
                Some(
                    Item {
                        name: t.node_text(code, l),
                        kind: ItemKind::Variable,
                        range: t.src_range(n),
                        url: None,
                        is_builtin: false,
                        doc: None,
                        label: None,
                        hover: None,
                    },
                )
            },
            _ => None,
        }
    }
}

/// Copy an optional byte string, preserving its view.
pub fn clone_opt_bytes(v: &Option<Vec<u8>>) -> (r: Option<Vec<u8>>)
    ensures
        (r is Some) == (v is Some),
        r is Some ==> r.unwrap()@ == v.unwrap()@,
{
    match v {
        Some(x) => Some(x.clone()),
        None => None,
    }
}

/// Copy a parameter list, preserving its view.
pub fn clone_params(ps: &Vec<Param>) -> (r: Vec<Param>)
    ensures
        params_view(r@) == params_view(ps@),
{
    let mut out: Vec<Param> = Vec::new();
    let n = ps.len();
    let mut i: usize = 0;
    while i < n
        invariant
            n == ps@.len(),
            0 <= i <= n,
            out@.len() == i,
            forall|j: int| 0 <= j < i ==> out@[j]@ == ps@[j]@,
        decreases n - i,
    {
        let p = &ps[i];
        out.push(
            Param {
                name: p.name.clone(),
                default: clone_opt_bytes(&p.default),
                range: p.range,
            },
        );
        i = i + 1;
    }
    assert(params_view(out@) =~= params_view(ps@));
    out
}

} // verus!
