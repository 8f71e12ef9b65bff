//! The document syntax tree, modeled as an arena of nodes.
//!
//! Parsing itself is delegated to an external incremental parser; its output
//! is mirrored into this arena once per parse, and every analysis (symbol
//! extraction, scope resolution, rename) works on the arena alone. Nodes are
//! stored in preorder, so a parent always has a smaller index than each of
//! its children; sibling lists are strictly ascending.

use vstd::prelude::*;

verus! {

use crate::Pos;
use crate::SrcRange;

/// Grammar shape of a node, as far as the analyses care.
#[derive(Clone, Copy, PartialEq, Eq, Structural, Debug)]
pub enum NodeKind {
    SourceFile,
    ModuleDeclaration,
    FunctionDeclaration,
    Assignment,
    UnionBlock,
    Identifier,
    Comment,
    IncludeStatement,
    UseStatement,
    IncludePath,
    Parameter,
    SpecialVariable,
    Other,
}

/// Grammar field that links a node to its parent, where one applies.
#[derive(Clone, Copy, PartialEq, Eq, Structural, Debug)]
pub enum FieldName {
    NoField,
    Name,
    Parameters,
    Body,
    Left,
    Right,
    OtherField,
}

/// One syntax node: kind, byte range, line/column range, links.
pub struct SyntaxNode {
    pub kind: NodeKind,
    /// The grammar's own name for the node kind, kept for diagnostics.
    pub kind_name: Vec<u8>,
    /// Field under which this node sits in its parent.
    pub field: FieldName,
    pub start_byte: usize,
    pub end_byte: usize,
    pub start: Pos,
    pub end: Pos,
    pub parent: Option<usize>,
    pub children: Vec<usize>,
    pub named: bool,
    pub missing: bool,
    pub error: bool,
}

/// A parsed document's node arena. Index 0 is the root.
pub struct SyntaxTree {
    pub nodes: Vec<SyntaxNode>,
}

impl SyntaxTree {
    pub open spec fn len(self) -> int {
        self.nodes@.len() as int
    }

    pub open spec fn node(self, i: int) -> SyntaxNode {
        self.nodes@[i]
    }

    /// Structural well-formedness of one node's links.
    pub open spec fn wf_at(self, i: int) -> bool {
        let n = self.nodes@[i];
        &&& (match n.parent {
            Some(p) => i != 0 && 0 <= p < i && self.nodes@[p as int].children@.contains(i as usize),
            None => i == 0,
        })
        &&& (forall|j: int|
            0 <= j < n.children@.len() ==> i < #[trigger] n.children@[j] < self.nodes@.len())
        &&& (forall|j: int|
            0 <= j < n.children@.len() ==> self.nodes@[#[trigger] n.children@[j] as int].parent
                == Some(i as usize))
        &&& (forall|j: int, k: int|
            0 <= j < k < n.children@.len() ==> #[trigger] n.children@[j] < #[trigger] n.children@[k])
        &&& n.start_byte <= n.end_byte
    }

    /// The arena is non-empty, rooted at index 0, and every node's links are
    /// consistent.
    pub open spec fn wf(self) -> bool {
        &&& self.nodes@.len() >= 1
        &&& forall|i: int| 0 <= i < self.nodes@.len() ==> self.wf_at(i)
    }

    /// Every node's byte range lies within a text of length `n`.
    pub open spec fn within_text(self, n: int) -> bool {
        forall|i: int| 0 <= i < self.nodes@.len() ==> (#[trigger] self.nodes@[i]).end_byte <= n
    }

    pub fn node_count(&self) -> (r: usize)
        ensures
            r == self.len(),
    {
        self.nodes.len()
    }

    pub fn kind(&self, i: usize) -> (k: NodeKind)
        requires
            0 <= i < self.len(),
        ensures
            k == self.node(i as int).kind,
    {
        self.nodes[i].kind
    }

    pub fn parent_of(&self, i: usize) -> (p: Option<usize>)
        requires
            0 <= i < self.len(),
        ensures
            p == self.node(i as int).parent,
    {
        self.nodes[i].parent
    }

    /// First slot of `c` within the child list of `p`, scanning from `j`.
    pub open spec fn spec_slot_from(self, p: int, c: int, j: int) -> Option<int>
        decreases self.node(p).children@.len() - j,
    {
        let cs = self.node(p).children@;
        if j < 0 || j >= cs.len() {
            None
        } else if cs[j] == c {
            Some(j)
        } else {
            self.spec_slot_from(p, c, j + 1)
        }
    }

    /// The preceding sibling of `c`, as a spec value.
    pub open spec fn spec_prev_sibling(self, c: int) -> Option<int> {
        match self.node(c).parent {
            Some(p) => match self.spec_slot_from(p as int, c, 0) {
                Some(j) => if j > 0 {
                    Some(self.node(p as int).children@[j - 1] as int)
                } else {
                    None
                },
                None => None,
            },
            None => None,
        }
    }

    /// Index of `i` within its parent's child list.
    pub fn child_slot(&self, i: usize) -> (r: Option<usize>)
        requires
            self.wf(),
            0 <= i < self.len(),
        ensures
            match r {
                Some(j) => {
                    let p = self.node(i as int).parent;
                    &&& p is Some
                    &&& 0 <= j < self.node(p.unwrap() as int).children@.len()
                    &&& self.node(p.unwrap() as int).children@[j as int] == i
                    &&& self.spec_slot_from(p.unwrap() as int, i as int, 0) == Some(j as int)
                },
                None => self.node(i as int).parent is None,
            },
    {
        match self.nodes[i].parent {
            None => None,
            Some(p) => {
                assert(self.wf_at(i as int));
                assert(self.wf_at(p as int));
                let cs = &self.nodes[p].children;
                let ghost target = choose|j: int|
                    0 <= j < cs@.len() && cs@[j] == i;
                let mut j: usize = 0;
                while j < cs.len()
                    invariant
                        0 <= i < self.len(),
                        0 <= p < self.len(),
                        self.node(i as int).parent == Some(p),
                        cs@ == self.node(p as int).children@,
                        0 <= j <= cs@.len(),
                        0 <= target < cs@.len() && cs@[target] == i,
                        self.spec_slot_from(p as int, i as int, 0) == self.spec_slot_from(
                            p as int,
                            i as int,
                            j as int,
                        ),
                        forall|k: int| 0 <= k < j ==> #[trigger] cs@[k] != i,
                    decreases cs@.len() - j,
                {
                    if cs[j] == i {
                        assert(self.node(i as int).parent == Some(p));
                        assert(self.node(p as int).children@[j as int] == i);
                        return Some(j);
                    }
                    j = j + 1;
                }
                assert(false);
                None
            },
        }
    }

    /// The preceding sibling of `i`, if any.
    pub fn prev_sibling(&self, i: usize) -> (r: Option<usize>)
        requires
            self.wf(),
            0 <= i < self.len(),
        ensures
            match r {
                Some(s) => s < i && 0 <= s < self.len() && self.spec_prev_sibling(i as int)
                    == Some(s as int),
                None => self.spec_prev_sibling(i as int) is None,
            },
    {
        match self.child_slot(i) {
            None => None,
            Some(j) => {
                if j == 0 {
                    None
                } else {
                    assert(self.wf_at(i as int));
                    let p = self.nodes[i].parent.unwrap();
                    assert(self.wf_at(p as int));
                    let s = self.nodes[p].children[j - 1];
                    assert(self.node(p as int).children@[j - 1] < self.node(
                        p as int,
                    ).children@[j as int]);
                    Some(s)
                }
            },
        }
    }

    /// True if position `p` is strictly before the end position of node `i`.
    pub fn pos_before_end(&self, i: usize, p: Pos) -> (r: bool)
        requires
            0 <= i < self.len(),
        ensures
            r == pos_lt(p, self.node(i as int).end),
    {
        let e = self.nodes[i].end;
        p.row < e.row || (p.row == e.row && p.col < e.col)
    }

    /// First child of `i` at or after slot `j` whose end position extends
    /// beyond `p`.
    pub open spec fn spec_child_past_from(self, i: int, p: Pos, j: int) -> Option<int>
        decreases self.node(i).children@.len() - j,
    {
        let cs = self.node(i).children@;
        if j < 0 || j >= cs.len() {
            None
        } else if pos_lt(p, self.node(cs[j] as int).end) {
            Some(cs[j] as int)
        } else {
            self.spec_child_past_from(i, p, j + 1)
        }
    }

    /// First child of `i` whose end position extends beyond `p`, as a spec
    /// value.
    pub open spec fn spec_first_child_past(self, i: int, p: Pos) -> Option<int> {
        self.spec_child_past_from(i, p, 0)
    }

    /// First child of `i` whose end position extends beyond `p`, if any.
    pub fn first_child_past(&self, i: usize, p: Pos) -> (r: Option<usize>)
        requires
            self.wf(),
            0 <= i < self.len(),
        ensures
            match r {
                Some(c) => i < c < self.len() && self.spec_first_child_past(i as int, p) == Some(
                    c as int,
                ),
                None => self.spec_first_child_past(i as int, p) is None,
            },
    {
        assert(self.wf_at(i as int));
        let cs_len = self.nodes[i].children.len();
        let mut j: usize = 0;
        while j < cs_len
            invariant
                self.wf(),
                self.wf_at(i as int),
                0 <= i < self.len(),
                cs_len == self.node(i as int).children@.len(),
                0 <= j <= cs_len,
                self.spec_child_past_from(i as int, p, 0) == self.spec_child_past_from(
                    i as int,
                    p,
                    j as int,
                ),
            decreases cs_len - j,
        {
            let c = self.nodes[i].children[j];
            if self.pos_before_end(c, p) {
                return Some(c);
            }
            j = j + 1;
        }
        None
    }

    /// Deepest node reached by repeatedly descending to the first child whose
    /// end position extends beyond `p` — the node the editor position rests
    /// on.
    pub fn node_at_point(&self, p: Pos) -> (r: usize)
        requires
            self.wf(),
        ensures
            0 <= r < self.len(),
            r == spec_node_at(*self, p, 0),
    {
        let mut cur: usize = 0;
        loop
            invariant
                self.wf(),
                0 <= cur < self.len(),
                spec_node_at(*self, p, cur as int) == spec_node_at(*self, p, 0),
            decreases self.len() - cur,
        {
            match self.first_child_past(cur, p) {
                Some(c) => {
                    assert(spec_node_at(*self, p, cur as int) == spec_node_at(*self, p, c as int));
                    cur = c;
                },
                None => {
                    assert(spec_node_at(*self, p, cur as int) == cur as int);
                    return cur;
                },
            }
        }
    }
}

impl SyntaxTree {
    /// First child of `n` at or after child slot `j` carrying grammar field
    /// `f`.
    pub open spec fn find_field_from(self, n: int, j: int, f: FieldName) -> Option<int>
        decreases self.nodes@[n].children@.len() - j,
    {
        let cs = self.nodes@[n].children@;
        if j < 0 || j >= cs.len() {
            None
        } else if self.nodes@[cs[j] as int].field == f {
            Some(cs[j] as int)
        } else {
            self.find_field_from(n, j + 1, f)
        }
    }

    /// First child of `n` carrying grammar field `f`, as a spec value.
    pub open spec fn spec_child_by_field(self, n: int, f: FieldName) -> Option<int> {
        self.find_field_from(n, 0, f)
    }

    /// First child of `n` carrying grammar field `f`.
    pub fn child_by_field(&self, n: usize, f: FieldName) -> (r: Option<usize>)
        requires
            self.wf(),
            0 <= n < self.len(),
        ensures
            match r {
                Some(c) => self.spec_child_by_field(n as int, f) == Some(c as int) && 0 <= c
                    < self.len(),
                None => self.spec_child_by_field(n as int, f) is None,
            },
    {
        assert(self.wf_at(n as int));
        let cs_len = self.nodes[n].children.len();
        let mut j: usize = 0;
        while j < cs_len
            invariant
                self.wf(),
                self.wf_at(n as int),
                0 <= n < self.len(),
                cs_len == self.node(n as int).children@.len(),
                0 <= j <= cs_len,
                self.find_field_from(n as int, 0, f) == self.find_field_from(n as int, j as int, f),
            decreases cs_len - j,
        {
            let c = self.nodes[n].children[j];
            if field_eq(self.nodes[c].field, f) {
                return Some(c);
            }
            j = j + 1;
        }
        None
    }

    /// First named child of `n` at or after child slot `j`.
    pub open spec fn find_named_from(self, n: int, j: int) -> Option<int>
        decreases self.nodes@[n].children@.len() - j,
    {
        let cs = self.nodes@[n].children@;
        if j < 0 || j >= cs.len() {
            None
        } else if self.nodes@[cs[j] as int].named {
            Some(cs[j] as int)
        } else {
            self.find_named_from(n, j + 1)
        }
    }

    /// First named child of `n`, as a spec value.
    pub open spec fn spec_first_named_child(self, n: int) -> Option<int> {
        self.find_named_from(n, 0)
    }

    /// First named child of `n`.
    pub fn first_named_child(&self, n: usize) -> (r: Option<usize>)
        requires
            self.wf(),
            0 <= n < self.len(),
        ensures
            match r {
                Some(c) => self.spec_first_named_child(n as int) == Some(c as int) && 0 <= c
                    < self.len(),
                None => self.spec_first_named_child(n as int) is None,
            },
    {
        assert(self.wf_at(n as int));
        let cs_len = self.nodes[n].children.len();
        let mut j: usize = 0;
        while j < cs_len
            invariant
                self.wf(),
                self.wf_at(n as int),
                0 <= n < self.len(),
                cs_len == self.node(n as int).children@.len(),
                0 <= j <= cs_len,
                self.find_named_from(n as int, 0) == self.find_named_from(n as int, j as int),
            decreases cs_len - j,
        {
            let c = self.nodes[n].children[j];
            if self.nodes[c].named {
                return Some(c);
            }
            j = j + 1;
        }
        None
    }

    /// The text of node `n`, as a spec value.
    pub open spec fn spec_node_text(self, code: Seq<u8>, n: int) -> Seq<u8> {
        code.subrange(self.nodes@[n].start_byte as int, self.nodes@[n].end_byte as int)
    }

    /// Copy of the text of node `n`.
    pub fn node_text(&self, code: &Vec<u8>, n: usize) -> (r: Vec<u8>)
        requires
            self.wf(),
            self.within_text(code@.len() as int),
            0 <= n < self.len(),
        ensures
            r@ == self.spec_node_text(code@, n as int),
    {
        assert(self.wf_at(n as int));
        crate::bytes::byte_range(code, self.nodes[n].start_byte, self.nodes[n].end_byte)
    }

    /// The source range of node `n`.
    pub fn src_range(&self, n: usize) -> (r: SrcRange)
        requires
            0 <= n < self.len(),
        ensures
            r == (SrcRange { start: self.node(n as int).start, end: self.node(n as int).end }),
    {
        SrcRange { start: self.nodes[n].start, end: self.nodes[n].end }
    }
}

/// Equality on field tags.
pub fn field_eq(a: FieldName, b: FieldName) -> (r: bool)
    ensures
        r == (a == b),
{
    a == b
}

/// Equality on node kinds.
pub fn kind_eq(a: NodeKind, b: NodeKind) -> (r: bool)
    ensures
        r == (a == b),
{
    a == b
}

/// Strict order on positions: row-major, then column.
pub open spec fn pos_lt(a: Pos, b: Pos) -> bool {
    a.row < b.row || (a.row == b.row && a.col < b.col)
}

/// The node `node_at_point` rests on, descending from `n`: follow the first
/// child whose end position extends beyond `p` until none does.
pub open spec fn spec_node_at(t: SyntaxTree, p: Pos, n: int) -> int
    decreases t.len() - n,
{
    if !t.wf() || !(0 <= n < t.len()) {
        n
    } else {
        match t.spec_first_child_past(n, p) {
            Some(c) => if n < c < t.len() {
                spec_node_at(t, p, c)
            } else {
                n
            },
            None => n,
        }
    }
}

} // verus!
