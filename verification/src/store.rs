//! The document model and the document cache.
//!
//! A `Document` owns one file's text, its parse trees and its lazily rebuilt
//! item/include caches; any edit marks it changed and the caches are
//! regenerated on next read. The `DocumentStore` is a bounded,
//! insertion-ordered cache of documents: once it holds more than its capacity
//! the single oldest-inserted entry is evicted.

use vstd::prelude::*;

verus! {

use crate::Pos;
use crate::SrcRange;
use crate::bridge::{new_parser, parse_bytes, parse_of, tree_nodes, ts_tree_edit};
use crate::bytes::{byte_range, bytes_eq};
use crate::extract::{extract_items, spec_extract_items};
use crate::inc::{extract_inc_edges, paths_view, spec_inc_edges};
use crate::item::{items_view, Item};
use crate::text::{find_offset, spec_find_offset};
use crate::tree::SyntaxTree;

/// One editor-reported change: a ranged replacement, or a full-text
/// replacement when `range` is absent.
pub struct ChangeEvent {
    pub range: Option<SrcRange>,
    pub text: Vec<u8>,
}

/// Spec view of a change event.
pub struct ChangeEventV {
    pub range: Option<SrcRange>,
    pub text: Seq<u8>,
}

impl View for ChangeEvent {
    type V = ChangeEventV;

    open spec fn view(&self) -> ChangeEventV {
        ChangeEventV {
            range: self.range,
            text: self.text@,
        }
    }
}

pub open spec fn events_view(s: Seq<ChangeEvent>) -> Seq<ChangeEventV> {
    s.map_values(|e: ChangeEvent| e@)
}

/// The text after one ranged replacement.
pub open spec fn spec_splice(code: Seq<u8>, s: int, e: int, text: Seq<u8>) -> Seq<u8> {
    code.subrange(0, s) + text + code.subrange(e, code.len() as int)
}

/// The text after a batch of change events, applied in order; each event's
/// positions are read against the text as edited so far. A full-text
/// replacement discards the rest of the batch. None if a position does not
/// exist in the text it is read against.
pub open spec fn spec_apply_events(code: Seq<u8>, events: Seq<ChangeEventV>, i: int) -> Option<
    Seq<u8>,
>
    decreases events.len() - i,
{
    if i < 0 || i >= events.len() {
        Some(code)
    } else {
        match events[i].range {
            None => Some(events[i].text),
            Some(r) => match (spec_find_offset(code, r.start), spec_find_offset(code, r.end)) {
                (Some(s), Some(e)) => if s <= e {
                    spec_apply_events(spec_splice(code, s, e, events[i].text), events, i + 1)
                } else {
                    None
                },
                _ => None,
            },
        }
    }
}

/// Splice `text` over the byte range `[s, e)` of `code`.
fn splice(code: &Vec<u8>, s: usize, e: usize, text: &Vec<u8>) -> (r: Vec<u8>)
    requires
        s <= e <= code@.len(),
    ensures
        r@ == spec_splice(code@, s as int, e as int, text@),
{
    let mut out = byte_range(code, 0, s);
    crate::bytes::push_slice(&mut out, text.as_slice());
    let tail = byte_range(code, e, code.len());
    crate::bytes::push_slice(&mut out, tail.as_slice());
    assert(out@ =~= spec_splice(code@, s as int, e as int, text@));
    out
}

/// One recorded tree edit, in bytes and positions.
struct EditRec {
    start_byte: usize,
    old_end_byte: usize,
    new_end_byte: usize,
    start: Pos,
    old_end: Pos,
    new_end: Pos,
}

fn saturating_add(a: usize, b: usize) -> (r: usize)
    ensures
        r == if a + b <= usize::MAX {
            a + b
        } else {
            usize::MAX as int
        },
{
    if a <= usize::MAX - b {
        a + b
    } else {
        usize::MAX
    }
}

/// Count newlines and find the last one, in one scan.
fn newline_stats(text: &Vec<u8>) -> (r: (usize, Option<usize>))
    ensures
        r.1 is Some ==> r.1.unwrap() < text@.len(),
{
    let n = text.len();
    let mut count: usize = 0;
    let mut last: Option<usize> = None;
    let mut i: usize = 0;
    while i < n
        invariant
            n == text@.len(),
            0 <= i <= n,
            count <= i,
            last is Some ==> last.unwrap() < i,
        decreases n - i,
    {
        if text[i] == crate::doc::B_NL {
            if count < usize::MAX {
                count = count + 1;
            }
            last = Some(i);
        }
        i = i + 1;
    }
    (count, last)
}

/// One source file: text, parse trees, derived caches, flags.
pub struct Document {
    /// The document's identifier: its file path.
    pub path: Vec<u8>,
    pub code: Vec<u8>,
    pub parser: tree_sitter::Parser,
    pub ts_tree: Option<tree_sitter::Tree>,
    pub tree: SyntaxTree,
    /// Cached top-level declarations; valid only while `changed` is false.
    pub root_items: Option<Vec<Item>>,
    /// Cached resolved include edges; valid only while `changed` is false.
    pub includes: Option<Vec<Vec<u8>>>,
    pub is_builtin: bool,
    pub external_builtin: bool,
    pub changed: bool,
}

impl Document {
    /// The arena matches the text, cached items are well formed, and a clean
    /// item cache holds exactly the extraction of the current text.
    pub open spec fn inv(self) -> bool {
        &&& self.tree.wf()
        &&& self.tree.within_text(self.code@.len() as int)
        &&& (self.root_items is Some) == (self.includes is Some)
        &&& match self.root_items {
            Some(items) => {
                &&& forall|i: int| 0 <= i < items@.len() ==> (#[trigger] items@[i]).wf()
                &&& !self.changed ==> items_view(items@) == spec_extract_items(
                    self.tree,
                    self.code@,
                    self.is_builtin,
                    self.external_builtin,
                    self.path@,
                )
            },
            None => true,
        }
    }

    /// Parse a fresh document from its full text.
    pub fn new(path: Vec<u8>, code: Vec<u8>) -> (r: Option<Document>)
        ensures
            match r {
                Some(d) => {
                    &&& d.inv()
                    &&& d.path@ == path@
                    &&& d.code@ == code@
                    &&& d.changed
                    &&& !d.is_builtin
                    &&& !d.external_builtin
                    &&& d.root_items is None
                    &&& d.includes is None
                    &&& (d.ts_tree matches Some(tt) && tree_nodes(tt) == parse_of(d.code@))
                },
                None => true,
            },
    {
        let mut parser = match new_parser() {
            Some(p) => p,
            None => {
                return None;
            },
        };
        let (t, arena) = match parse_bytes(&mut parser, &code, None) {
            Some(pair) => pair,
            None => {
                return None;
            },
        };
        Some(
            Document {
                path,
                code,
                parser,
                ts_tree: Some(t),
                tree: arena,
                root_items: None,
                includes: None,
                is_builtin: false,
                external_builtin: false,
                changed: true,
            },
        )
    }

    /// Mark a document as a library/builtin document.
    pub fn set_builtin(&mut self, external: bool)
        requires
            old(self).inv(),
        ensures
            final(self).inv(),
            final(self).is_builtin,
            final(self).external_builtin == external,
            final(self).code@ == old(self).code@,
            final(self).path@ == old(self).path@,
            final(self).changed,
    {
        self.is_builtin = true;
        self.external_builtin = external;
        self.changed = true;
    }

    /// Apply a batch of editor changes: splice the text, record the edits
    /// against the old tree, and re-parse incrementally. On an invalid
    /// position nothing is changed and false is returned. On success the new
    /// text is exactly the spliced batch and the new tree is the parse of
    /// that text.
    pub fn apply_edits(&mut self, events: &Vec<ChangeEvent>) -> (ok: bool)
        requires
            old(self).inv(),
        ensures
            final(self).inv(),
            final(self).path@ == old(self).path@,
            final(self).is_builtin == old(self).is_builtin,
            final(self).external_builtin == old(self).external_builtin,
            // the item/include caches are never rebuilt here: an edit only
            // marks the document dirty, and the caches are rebuilt lazily on
            // the next read
            final(self).root_items == old(self).root_items,
            final(self).includes == old(self).includes,
            final(self).changed,
            ok ==> {
                &&& Some(final(self).code@) == spec_apply_events(
                    old(self).code@,
                    events_view(events@),
                    0,
                )
                &&& final(self).ts_tree is Some
                &&& ((old(self).ts_tree is None || exists|i: int|
                    0 <= i < events_view(events@).len() && (#[trigger] events_view(
                        events@,
                    )[i]).range is None) ==> (final(self).ts_tree matches Some(tt) && tree_nodes(
                    tt,
                ) == parse_of(final(self).code@)))
            },
            !ok ==> {
                &&& final(self).code@ == old(self).code@
                &&& final(self).tree == old(self).tree
            },
    {
        let mut buf = byte_range(&self.code, 0, self.code.len());
        let mut recs: Vec<EditRec> = Vec::new();
        let mut full = false;
        let n = events.len();
        let mut i: usize = 0;
        assert(buf@ =~= self.code@);
        while i < n && !full
            invariant
                *self == *old(self),
                old(self).inv(),
                n == events@.len(),
                0 <= i <= n,
                !full ==> forall|j: int|
                    0 <= j < i ==> (#[trigger] events_view(events@)[j]).range is Some,
                spec_apply_events(old(self).code@, events_view(events@), 0) == if full {
                    Some(buf@)
                } else {
                    spec_apply_events(buf@, events_view(events@), i as int)
                },
            decreases n - i,
        {
            let ev = &events[i];
            assert(events_view(events@)[i as int] == events@[i as int]@);
            match &ev.range {
                Some(r) => {
                    let s = match find_offset(&buf, r.start) {
                        Some(s) => s,
                        None => {
                            self.changed = true;
                            return false;
                        },
                    };
                    let e = match find_offset(&buf, r.end) {
                        Some(e) => e,
                        None => {
                            self.changed = true;
                            return false;
                        },
                    };
                    if s > e {
                        self.changed = true;
                        return false;
                    }
                    let (nl_count, nl_last) = newline_stats(&ev.text);
                    let new_end = match nl_last {
                        Some(ind) => Pos {
                            row: saturating_add(r.start.row, nl_count),
                            col: ev.text.len() - ind,
                        },
                        None => Pos {
                            row: r.start.row,
                            col: saturating_add(r.start.col, ev.text.len()),
                        },
                    };
                    recs.push(
                        EditRec {
                            start_byte: s,
                            old_end_byte: e,
                            new_end_byte: saturating_add(s, ev.text.len()),
                            start: r.start,
                            old_end: r.end,
                            new_end,
                        },
                    );
                    buf = splice(&buf, s, e, &ev.text);
                },
                None => {
                    buf = byte_range(&ev.text, 0, ev.text.len());
                    assert(buf@ =~= events@[i as int]@.text);
                    full = true;
                },
            }
            i = i + 1;
        }
        // commit: record tree edits, then re-parse
        if full {
            self.ts_tree = None;
        } else {
            match &mut self.ts_tree {
                Some(t) => {
                    let m = recs.len();
                    let mut j: usize = 0;
                    while j < m
                        invariant
                            m == recs@.len(),
                            0 <= j <= m,
                        decreases m - j,
                    {
                        let rec = &recs[j];
                        ts_tree_edit(
                            t,
                            rec.start_byte,
                            rec.old_end_byte,
                            rec.new_end_byte,
                            rec.start,
                            rec.old_end,
                            rec.new_end,
                        );
                        j = j + 1;
                    }
                },
                None => {},
            }
        }
        let parsed = match &self.ts_tree {
            Some(t0) => parse_bytes(&mut self.parser, &buf, Some(t0)),
            None => parse_bytes(&mut self.parser, &buf, None),
        };
        match parsed {
            Some((t, arena)) => {
                self.code = buf;
                self.ts_tree = Some(t);
                self.tree = arena;
                self.changed = true;
                true
            },
            None => {
                self.ts_tree = None;
                self.changed = true;
                false
            },
        }
    }

    /// Rebuild the item and include caches if the document changed since they
    /// were last built.
    pub fn gen_top_level_items_if_needed(&mut self, libs: &Vec<Vec<u8>>, avail: &Vec<Vec<u8>>)
        requires
            old(self).inv(),
        ensures
            final(self).inv(),
            final(self).code@ == old(self).code@,
            final(self).tree == old(self).tree,
            final(self).path@ == old(self).path@,
            final(self).is_builtin == old(self).is_builtin,
            final(self).external_builtin == old(self).external_builtin,
            !final(self).changed,
            final(self).root_items matches Some(items) && items_view(items@)
                == spec_extract_items(
                final(self).tree,
                final(self).code@,
                final(self).is_builtin,
                final(self).external_builtin,
                final(self).path@,
            ),
            final(self).includes is Some,
            old(self).changed || old(self).root_items is None || final(self).root_items == old(
                self,
            ).root_items,
    {
        if !self.changed && self.root_items.is_some() {
            // caches are clean; nothing to do
            return ;
        }
        let items = extract_items(
            &self.tree,
            &self.code,
            self.is_builtin,
            self.external_builtin,
            &self.path,
        );
        self.root_items = Some(items);
        let edges = extract_inc_edges(&self.tree, &self.code, &self.path, libs, avail);
        self.includes = Some(edges);
        self.changed = false;
    }
}

#[verifier::external_type_specification]
#[verifier::external_body]
#[verifier::reject_recursive_types(K)]
#[verifier::reject_recursive_types(V)]
#[verifier::reject_recursive_types(S)]
pub struct ExLinkedHashMap<K, V, S>(linked_hash_map::LinkedHashMap<K, V, S>);

/// The cache index: interned document id to slot.
pub type SlotIndex = linked_hash_map::LinkedHashMap<u64, u64>;

/// What the cache's index holds: document id to slot.
pub uninterp spec fn lhm_entries(m: SlotIndex) -> Map<u64, u64>;

/// The index's insertion order, oldest first.
pub uninterp spec fn lhm_order(m: SlotIndex) -> Seq<u64>;

/// The empty id-to-slot map.
pub open spec fn empty_entries() -> Map<u64, u64> {
    Map::empty()
}

/// An order sequence with every occurrence of `k` removed.
pub open spec fn order_without(s: Seq<u64>, k: u64) -> Seq<u64> {
    s.filter(|x: u64| x != k)
}

/// Relies on linked_hash_map::LinkedHashMap::new: the fresh map is empty.
#[verifier::external_body]
fn lhm_new() -> (m: SlotIndex)
    ensures
        lhm_entries(m) == empty_entries(),
        lhm_order(m) == Seq::<u64>::empty(),
{
    linked_hash_map::LinkedHashMap::new()
}

/// Relies on linked_hash_map::LinkedHashMap::len: the number of entries,
/// which equals the length of the insertion-order list.
#[verifier::external_body]
fn lhm_len(m: &SlotIndex) -> (r: usize)
    ensures
        r == lhm_order(*m).len(),
{
    m.len()
}

/// Relies on linked_hash_map::LinkedHashMap::insert: the value is stored
/// under the key; the key moves to the back of the insertion order; the old
/// value, if any, is returned.
#[verifier::external_body]
fn lhm_insert(m: &mut SlotIndex, k: u64, v: u64) -> (r: Option<u64>)
    ensures
        lhm_entries(*final(m)) == lhm_entries(*old(m)).insert(k, v),
        lhm_order(*final(m)) == order_without(lhm_order(*old(m)), k).push(k),
        r == if lhm_entries(*old(m)).dom().contains(k) {
            Some(lhm_entries(*old(m))[k])
        } else {
            None::<u64>
        },
{
    m.insert(k, v)
}

/// Relies on linked_hash_map::LinkedHashMap::get.
#[verifier::external_body]
fn lhm_get(m: &SlotIndex, k: u64) -> (r: Option<u64>)
    ensures
        r == if lhm_entries(*m).dom().contains(k) {
            Some(lhm_entries(*m)[k])
        } else {
            None::<u64>
        },
{
    match m.get(&k) {
        Some(v) => Some(*v),
        None => None,
    }
}

/// Relies on linked_hash_map::LinkedHashMap::pop_front: removes and returns
/// the oldest-inserted entry.
#[verifier::external_body]
fn lhm_pop_front(m: &mut SlotIndex) -> (r: Option<(u64, u64)>)
    ensures
        lhm_order(*old(m)).len() == 0 ==> r is None && *final(m) == *old(m),
        lhm_order(*old(m)).len() > 0 ==> (r matches Some(kv) && {
            &&& kv.0 == lhm_order(*old(m))[0]
            &&& lhm_entries(*old(m)).dom().contains(kv.0)
            &&& kv.1 == lhm_entries(*old(m))[kv.0]
            &&& lhm_entries(*final(m)) == lhm_entries(*old(m)).remove(kv.0)
            &&& lhm_order(*final(m)) == lhm_order(*old(m)).subrange(
                1,
                lhm_order(*old(m)).len() as int,
            )
        }),
{
    m.pop_front()
}

/// A bounded, insertion-ordered cache of documents.
///
/// Paths are interned to integer ids (an id is an index into `paths`);
/// the index maps an id to a slot in `slots`. Once the cache holds more than
/// `capacity` documents, the oldest-inserted entry is evicted.
pub struct DocumentStore {
    pub index: SlotIndex,
    pub paths: Vec<Vec<u8>>,
    pub slots: Vec<Option<Document>>,
    /// Library search directories, in registration order.
    pub libs: Vec<Vec<u8>>,
    /// Path of the builtin/library document consulted by every lookup.
    pub builtin_path: Vec<u8>,
    pub capacity: usize,
}

impl DocumentStore {
    pub open spec fn order(self) -> Seq<u64> {
        lhm_order(self.index)
    }

    pub open spec fn entries(self) -> Map<u64, u64> {
        lhm_entries(self.index)
    }

    /// The cache's structural invariant: the order list holds exactly the
    /// mapped ids, once each; ids name interned paths; each mapped slot holds
    /// a live document whose path is the id's; distinct ids use distinct
    /// slots.
    pub open spec fn inv(self) -> bool {
        &&& (forall|i: int, j: int|
            0 <= i < j < self.order().len() ==> self.order()[i] != self.order()[j])
        &&& (forall|k: u64|
            self.entries().dom().contains(k) <==> #[trigger] self.order().contains(k))
        &&& (forall|k: u64|
            #[trigger] self.entries().dom().contains(k) ==> k < self.paths@.len()
                && self.entries()[k] < self.slots@.len() && self.slots@[self.entries()[k] as int]
                is Some && self.slots@[self.entries()[k] as int].unwrap().path@ == self.paths@[
                k as int
            ]@)
        &&& (forall|k1: u64, k2: u64|
            self.entries().dom().contains(k1) && self.entries().dom().contains(k2) && k1 != k2
                ==> self.entries()[k1] != self.entries()[k2])
        &&& (forall|s: int|
            0 <= s < self.slots@.len() && (#[trigger] self.slots@[s]) is Some
                ==> self.slots@[s].unwrap().inv())
        &&& (forall|i: int, j: int|
            0 <= i < j < self.paths@.len() ==> self.paths@[i]@ != self.paths@[j]@)
        &&& self.paths@.len() <= u64::MAX
        &&& (forall|s: int|
            0 <= s < self.slots@.len() && (#[trigger] self.slots@[s]) is Some ==> exists|k: u64|
                #[trigger] self.entries().dom().contains(k) && s == self.entries()[k] as int)
    }

    /// The frozen projection of one resident document: what scope resolution
    /// reads, independent of the lazily rebuilt caches.
    pub open spec fn docview_of(self, p: Seq<u8>) -> Option<crate::scope::DocView> {
        if exists|s: int|
            0 <= s < self.slots@.len() && (#[trigger] self.slots@[s]) is Some
                && self.slots@[s].unwrap().path@ == p {
            let s = choose|s: int|
                0 <= s < self.slots@.len() && (#[trigger] self.slots@[s]) is Some
                    && self.slots@[s].unwrap().path@ == p;
            let d = self.slots@[s].unwrap();
            Some(
                crate::scope::DocView {
                    tree: d.tree,
                    code: d.code@,
                    is_builtin: d.is_builtin,
                    external_builtin: d.external_builtin,
                },
            )
        } else {
            None
        }
    }

    /// An empty store.
    pub fn new(capacity: usize, builtin_path: Vec<u8>) -> (r: DocumentStore)
        ensures
            r.inv(),
            r.order().len() == 0,
            r.capacity == capacity,
            r.builtin_path@ == builtin_path@,
            r.libs@.len() == 0,
    {
        DocumentStore {
            index: lhm_new(),
            paths: Vec::new(),
            slots: Vec::new(),
            libs: Vec::new(),
            builtin_path,
            capacity,
        }
    }

    /// The id of an interned path, if any.
    pub fn find_id(&self, path: &Vec<u8>) -> (r: Option<u64>)
        requires
            self.inv(),
        ensures
            match r {
                Some(k) => k < self.paths@.len() && self.paths@[k as int]@ == path@,
                None => forall|i: int| 0 <= i < self.paths@.len() ==> self.paths@[i]@ != path@,
            },
    {
        let n = self.paths.len();
        let mut i: usize = 0;
        while i < n
            invariant
                n == self.paths@.len(),
                0 <= i <= n,
                forall|k: int| 0 <= k < i ==> self.paths@[k]@ != path@,
            decreases n - i,
        {
            if bytes_eq(self.paths[i].as_slice(), path.as_slice()) {
                assert(i <= u64::MAX);
                return Some(i as u64);
            }
            i = i + 1;
        }
        None
    }

    /// The slot of a resident document, if any.
    pub fn find_slot(&self, path: &Vec<u8>) -> (r: Option<usize>)
        requires
            self.inv(),
        ensures
            match r {
                Some(s) => s < self.slots@.len() && (self.slots@[s as int] matches Some(d)
                    && d.path@ == path@) && self.docview_of(path@) == Some(
                    crate::scope::DocView {
                        tree: self.slots@[s as int].unwrap().tree,
                        code: self.slots@[s as int].unwrap().code@,
                        is_builtin: self.slots@[s as int].unwrap().is_builtin,
                        external_builtin: self.slots@[s as int].unwrap().external_builtin,
                    },
                ),
                None => self.docview_of(path@) is None,
            },
    {
        let id = match self.find_id(path) {
            Some(id) => id,
            None => {
                proof {
                    if self.docview_of(path@) is Some {
                        let s = choose|s: int|
                            0 <= s < self.slots@.len() && (#[trigger] self.slots@[s]) is Some
                                && self.slots@[s].unwrap().path@ == path@;
                        let k = choose|k: u64|
                            #[trigger] self.entries().dom().contains(k) && s == self.entries()[
                                k
                            ] as int;
                        assert(self.paths@[k as int]@ == path@);
                        assert(false);
                    }
                }
                return None;
            },
        };
        let len_now = self.slots.len();
        assert(len_now == self.slots@.len() && self.slots@.len() <= usize::MAX);
        match lhm_get(&self.index, id) {
            Some(slot) => {
                assert(self.entries().dom().contains(id));
                assert(self.entries()[id] == slot);
                assert(self.slots@[slot as int].unwrap().path@ == path@);
                proof {
                    self.lemma_docview_at(slot as int, path@);
                }
                let su = slot as usize;
                assert(su as int == slot as int);
                Some(su)
            },
            None => {
                proof {
                    if self.docview_of(path@) is Some {
                        let s = choose|s: int|
                            0 <= s < self.slots@.len() && (#[trigger] self.slots@[s]) is Some
                                && self.slots@[s].unwrap().path@ == path@;
                        let k = choose|k: u64|
                            #[trigger] self.entries().dom().contains(k) && s == self.entries()[
                                k
                            ] as int;
                        assert(self.paths@[k as int]@ == path@);
                        if k != id {
                            assert(self.paths@[k as int]@ != self.paths@[id as int]@);
                        }
                        assert(false);
                    }
                }
                None
            },
        }
    }

    /// The projection at a known slot is the projection the path resolves to.
    proof fn lemma_docview_at(self, slot: int, p: Seq<u8>)
        requires
            self.inv(),
            0 <= slot < self.slots@.len(),
            self.slots@[slot] is Some,
            self.slots@[slot].unwrap().path@ == p,
        ensures
            self.docview_of(p) == Some(
                crate::scope::DocView {
                    tree: self.slots@[slot].unwrap().tree,
                    code: self.slots@[slot].unwrap().code@,
                    is_builtin: self.slots@[slot].unwrap().is_builtin,
                    external_builtin: self.slots@[slot].unwrap().external_builtin,
                },
            ),
    {
        let s = choose|s: int|
            0 <= s < self.slots@.len() && (#[trigger] self.slots@[s]) is Some
                && self.slots@[s].unwrap().path@ == p;
        if s != slot {
            let k1 = choose|k: u64|
                #[trigger] self.entries().dom().contains(k) && s == self.entries()[k] as int;
            let k2 = choose|k: u64|
                #[trigger] self.entries().dom().contains(k) && slot == self.entries()[k] as int;
            assert(self.paths@[k1 as int]@ == p);
            assert(self.paths@[k2 as int]@ == p);
            assert(k1 != k2);
            assert(self.paths@[k1 as int]@ != self.paths@[k2 as int]@);
            assert(false);
        }
    }

    /// Whether a document with this path is resident.
    pub fn contains(&self, path: &Vec<u8>) -> (r: bool)
        requires
            self.inv(),
        ensures
            r == (self.docview_of(path@) is Some),
    {
        match self.find_slot(path) {
            Some(_) => true,
            None => false,
        }
    }

    /// Borrow a resident document.
    pub fn get_ref(&self, slot: usize) -> (r: Option<&Document>)
        requires
            self.inv(),
        ensures
            match r {
                Some(d) => slot < self.slots@.len() && self.slots@[slot as int] == Some(*d)
                    && d.inv(),
                None => slot >= self.slots@.len() || self.slots@[slot as int] is None,
            },
    {
        if slot < self.slots.len() {
            match &self.slots[slot] {
                Some(d) => Some(d),
                None => None,
            }
        } else {
            None
        }
    }

    /// The paths of the resident documents from slot `i` on, in slot order.
    pub open spec fn spec_resident_from(self, i: int) -> Seq<Seq<u8>>
        decreases self.slots@.len() - i,
    {
        if i < 0 || i >= self.slots@.len() {
            Seq::empty()
        } else {
            match self.slots@[i] {
                Some(d) => seq![d.path@] + self.spec_resident_from(i + 1),
                None => self.spec_resident_from(i + 1),
            }
        }
    }

    /// The paths of all resident documents, in slot order: the availability
    /// list include resolution runs against.
    pub open spec fn spec_resident(self) -> Seq<Seq<u8>> {
        self.spec_resident_from(0)
    }

    /// The paths of all resident documents, as an availability list for
    /// include resolution.
    pub fn resident_paths(&self) -> (r: Vec<Vec<u8>>)
        ensures
            paths_view(r@) == self.spec_resident(),
    {
        let mut out: Vec<Vec<u8>> = Vec::new();
        let n = self.slots.len();
        let mut s: usize = 0;
        assert(paths_view(out@) =~= Seq::<Seq<u8>>::empty());
        while s < n
            invariant
                n == self.slots@.len(),
                0 <= s <= n,
                paths_view(out@) + self.spec_resident_from(s as int) == self.spec_resident(),
            decreases n - s,
        {
            let ghost pre = out@;
            match &self.slots[s] {
                Some(d) => {
                    out.push(byte_range(&d.path, 0, d.path.len()));
                    proof {
                        assert(out@[out@.len() - 1]@ =~= self.slots@[s as int].unwrap().path@);
                        assert(paths_view(out@) =~= paths_view(pre) + seq![
                            self.slots@[s as int].unwrap().path@,
                        ]);
                        assert(paths_view(out@) + self.spec_resident_from(s + 1)
                            =~= self.spec_resident());
                    }
                },
                None => {},
            }
            s = s + 1;
        }
        assert(paths_view(out@) + self.spec_resident_from(n as int) =~= paths_view(out@));
        out
    }

    /// Evict oldest-inserted documents until at most `capacity` remain: the
    /// survivors are exactly the newest entries, in order.
    pub fn evict_over_capacity(&mut self)
        requires
            old(self).inv(),
        ensures
            final(self).inv(),
            final(self).order().len() <= final(self).capacity,
            final(self).capacity == old(self).capacity,
            final(self).libs == old(self).libs,
            final(self).builtin_path == old(self).builtin_path,
            old(self).order().len() <= old(self).capacity ==> *final(self) == *old(self),
            old(self).order().len() > old(self).capacity ==> final(self).order() == old(
                self,
            ).order().skip(old(self).order().len() - old(self).capacity),
            final(self).paths == old(self).paths,
            final(self).slots@.len() == old(self).slots@.len(),
            forall|i: int|
                0 <= i < old(self).slots@.len() ==> (final(self).slots@[i] == old(self).slots@[i]
                    || final(self).slots@[i] is None),
    {
        let ghost orig = self.order();
        assert(orig.skip(0) =~= orig);
        let len_now = lhm_len(&self.index);
        assert(len_now == orig.len());
        assert(orig.len() <= usize::MAX);
        let mut dropped: usize = 0;
        loop
            invariant
                self.inv(),
                self.capacity == old(self).capacity,
                self.libs == old(self).libs,
                self.builtin_path == old(self).builtin_path,
                self.paths == old(self).paths,
                self.slots@.len() == old(self).slots@.len(),
                forall|i: int|
                    0 <= i < old(self).slots@.len() ==> (self.slots@[i] == old(self).slots@[i]
                        || self.slots@[i] is None),
                dropped == 0 ==> *self == *old(self),
                dropped <= orig.len() <= usize::MAX,
                self.order() == orig.skip(dropped as int),
                orig.len() <= old(self).capacity ==> dropped == 0,
                dropped > 0 ==> orig.len() - dropped >= self.capacity,
            ensures
                self.inv(),
                self.capacity == old(self).capacity,
                self.libs == old(self).libs,
                self.builtin_path == old(self).builtin_path,
                self.paths == old(self).paths,
                self.slots@.len() == old(self).slots@.len(),
                forall|i: int|
                    0 <= i < old(self).slots@.len() ==> (self.slots@[i] == old(self).slots@[i]
                        || self.slots@[i] is None),
                orig.len() <= old(self).capacity ==> *self == *old(self),
                self.order().len() <= self.capacity,
                orig.len() <= old(self).capacity ==> self.order() == orig,
                orig.len() > old(self).capacity ==> self.order() == orig.skip(
                    orig.len() - old(self).capacity,
                ),
            decreases orig.len() - dropped,
        {
            let len = lhm_len(&self.index);
            if len <= self.capacity {
                proof {
                    if orig.len() > old(self).capacity {
                        assert(orig.len() - dropped == self.order().len());
                    }
                }
                break ;
            }
            let ghost pre = *self;
            match lhm_pop_front(&mut self.index) {
                Some((k, slot)) => {
                    proof {
                        assert(pre.entries().dom().contains(k));
                    }
                    if (slot as usize) < self.slots.len() {
                        set_slot(&mut self.slots, slot as usize, None);
                    }
                    dropped = dropped + 1;
                    proof {
                        assert(self.order() =~= orig.skip(dropped as int));
                        lemma_store_inv_after_pop(pre, *self, k, slot);
                    }
                },
                None => {
                    proof {
                        assert(false);
                    }
                },
            }
        }
    }
}

/// Two stores agree on everything scope resolution reads: the index, the
/// paths, the configuration, and each resident document's text, tree and
/// flags. Only the lazily rebuilt caches may differ.
pub open spec fn store_frozen(a: DocumentStore, b: DocumentStore) -> bool {
    &&& b.index == a.index
    &&& b.paths == a.paths
    &&& b.libs == a.libs
    &&& b.builtin_path == a.builtin_path
    &&& b.capacity == a.capacity
    &&& b.slots@.len() == a.slots@.len()
    &&& (forall|s: int|
        0 <= s < a.slots@.len() ==> ((#[trigger] b.slots@[s]) is Some <==> a.slots@[s] is Some))
    &&& (forall|s: int|
        0 <= s < a.slots@.len() && (#[trigger] a.slots@[s]) is Some ==> {
            &&& b.slots@[s].unwrap().path@ == a.slots@[s].unwrap().path@
            &&& b.slots@[s].unwrap().code@ == a.slots@[s].unwrap().code@
            &&& b.slots@[s].unwrap().tree == a.slots@[s].unwrap().tree
            &&& b.slots@[s].unwrap().is_builtin == a.slots@[s].unwrap().is_builtin
            &&& b.slots@[s].unwrap().external_builtin == a.slots@[s].unwrap().external_builtin
        })
}

/// Frozen stores list the same resident paths.
pub proof fn lemma_frozen_resident_from(a: DocumentStore, b: DocumentStore, i: int)
    requires
        store_frozen(a, b),
    ensures
        a.spec_resident_from(i) == b.spec_resident_from(i),
    decreases a.slots@.len() - i,
{
    if 0 <= i < a.slots@.len() {
        lemma_frozen_resident_from(a, b, i + 1);
    }
}

/// Freezing is transitive.
pub proof fn lemma_frozen_trans(a: DocumentStore, b: DocumentStore, c: DocumentStore)
    requires
        store_frozen(a, b),
        store_frozen(b, c),
    ensures
        store_frozen(a, c),
{
}

/// Frozen stores resolve every path to the same projection.
pub proof fn lemma_frozen_docview(a: DocumentStore, b: DocumentStore, p: Seq<u8>)
    requires
        store_frozen(a, b),
        a.inv(),
        b.inv(),
    ensures
        a.docview_of(p) == b.docview_of(p),
{
    if a.docview_of(p) is Some {
        let s = choose|s: int|
            0 <= s < a.slots@.len() && (#[trigger] a.slots@[s]) is Some && a.slots@[s].unwrap().path@
                == p;
        assert(b.slots@[s] is Some && b.slots@[s].unwrap().path@ == p);
        b.lemma_docview_at(s, p);
        a.lemma_docview_at(s, p);
    } else if b.docview_of(p) is Some {
        let s = choose|s: int|
            0 <= s < b.slots@.len() && (#[trigger] b.slots@[s]) is Some && b.slots@[s].unwrap().path@
                == p;
        assert(a.slots@[s] is Some && a.slots@[s].unwrap().path@ == p);
        assert(a.docview_of(p) is Some);
        assert(false);
    }
}

/// A store mutation that leaves the index, the paths and the slots alone
/// keeps the invariant.
proof fn lemma_inv_preserved(pre: DocumentStore, post: DocumentStore)
    requires
        pre.inv(),
        post.index == pre.index,
        post.paths == pre.paths,
        post.slots == pre.slots,
    ensures
        post.inv(),
{
    assert(post.entries() == pre.entries());
    assert(post.order() == pre.order());
    assert forall|k: u64|
        post.entries().dom().contains(k) <==> #[trigger] post.order().contains(k) by {
        assert(pre.entries().dom().contains(k) <==> pre.order().contains(k));
    }
    assert forall|k: u64|
        #[trigger] post.entries().dom().contains(k) implies k < post.paths@.len()
            && post.entries()[k] < post.slots@.len() && post.slots@[post.entries()[k] as int]
            is Some && post.slots@[post.entries()[k] as int].unwrap().path@ == post.paths@[
        k as int
    ]@ by {
        assert(pre.entries().dom().contains(k));
    }
    assert forall|s: int|
        0 <= s < post.slots@.len() && (#[trigger] post.slots@[s]) is Some implies exists|k: u64|
        #[trigger] post.entries().dom().contains(k) && s == post.entries()[k] as int by {
        assert(pre.slots@[s] is Some);
        let k = choose|k: u64|
            #[trigger] pre.entries().dom().contains(k) && s == pre.entries()[k] as int;
        assert(post.entries().dom().contains(k) && s == post.entries()[k] as int);
    }
}

impl DocumentStore {
    /// Add a search directory: appended at the back, once; a directory
    /// already registered is skipped, and the existing entries keep their
    /// order.
    pub fn extend_lib(&mut self, lib: Vec<u8>)
        requires
            old(self).inv(),
        ensures
            final(self).inv(),
            paths_view(final(self).libs@) == paths_view(old(self).libs@) + (if paths_view(
                old(self).libs@,
            ).contains(lib@) {
                Seq::<Seq<u8>>::empty()
            } else {
                seq![lib@]
            }),
            final(self).index == old(self).index,
            final(self).paths == old(self).paths,
            final(self).slots == old(self).slots,
            final(self).builtin_path == old(self).builtin_path,
            final(self).capacity == old(self).capacity,
    {
        let ghost pre = *self;
        if !crate::inc::contains_path(&self.libs, &lib) {
            proof {
                crate::inc::lemma_paths_view_push(self.libs@, lib);
            }
            self.libs.push(lib);
            proof {
                assert(paths_view(self.libs@) =~= paths_view(pre.libs@) + seq![
                    self.libs@[self.libs@.len() - 1]@,
                ]);
            }
        } else {
            proof {
                assert(paths_view(self.libs@) =~= paths_view(pre.libs@) + Seq::<Seq<u8>>::empty());
            }
        }
        proof {
            lemma_inv_preserved(pre, *self);
        }
    }

    /// Insert a document parsed from `text` under `path`. When a document
    /// with textually identical content is already resident, it is kept as it
    /// is, so its caches stay valid.
    pub fn insert_or_reuse(&mut self, path: &Vec<u8>, text: Vec<u8>) -> (ok: bool)
        requires
            old(self).inv(),
        ensures
            final(self).inv(),
            (old(self).docview_of(path@) matches Some(dv) && dv.code == text@) ==> (ok
                && *final(self) == *old(self)),
            ok ==> final(self).docview_of(path@) is Some,
    {
        match self.find_slot(path) {
            Some(slot) => {
                let same = match self.get_ref(slot) {
                    Some(d) => bytes_eq(d.code.as_slice(), text.as_slice()),
                    None => false,
                };
                if same {
                    proof {
                        self.lemma_docview_at(slot as int, path@);
                    }
                    return true;
                }
            },
            None => {},
        }
        let path_copy = byte_range(path, 0, path.len());
        assert(path_copy@ =~= path@);
        match Document::new(path_copy, text) {
            Some(d) => self.insert_document(d),
            None => false,
        }
    }

    /// Apply editor changes to the resident document in `slot`: on success
    /// its text is exactly the spliced batch and it is marked dirty; on an
    /// invalid position its text and tree are unchanged. The caches are never
    /// rebuilt here, and no other slot is touched.
    pub fn apply_edits_for(&mut self, slot: usize, events: &Vec<ChangeEvent>) -> (ok: bool)
        requires
            old(self).inv(),
            slot < old(self).slots@.len(),
            old(self).slots@[slot as int] is Some,
        ensures
            final(self).inv(),
            final(self).index == old(self).index,
            final(self).paths == old(self).paths,
            final(self).libs == old(self).libs,
            final(self).builtin_path == old(self).builtin_path,
            final(self).capacity == old(self).capacity,
            final(self).slots@.len() == old(self).slots@.len(),
            forall|i: int|
                0 <= i < old(self).slots@.len() && i != slot ==> final(self).slots@[i] == old(
                    self,
                ).slots@[i],
            final(self).slots@[slot as int] matches Some(d2) && {
                let d = old(self).slots@[slot as int].unwrap();
                &&& d2.path@ == d.path@
                &&& d2.is_builtin == d.is_builtin
                &&& d2.external_builtin == d.external_builtin
                &&& d2.root_items == d.root_items
                &&& d2.includes == d.includes
                &&& d2.changed
                &&& (ok ==> Some(d2.code@) == spec_apply_events(
                    d.code@,
                    events_view(events@),
                    0,
                ))
                &&& (!ok ==> d2.code@ == d.code@ && d2.tree == d.tree)
            },
    {
        let ghost pre = *self;
        let mut d = match take_slot(&mut self.slots, slot) {
            Some(d) => d,
            None => {
                proof {
                    assert(false);
                }
                vstd::pervasive::unreached()
            },
        };
        let ok = d.apply_edits(events);
        set_slot(&mut self.slots, slot, Some(d));
        proof {
            lemma_store_inv_slot_update(pre, *self, slot as int);
        }
        ok
    }

    /// Rebuild one resident document's caches if it changed.
    pub fn gen_items_for(&mut self, slot: usize)
        requires
            old(self).inv(),
            slot < old(self).slots@.len(),
            old(self).slots@[slot as int] is Some,
        ensures
            final(self).inv(),
            store_frozen(*old(self), *final(self)),
            final(self).slots@[slot as int] matches Some(d) && {
                &&& !d.changed
                &&& (d.root_items matches Some(items) && items_view(items@) == spec_extract_items(
                    d.tree,
                    d.code@,
                    d.is_builtin,
                    d.external_builtin,
                    d.path@,
                ))
            },
    {
        let avail = self.resident_paths();
        let ghost pre = *self;
        let mut d = match take_slot(&mut self.slots, slot) {
            Some(d) => d,
            None => {
                proof {
                    assert(false);
                }
                vstd::pervasive::unreached()
            },
        };
        d.gen_top_level_items_if_needed(&self.libs, &avail);
        set_slot(&mut self.slots, slot, Some(d));
        proof {
            lemma_store_inv_slot_update(pre, *self, slot as int);
        }
    }

}

/// Removing every occurrence of `k` keeps an order sequence duplicate-free,
/// drops `k`, and keeps every other element.
proof fn lemma_order_without(s: Seq<u64>, k: u64)
    ensures
        !order_without(s, k).contains(k),
        forall|x: u64| #[trigger] order_without(s, k).contains(x) ==> s.contains(x),
        forall|x: u64| x != k && #[trigger] s.contains(x) ==> order_without(s, k).contains(x),
        (forall|i: int, j: int| 0 <= i < j < s.len() ==> s[i] != s[j]) ==> (forall|i: int, j: int|
            0 <= i < j < order_without(s, k).len() ==> order_without(s, k)[i] != order_without(
                s,
                k,
            )[j]),
    decreases s.len(),
{
    reveal(Seq::filter);
    if s.len() == 0 {
    } else {
        let sub = s.drop_last();
        lemma_order_without(sub, k);
        let f = order_without(s, k);
        let fs = order_without(sub, k);
        assert(f == if s.last() != k {
            fs.push(s.last())
        } else {
            fs
        });
        assert forall|x: u64| #[trigger] f.contains(x) implies s.contains(x) by {
            let j = choose|j: int| 0 <= j < f.len() && f[j] == x;
            if s.last() != k && j == f.len() - 1 {
                assert(s[s.len() - 1] == x);
            } else {
                assert(fs.contains(x));
                let j2 = choose|j2: int| 0 <= j2 < sub.len() && sub[j2] == x;
                assert(s[j2] == x);
            }
        }
        assert(!f.contains(k)) by {
            if f.contains(k) {
                let j = choose|j: int| 0 <= j < f.len() && f[j] == k;
                if s.last() != k && j == f.len() - 1 {
                    assert(false);
                } else {
                    assert(fs.contains(k));
                    assert(false);
                }
            }
        }
        assert forall|x: u64| x != k && #[trigger] s.contains(x) implies f.contains(x) by {
            let j = choose|j: int| 0 <= j < s.len() && s[j] == x;
            if j == s.len() - 1 {
                if s.last() != k {
                    assert(f[f.len() - 1] == x);
                }
            } else {
                assert(sub[j] == x);
                assert(sub.contains(x));
                assert(fs.contains(x));
                if s.last() != k {
                    let j2 = choose|j2: int| 0 <= j2 < fs.len() && fs[j2] == x;
                    assert(f[j2] == x);
                }
            }
        }
        if forall|i: int, j: int| 0 <= i < j < s.len() ==> s[i] != s[j] {
            assert forall|i: int, j: int| 0 <= i < j < sub.len() implies sub[i] != sub[j] by {
                assert(s[i] != s[j]);
            }
            if s.last() != k {
                assert(!sub.contains(s.last())) by {
                    if sub.contains(s.last()) {
                        let j = choose|j: int| 0 <= j < sub.len() && sub[j] == s.last();
                        assert(s[j] == s[s.len() - 1]);
                        assert(false);
                    }
                }
                assert forall|i: int, j: int|
                    0 <= i < j < f.len() implies f[i] != f[j] by {
                    if j == f.len() - 1 {
                        if fs.contains(f[i]) && f[j] == s.last() {
                            if f[i] == s.last() {
                                assert(sub.contains(f[i]));
                                assert(false);
                            }
                        }
                        assert(fs.contains(f[i])) by {
                            assert(fs[i] == f[i]);
                        }
                    } else {
                        assert(fs[i] != fs[j]);
                    }
                }
            }
        }
    }
}

impl DocumentStore {
    /// Intern a path, returning its id.
    fn intern(&mut self, path: &Vec<u8>) -> (r: Option<u64>)
        requires
            old(self).inv(),
        ensures
            final(self).inv(),
            final(self).index == old(self).index,
            final(self).slots == old(self).slots,
            final(self).libs == old(self).libs,
            final(self).builtin_path == old(self).builtin_path,
            final(self).capacity == old(self).capacity,
            old(self).paths@.len() < usize::MAX ==> r is Some,
            match r {
                Some(k) => k < final(self).paths@.len() && final(self).paths@[k as int]@ == path@
                    && (forall|i: int|
                    0 <= i < old(self).paths@.len() ==> final(self).paths@[i] == old(
                        self,
                    ).paths@[i]) && old(self).paths@.len() <= final(self).paths@.len(),
                None => final(self).paths == old(self).paths,
            },
    {
        let ghost pre = *self;
        match self.find_id(path) {
            Some(k) => {
                proof {
                    lemma_inv_preserved(pre, *self);
                }
                Some(k)
            },
            None => {
                let n = self.paths.len();
                if n == usize::MAX {
                    return None;
                }
                let copy = byte_range(path, 0, path.len());
                assert(copy@ =~= path@);
                self.paths.push(copy);
                proof {
                    assert(self.entries() == pre.entries());
                    assert(self.order() == pre.order());
                    assert forall|i: int, j: int|
                        0 <= i < j < self.order().len() implies self.order()[i]
                        != self.order()[j] by {
                        assert(pre.order()[i] != pre.order()[j]);
                    }
                    assert forall|k: u64|
                        self.entries().dom().contains(k) <==> #[trigger] self.order().contains(
                            k,
                        ) by {
                        assert(pre.entries().dom().contains(k) <==> pre.order().contains(k));
                    }
                    assert forall|k1: u64, k2: u64|
                        self.entries().dom().contains(k1) && self.entries().dom().contains(k2)
                            && k1 != k2 implies self.entries()[k1] != self.entries()[k2] by {
                        assert(pre.entries()[k1] != pre.entries()[k2]);
                    }
                    assert forall|k: u64|
                        #[trigger] self.entries().dom().contains(k) implies k
                        < self.paths@.len() && self.entries()[k] < self.slots@.len()
                        && self.slots@[self.entries()[k] as int] is Some
                        && self.slots@[self.entries()[k] as int].unwrap().path@ == self.paths@[
                        k as int
                    ]@ by {
                        assert(pre.entries().dom().contains(k));
                        assert(self.paths@[k as int] == pre.paths@[k as int]);
                    }
                    assert forall|i: int, j: int|
                        0 <= i < j < self.paths@.len() implies self.paths@[i]@
                        != self.paths@[j]@ by {
                        if j < pre.paths@.len() {
                            assert(pre.paths@[i]@ != pre.paths@[j]@);
                        } else {
                            assert(self.paths@[j]@ == path@);
                            assert(pre.paths@[i]@ != path@);
                        }
                    }
                    assert forall|s: int|
                        0 <= s < self.slots@.len() && (#[trigger] self.slots@[s])
                            is Some implies exists|k: u64|
                        #[trigger] self.entries().dom().contains(k) && s == self.entries()[
                            k
                        ] as int by {
                        let k = choose|k: u64|
                            #[trigger] pre.entries().dom().contains(k) && s == pre.entries()[
                                k
                            ] as int;
                        assert(self.entries().dom().contains(k) && s == self.entries()[k] as int);
                    }
                }
                let id = n as u64;
                Some(id)
            },
        }
    }

    /// Insert a document, evicting oldest-inserted entries first while the
    /// count exceeds the capacity. The document is then resident under its
    /// path as the newest entry; every other resident document is untouched,
    /// and none is lost while the count is within the capacity. Fails only at
    /// the machine limits of the intern table and the slot table.
    pub fn insert_document(&mut self, d: Document) -> (ok: bool)
        requires
            old(self).inv(),
            d.inv(),
        ensures
            final(self).inv(),
            final(self).capacity == old(self).capacity,
            final(self).libs == old(self).libs,
            final(self).builtin_path == old(self).builtin_path,
            old(self).paths@.len() + 1 < usize::MAX && old(self).slots@.len() + 1 < usize::MAX
                ==> ok,
            ok ==> final(self).docview_of(d.path@) == Some(
                crate::scope::DocView {
                    tree: d.tree,
                    code: d.code@,
                    is_builtin: d.is_builtin,
                    external_builtin: d.external_builtin,
                },
            ),
            // the inserted document is the newest entry of the order
            ok ==> final(self).order().len() > 0 && final(self).order().last()
                < final(self).paths@.len() && final(self).paths@[final(self).order().last() as int]@
                == d.path@,
            // every other resident document is untouched
            forall|s2: int|
                0 <= s2 < final(self).slots@.len() && (#[trigger] final(self).slots@[s2]) is Some
                    && final(self).slots@[s2].unwrap().path@ != d.path@ ==> s2 < old(
                    self,
                ).slots@.len() && final(self).slots@[s2] == old(self).slots@[s2],
            // nothing is evicted while the count is within the capacity
            old(self).order().len() <= old(self).capacity ==> forall|k: u64|
                old(self).entries().dom().contains(k) ==> final(self).entries().dom().contains(k),
    {
        self.evict_over_capacity();
        let ghost m0 = *self;
        let ghost p = d.path@;
        let id = match self.intern(&d.path) {
            Some(id) => id,
            None => {
                proof {
                    assert forall|s2: int|
                        0 <= s2 < self.slots@.len() && (#[trigger] self.slots@[s2]) is Some
                            && self.slots@[s2].unwrap().path@ != p implies s2 < old(
                        self,
                    ).slots@.len() && self.slots@[s2] == old(self).slots@[s2] by {
                        assert(m0.slots@[s2] == old(self).slots@[s2] || m0.slots@[s2] is None);
                    }
                }
                return false;
            },
        };
        let ghost pre = *self;
        let slot: usize = match lhm_get(&self.index, id) {
            Some(s) => {
                assert(self.entries().dom().contains(id));
                let len_now = self.slots.len();
                assert(self.slots@.len() <= usize::MAX && s < len_now);
                s as usize
            },
            None => {
                let len_now = self.slots.len();
                if len_now >= usize::MAX {
                    proof {
                        assert forall|s2: int|
                            0 <= s2 < self.slots@.len() && (#[trigger] self.slots@[s2]) is Some
                                && self.slots@[s2].unwrap().path@ != p implies s2 < old(
                            self,
                        ).slots@.len() && self.slots@[s2] == old(self).slots@[s2] by {
                            assert(self.slots@[s2] == m0.slots@[s2]);
                            assert(m0.slots@[s2] == old(self).slots@[s2] || m0.slots@[s2] is None);
                        }
                    }
                    return false;
                }
                self.slots.push(None);
                len_now
            },
        };
        let ghost mid = *self;
        set_slot(&mut self.slots, slot, Some(d));
        let _ = lhm_insert(&mut self.index, id, slot as u64);
        proof {
            lemma_order_without(mid.order(), id);
            lemma_insert_inv(pre, mid, *self, id, slot as int);
            self.lemma_docview_at(slot as int, p);
            assert(self.order() == order_without(mid.order(), id).push(id));
            assert(self.order().last() == id);
            assert(self.paths@[id as int]@ == p);
            assert forall|s2: int|
                0 <= s2 < self.slots@.len() && (#[trigger] self.slots@[s2]) is Some
                    && self.slots@[s2].unwrap().path@ != p implies s2 < old(self).slots@.len()
                && self.slots@[s2] == old(self).slots@[s2] by {
                assert(self.slots@[slot as int].unwrap().path@ == p);
                assert(s2 != slot);
                assert(self.slots@[s2] == mid.slots@[s2]);
                assert(mid.slots@[s2] == m0.slots@[s2] || (s2 >= m0.slots@.len()
                    && mid.slots@[s2] is None));
                assert(m0.slots@[s2] == old(self).slots@[s2] || m0.slots@[s2] is None);
            }
            if old(self).order().len() <= old(self).capacity {
                assert(m0 == *old(self));
                assert(mid.entries() == old(self).entries());
                assert forall|k: u64|
                    old(self).entries().dom().contains(k) implies self.entries().dom().contains(
                    k,
                ) by {
                    assert(self.entries() == mid.entries().insert(id, slot as u64));
                }
            }
        }
        true
    }
}

/// After interning `id`, freeing or growing a slot, writing the document and
/// inserting the index entry, the store invariant holds again.
proof fn lemma_insert_inv(
    pre: DocumentStore,
    mid: DocumentStore,
    post: DocumentStore,
    id: u64,
    slot: int,
)
    requires
        pre.inv(),
        id < pre.paths@.len(),
        // mid: pre with possibly one fresh empty slot appended
        mid.index == pre.index,
        mid.paths == pre.paths,
        mid.slots@.len() >= pre.slots@.len(),
        forall|i: int| 0 <= i < pre.slots@.len() ==> mid.slots@[i] == pre.slots@[i],
        forall|i: int| pre.slots@.len() <= i < mid.slots@.len() ==> mid.slots@[i] is None,
        0 <= slot < mid.slots@.len(),
        // the chosen slot: either id's existing slot, or an empty one
        (pre.entries().dom().contains(id) && slot == pre.entries()[id] as int) || (
        !pre.entries().dom().contains(id) && mid.slots@[slot] is None),
        // post: mid with the document written and the index entry added
        post.paths == mid.paths,
        post.slots@.len() == mid.slots@.len(),
        forall|i: int| 0 <= i < mid.slots@.len() && i != slot ==> post.slots@[i] == mid.slots@[i],
        post.slots@[slot] is Some,
        post.slots@[slot].unwrap().inv(),
        post.slots@[slot].unwrap().path@ == post.paths@[id as int]@,
        post.entries() == mid.entries().insert(id, slot as u64),
        post.order() == order_without(mid.order(), id).push(id),
        slot <= u64::MAX,
        !order_without(mid.order(), id).contains(id),
        forall|x: u64| #[trigger] order_without(mid.order(), id).contains(x) ==> mid.order().contains(
            x,
        ),
        forall|x: u64|
            x != id && #[trigger] mid.order().contains(x) ==> order_without(
                mid.order(),
                id,
            ).contains(x),
        forall|i: int, j: int|
            0 <= i < j < order_without(mid.order(), id).len() ==> order_without(mid.order(), id)[i]
                != order_without(mid.order(), id)[j],
    ensures
        post.inv(),
{
    let f = order_without(mid.order(), id);
    assert forall|i: int, j: int|
        0 <= i < j < post.order().len() implies post.order()[i] != post.order()[j] by {
        if j == post.order().len() - 1 {
            assert(post.order()[j] == id);
            assert(f[i] == post.order()[i]);
            assert(f.contains(f[i]));
        } else {
            assert(f[i] != f[j]);
        }
    }
    assert forall|k: u64|
        post.entries().dom().contains(k) <==> #[trigger] post.order().contains(k) by {
        if k == id {
            assert(post.order()[post.order().len() - 1] == id);
            assert(post.order().contains(id));
        } else {
            assert(mid.entries() == pre.entries());
            assert(mid.order() == pre.order());
            if post.order().contains(k) {
                let j = choose|j: int| 0 <= j < post.order().len() && post.order()[j] == k;
                assert(j < f.len());
                assert(f.contains(k));
                assert(mid.order().contains(k));
                assert(pre.order().contains(k));
                assert(pre.entries().dom().contains(k));
            }
            if post.entries().dom().contains(k) {
                assert(mid.entries().dom().contains(k));
                assert(pre.entries().dom().contains(k));
                assert(pre.order().contains(k));
                assert(mid.order().contains(k));
                assert(f.contains(k));
                let j = choose|j: int| 0 <= j < f.len() && f[j] == k;
                assert(post.order()[j] == k);
            }
        }
    }
    assert forall|k: u64|
        #[trigger] post.entries().dom().contains(k) implies k < post.paths@.len()
            && post.entries()[k] < post.slots@.len() && post.slots@[post.entries()[k] as int]
            is Some && post.slots@[post.entries()[k] as int].unwrap().path@ == post.paths@[
        k as int
    ]@ by {
        if k == id {
        } else {
            assert(pre.entries().dom().contains(k));
            assert(post.entries()[k] == pre.entries()[k]);
            if pre.entries()[k] as int == slot {
                if pre.entries().dom().contains(id) && slot == pre.entries()[id] as int {
                    assert(k != id);
                    assert(false);
                } else {
                    assert(mid.slots@[slot] is None);
                    assert(mid.slots@[pre.entries()[k] as int] == pre.slots@[pre.entries()[
                        k
                    ] as int]);
                    assert(false);
                }
            }
            assert(post.slots@[pre.entries()[k] as int] == pre.slots@[pre.entries()[k] as int]);
        }
    }
    assert forall|k1: u64, k2: u64|
        post.entries().dom().contains(k1) && post.entries().dom().contains(k2) && k1
            != k2 implies post.entries()[k1] != post.entries()[k2] by {
        if k1 != id && k2 != id {
            assert(pre.entries()[k1] != pre.entries()[k2]);
        } else {
            let other = if k1 == id {
                k2
            } else {
                k1
            };
            assert(pre.entries().dom().contains(other));
            if pre.entries()[other] as int == slot {
                if pre.entries().dom().contains(id) && slot == pre.entries()[id] as int {
                    assert(false);
                } else {
                    assert(mid.slots@[slot] is None);
                    assert(mid.slots@[pre.entries()[other] as int] == pre.slots@[pre.entries()[
                        other
                    ] as int]);
                    assert(false);
                }
            }
        }
    }
    assert forall|s: int|
        0 <= s < post.slots@.len() && (#[trigger] post.slots@[s]) is Some implies exists|k: u64|
        #[trigger] post.entries().dom().contains(k) && s == post.entries()[k] as int by {
        if s == slot {
            assert(post.entries().dom().contains(id));
            assert((slot as u64) as int == slot);
            assert(post.entries()[id] == slot as u64);
        } else if s < pre.slots@.len() {
            assert(pre.slots@[s] is Some);
            let k = choose|k: u64|
                #[trigger] pre.entries().dom().contains(k) && s == pre.entries()[k] as int;
            assert(k != id || s == slot);
            assert(post.entries().dom().contains(k) && s == post.entries()[k] as int);
        } else {
            assert(mid.slots@[s] is None);
            assert(false);
        }
    }
}

/// Remove and return the document in one slot.
fn take_slot(v: &mut Vec<Option<Document>>, s: usize) -> (r: Option<Document>)
    requires
        s < old(v)@.len(),
    ensures
        final(v)@.len() == old(v)@.len(),
        forall|i: int| 0 <= i < old(v)@.len() && i != s ==> final(v)@[i] == old(v)@[i],
        final(v)@[s as int] is None,
        r == old(v)@[s as int],
{
    let got = v.remove(s);
    v.insert(s, None);
    assert(final(v)@ =~= old(v)@.update(s as int, final(v)@[s as int]));
    got
}

/// Replacing one slot's document with a rebuilt one of the same path keeps
/// the store invariant.
proof fn lemma_store_inv_slot_update(pre: DocumentStore, post: DocumentStore, slot: int)
    requires
        pre.inv(),
        0 <= slot < pre.slots@.len(),
        pre.slots@[slot] is Some,
        post.index == pre.index,
        post.paths == pre.paths,
        post.slots@.len() == pre.slots@.len(),
        forall|i: int| 0 <= i < pre.slots@.len() && i != slot ==> post.slots@[i] == pre.slots@[i],
        post.slots@[slot] is Some,
        post.slots@[slot].unwrap().inv(),
        post.slots@[slot].unwrap().path@ == pre.slots@[slot].unwrap().path@,
    ensures
        post.inv(),
{
    assert(post.entries() == pre.entries());
    assert(post.order() == pre.order());
    assert forall|k: u64|
        post.entries().dom().contains(k) <==> #[trigger] post.order().contains(k) by {
        assert(pre.entries().dom().contains(k) <==> pre.order().contains(k));
    }
    assert forall|k: u64|
        #[trigger] post.entries().dom().contains(k) implies k < post.paths@.len()
            && post.entries()[k] < post.slots@.len() && post.slots@[post.entries()[k] as int]
            is Some && post.slots@[post.entries()[k] as int].unwrap().path@ == post.paths@[
        k as int
    ]@ by {
        assert(pre.entries().dom().contains(k));
    }
    assert forall|s: int|
        0 <= s < post.slots@.len() && (#[trigger] post.slots@[s]) is Some implies exists|k: u64|
        #[trigger] post.entries().dom().contains(k) && s == post.entries()[k] as int by {
        assert(pre.slots@[s] is Some);
        let k = choose|k: u64|
            #[trigger] pre.entries().dom().contains(k) && s == pre.entries()[k] as int;
        assert(post.entries().dom().contains(k) && s == post.entries()[k] as int);
    }
}

/// Overwrite one slot.
fn set_slot(v: &mut Vec<Option<Document>>, s: usize, d: Option<Document>)
    requires
        s < old(v)@.len(),
    ensures
        final(v)@.len() == old(v)@.len(),
        forall|i: int| 0 <= i < old(v)@.len() && i != s ==> final(v)@[i] == old(v)@[i],
        final(v)@[s as int] == d,
{
    let got = v.remove(s);
    v.insert(s, d);
    assert(final(v)@ =~= old(v)@.update(s as int, final(v)@[s as int]));
}

/// After popping the oldest id and clearing its slot, the store invariant
/// still holds.
proof fn lemma_store_inv_after_pop(pre: DocumentStore, post: DocumentStore, k: u64, slot: u64)
    requires
        pre.inv(),
        pre.order().len() > 0,
        k == pre.order()[0],
        pre.entries().dom().contains(k),
        slot == pre.entries()[k],
        post.entries() == pre.entries().remove(k),
        post.order() == pre.order().subrange(1, pre.order().len() as int),
        post.paths == pre.paths,
        post.slots@.len() == pre.slots@.len(),
        forall|i: int| 0 <= i < pre.slots@.len() && i != slot ==> post.slots@[i] == pre.slots@[i],
        slot < pre.slots@.len() ==> post.slots@[slot as int] is None,
    ensures
        post.inv(),
{
    assert forall|i: int, j: int|
        0 <= i < j < post.order().len() implies post.order()[i] != post.order()[j] by {
        assert(pre.order()[i + 1] != pre.order()[j + 1]);
    }
    assert forall|k2: u64|
        post.entries().dom().contains(k2) implies #[trigger] post.order().contains(k2) by {
        assert(pre.order().contains(k2));
        let j = choose|j: int| 0 <= j < pre.order().len() && pre.order()[j] == k2;
        assert(j != 0);
        assert(post.order()[j - 1] == k2);
    }
    assert forall|k2: u64|
        #[trigger] post.order().contains(k2) implies post.entries().dom().contains(k2) by {
        let j = choose|j: int| 0 <= j < post.order().len() && post.order()[j] == k2;
        assert(pre.order()[j + 1] == k2);
        assert(pre.order().contains(k2));
        assert(pre.entries().dom().contains(k2));
        assert(k2 != k);
        assert(post.entries() == pre.entries().remove(k));
        assert(post.entries().dom().contains(k2));
    }
    assert forall|k2: u64|
        #[trigger] post.entries().dom().contains(k2) implies k2 < post.paths@.len()
            && post.entries()[k2] < post.slots@.len() && post.slots@[post.entries()[k2] as int]
            is Some && post.slots@[post.entries()[k2] as int].unwrap().path@ == post.paths@[
        k2 as int
    ]@ by {
        assert(pre.entries().remove(k).dom().contains(k2));
        assert(k2 != k);
        assert(pre.entries().dom().contains(k2));
        assert(post.entries()[k2] == pre.entries()[k2]);
        assert(pre.entries()[k2] != slot);
        assert(post.slots@[pre.entries()[k2] as int] == pre.slots@[pre.entries()[k2] as int]);
    }
    assert forall|s2: int|
        0 <= s2 < post.slots@.len() && (#[trigger] post.slots@[s2]) is Some implies exists|k2: u64|
        #[trigger] post.entries().dom().contains(k2) && s2 == post.entries()[k2] as int by {
        assert(pre.slots@[s2] is Some);
        let k2 = choose|k2: u64|
            #[trigger] pre.entries().dom().contains(k2) && s2 == pre.entries()[k2] as int;
        if k2 == k {
            assert(s2 == slot as int);
            assert(false);
        }
        assert(post.entries().dom().contains(k2) && s2 == post.entries()[k2] as int);
    }
}

} // verus!

