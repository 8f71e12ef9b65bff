//! Byte/position arithmetic on document text.
//!
//! Document text is held as UTF-8 bytes. Editor positions are line/column
//! pairs; a column counts one unit per Unicode scalar value. Translating a
//! position to a byte offset scans newline boundaries for the line, then
//! advances one scalar value at a time.

use vstd::prelude::*;

verus! {

use crate::Pos;

/// A byte starts a UTF-8 scalar value iff it is not a continuation byte.
pub open spec fn is_char_start(b: u8) -> bool {
    b < 0x80 || b >= 0xC0
}

/// Index of the first occurrence of `b` in `text` at or after `from`.
pub open spec fn find_byte_from(text: Seq<u8>, from: int, b: u8) -> Option<int>
    decreases text.len() - from,
{
    if from < 0 || from >= text.len() {
        None
    } else if text[from] == b {
        Some(from)
    } else {
        find_byte_from(text, from + 1, b)
    }
}

/// Byte offset of the first byte of line `row` (the byte after the `row`-th
/// newline), or None if the text has fewer than `row` newlines.
pub open spec fn line_start(text: Seq<u8>, row: nat) -> Option<int>
    decreases row,
{
    if row == 0 {
        Some(0)
    } else {
        match line_start(text, (row - 1) as nat) {
            Some(s) => match find_byte_from(text, s, 10u8) {
                Some(i) => Some(i + 1),
                None => None,
            },
            None => None,
        }
    }
}

/// The byte offset just past the scalar value starting at `from`: the next
/// char-start position after `from`, or the end of the text.
pub open spec fn next_char_start(text: Seq<u8>, from: int) -> int
    decreases text.len() - from,
{
    if from + 1 >= text.len() {
        text.len() as int
    } else if is_char_start(text[from + 1]) {
        from + 1
    } else {
        next_char_start(text, from + 1)
    }
}

/// Byte offset reached by advancing `count` scalar values from `from`, or
/// None if the text ends first.
pub open spec fn advance_chars(text: Seq<u8>, from: int, count: nat) -> Option<int>
    decreases count,
{
    if count == 0 {
        Some(from)
    } else if from >= text.len() {
        None
    } else {
        advance_chars(text, next_char_start(text, from), (count - 1) as nat)
    }
}

/// Byte offset of position `pos` in `text`: the start of line `pos.row`
/// advanced by `pos.col` scalar values.
pub open spec fn spec_find_offset(text: Seq<u8>, pos: Pos) -> Option<int> {
    match line_start(text, pos.row as nat) {
        Some(s) => advance_chars(text, s, pos.col as nat),
        None => None,
    }
}

pub proof fn lemma_find_byte_from_bounds(text: Seq<u8>, from: int, b: u8)
    ensures
        match find_byte_from(text, from, b) {
            Some(i) => from <= i < text.len() && text[i] == b,
            None => true,
        },
    decreases text.len() - from,
{
    if 0 <= from < text.len() && text[from] != b {
        lemma_find_byte_from_bounds(text, from + 1, b);
    }
}

proof fn lemma_next_char_start_bounds(text: Seq<u8>, from: int)
    requires
        0 <= from < text.len(),
    ensures
        from < next_char_start(text, from) <= text.len(),
    decreases text.len() - from,
{
    if from + 1 < text.len() && !is_char_start(text[from + 1]) {
        lemma_next_char_start_bounds(text, from + 1);
    }
}

/// Find the first occurrence of byte `b` at or after `from`.
pub fn find_byte(text: &Vec<u8>, from: usize, b: u8) -> (r: Option<usize>)
    requires
        from <= text@.len(),
    ensures
        match r {
            Some(i) => find_byte_from(text@, from as int, b) == Some(i as int) && from <= i
                < text@.len(),
            None => find_byte_from(text@, from as int, b) is None,
        },
{
    let mut i = from;
    while i < text.len()
        invariant
            from <= i <= text@.len(),
            find_byte_from(text@, from as int, b) == find_byte_from(text@, i as int, b),
        decreases text@.len() - i,
    {
        if text[i] == b {
            return Some(i);
        }
        i = i + 1;
    }
    None
}

/// Translate a line/column position to a byte offset.
pub fn find_offset(text: &Vec<u8>, pos: Pos) -> (r: Option<usize>)
    ensures
        match r {
            Some(o) => spec_find_offset(text@, pos) == Some(o as int) && o <= text@.len(),
            None => spec_find_offset(text@, pos) is None,
        },
{
    let mut offset: usize = 0;
    let mut row: usize = 0;
    while row < pos.row
        invariant
            0 <= offset <= text@.len(),
            row <= pos.row,
            line_start(text@, row as nat) == Some(offset as int),
        decreases pos.row - row,
    {
        match find_byte(text, offset, 10u8) {
            Some(i) => {
                proof {
                    lemma_line_start_step(text@, row as nat, offset as int);
                }
                assert(i < text@.len());
                let n = text.len();
                assert(i < n);
                offset = i + 1;
            },
            None => {
                proof {
                    lemma_line_start_step(text@, row as nat, offset as int);
                    lemma_line_start_none(text@, (row + 1) as nat, pos.row as nat);
                }
                return None;
            },
        }
        row = row + 1;
    }
    // offset is the line start; advance pos.col scalar values
    let mut col: usize = 0;
    while col < pos.col
        invariant
            0 <= offset <= text@.len(),
            col <= pos.col,
            advance_chars(text@, offset as int, (pos.col - col) as nat) == spec_find_offset(
                text@,
                pos,
            ),
        decreases pos.col - col,
    {
        if offset >= text.len() {
            return None;
        }
        proof {
            lemma_next_char_start_bounds(text@, offset as int);
        }
        offset = next_char_start_exec(text, offset);
        col = col + 1;
    }
    Some(offset)
}

proof fn lemma_line_start_step(text: Seq<u8>, row: nat, s: int)
    requires
        line_start(text, row) == Some(s),
    ensures
        line_start(text, row + 1) == (match find_byte_from(text, s, 10u8) {
            Some(i) => Some(i + 1),
            None => None::<int>,
        }),
{
    assert(line_start(text, row + 1) == (match line_start(text, row) {
        Some(s0) => match find_byte_from(text, s0, 10u8) {
            Some(i) => Some(i + 1),
            None => None::<int>,
        },
        None => None::<int>,
    }));
}

fn next_char_start_exec(text: &Vec<u8>, from: usize) -> (r: usize)
    requires
        from < text@.len(),
    ensures
        r == next_char_start(text@, from as int),
        from < r <= text@.len(),
{
    proof {
        lemma_next_char_start_bounds(text@, from as int);
    }
    let n = text.len();
    let mut i = from;
    while i + 1 < n && !(text[i + 1] < 0x80 || text[i + 1] >= 0xC0)
        invariant
            n == text@.len(),
            from <= i < n,
            next_char_start(text@, from as int) == next_char_start(text@, i as int),
        decreases n - i,
    {
        i = i + 1;
    }
    i + 1
}

proof fn lemma_line_start_none(text: Seq<u8>, row: nat, later: nat)
    requires
        line_start(text, row) is None,
        row <= later,
    ensures
        line_start(text, later) is None,
    decreases later - row,
{
    if later > row {
        lemma_line_start_none(text, row, (later - 1) as nat);
    }
}

} // verus!
