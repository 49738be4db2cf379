//! Navigation and selection: the active column, the viewing/editing mode,
//! row movement that wraps modulo the row count, the cursor transition that
//! couples the two editable columns into one continuous line, and the
//! per-keystroke edit of a cell's text.

use vstd::prelude::*;
use vstd::arithmetic::div_mod::lemma_add_mod_noop_right;
use vstd::arithmetic::div_mod::lemma_small_mod;

verus! {

/// The column the selection sits in.
#[derive(Clone, Copy, PartialEq, Eq, Structural, Debug)]
pub enum SelectedColumn {
    Function,
    Hex,
    Disasm,
}

impl SelectedColumn {
    /// Whether cells of this column can be edited.
    pub open spec fn spec_editable(&self) -> bool {
        match self {
            SelectedColumn::Function => false,
            SelectedColumn::Hex | SelectedColumn::Disasm => true,
        }
    }

    pub fn editable(&self) -> (r: bool)
        ensures
            r == self.spec_editable(),
    {
        match self {
            SelectedColumn::Function => false,
            SelectedColumn::Hex | SelectedColumn::Disasm => true,
        }
    }

    /// The peer view of the same instruction slot: Hex and Disasm are each
    /// other's peer; the function column has none but itself.
    pub open spec fn spec_peer(&self) -> SelectedColumn {
        match self {
            SelectedColumn::Function => SelectedColumn::Function,
            SelectedColumn::Hex => SelectedColumn::Disasm,
            SelectedColumn::Disasm => SelectedColumn::Hex,
        }
    }
}

/// Whether character input edits cell text or acts as navigation.
#[derive(Clone, Copy, PartialEq, Eq, Structural, Debug)]
pub enum Mode {
    Viewing,
    Editing,
}

/// An editing keystroke handed to the active cell.
#[derive(Clone, Copy, PartialEq, Eq, Structural, Debug)]
pub enum Key {
    Char(char),
    Delete,
    Backspace,
    Home,
    End,
}

/// Row reached from `row` by a signed step, wrapped into `[0, len)` by the
/// true mathematical remainder.
pub open spec fn wrap_row(row: int, delta: int, len: int) -> int
    recommends
        len > 0,
{
    (row + delta) % len
}

/// Wrapped row stepping, executable form.
pub fn step_row(row: usize, delta: isize, len: usize) -> (r: usize)
    requires
        len > 0,
        len <= isize::MAX,
        row as int + delta as int <= isize::MAX,
        row < len,
    ensures
        r as int == wrap_row(row as int, delta as int, len as int),
        r < len,
{
    let a: isize = row as isize + delta;
    let m: isize = len as isize;
    let r: isize = a.checked_rem_euclid(m).unwrap();
    r as usize
}

/// The row after `k` single steps in one direction.
pub open spec fn iterate_rows(row: int, delta: int, len: int, k: nat) -> int
    decreases k,
{
    if k == 0 {
        row
    } else {
        wrap_row(iterate_rows(row, delta, len, (k - 1) as nat), delta, len)
    }
}

proof fn lemma_iterate_rows_value(row: int, delta: int, len: int, k: nat)
    requires
        0 < len,
        0 <= row < len,
        delta == 1 || delta == -1,
    ensures
        iterate_rows(row, delta, len, k) == (row + k * delta) % len,
    decreases k,
{
    if k == 0 {
        lemma_small_mod(row as nat, len as nat);
    } else {
        lemma_iterate_rows_value(row, delta, len, (k - 1) as nat);
        let prev = (row + (k - 1) * delta) % len;
        assert(iterate_rows(row, delta, len, k) == (prev + delta) % len);
        lemma_add_mod_noop_right(delta, row + (k - 1) * delta, len);
        assert((delta + prev) % len == (delta + (row + (k - 1) * delta)) % len);
        assert(delta + (row + (k - 1) * delta) == row + k * delta) by (nonlinear_arith);
    }
}

/// Law: row navigation is modulo-closed — from any row, exactly `len` single
/// steps in either direction return to the same row.
pub proof fn lemma_row_navigation_cycle(row: int, len: int)
    requires
        0 < len,
        0 <= row < len,
    ensures
        iterate_rows(row, 1, len, len as nat) == row,
        iterate_rows(row, -1, len, len as nat) == row,
{
    lemma_iterate_rows_value(row, 1, len, len as nat);
    lemma_iterate_rows_value(row, -1, len, len as nat);
    lemma_add_mod_noop_right(row, len, len);
    lemma_add_mod_noop_right(row, -len, len);
    assert(len % len == 0) by {
        lemma_small_mod(0, len as nat);
        assert(len == len * 1);
        lemma_add_mod_noop_right(len, 0, len);
    }
    assert((-len) % len == 0) by {
        lemma_add_mod_noop_right(-len, len, len);
        lemma_small_mod(0, len as nat);
    }
    lemma_small_mod(row as nat, len as nat);
}

/// Where a requested cursor offset lands, against the active cell's length
/// `len` and the peer cell's length `alt`: inside `[0, len]` it stays put;
/// past either edge the selection hops to the peer column, re-entering at the
/// wrapped offset — from the right at `c - len - 1` past the cell's end
/// position, from the left at `alt + c`. The first component says whether the
/// hop happened.
pub open spec fn cursor_hop(c: int, len: int, alt: int) -> (bool, int)
    recommends
        len >= 0,
        alt >= 0,
{
    if c > len {
        (true, (c - len - 1) % (alt + 1))
    } else if c < 0 {
        (true, (alt + c) % (alt + 1))
    } else {
        (false, c)
    }
}

/// Law: the cursor hop couples the two editable columns into one line.
/// Moving right when the cursor stands at the cell's end switches to the
/// peer cell at position 0; moving left from position 0 switches to the peer
/// cell at its last character, `alt - 1`.
pub proof fn lemma_cursor_hop_boundary(len: int, alt: int)
    requires
        len >= 0,
        alt >= 1,
    ensures
        cursor_hop(len + 1, len, alt) == (true, 0int),
        cursor_hop(-1, len, alt) == (true, alt - 1),
{
    lemma_small_mod(0, (alt + 1) as nat);
    lemma_small_mod((alt - 1) as nat, (alt + 1) as nat);
}

/// Cursor hop, executable form.
pub fn cursor_dest(c: isize, len: usize, alt: usize) -> (r: (bool, usize))
    requires
        len < isize::MAX,
        alt < isize::MAX,
    ensures
        (r.0, r.1 as int) == cursor_hop(c as int, len as int, alt as int),
        r.0 ==> r.1 <= alt,
        !r.0 ==> r.1 <= len,
{
    let m: isize = alt as isize + 1;
    if c > len as isize {
        let off: isize = c - len as isize - 1;
        (true, off.checked_rem_euclid(m).unwrap() as usize)
    } else if c < 0 {
        let off: isize = alt as isize + c;
        (true, off.checked_rem_euclid(m).unwrap() as usize)
    } else {
        (false, c as usize)
    }
}

/// Whether a keystroke is legal at this cursor position in a cell of this
/// length; an illegal one would address a character that is not there.
pub open spec fn edit_ok(len: int, cursor: int, key: Key) -> bool {
    match key {
        Key::Char(_) => 0 <= cursor <= len,
        Key::Delete => 0 <= cursor < len,
        Key::Backspace => cursor == 0 || (0 < cursor <= len),
        Key::Home | Key::End => true,
    }
}

/// Text and cursor after one keystroke: insertion splices at the cursor and
/// advances it; deletion-forward removes at the cursor without moving it;
/// backspace removes before the cursor and retreats it, a no-op at 0; every
/// other key leaves the cell alone.
pub open spec fn edit_text(text: Seq<char>, cursor: int, key: Key) -> (Seq<char>, int)
    recommends
        edit_ok(text.len() as int, cursor, key),
{
    match key {
        Key::Char(ch) => (text.insert(cursor, ch), cursor + 1),
        Key::Delete => (text.remove(cursor), cursor),
        Key::Backspace => if cursor == 0 {
            (text, 0int)
        } else {
            (text.remove(cursor - 1), cursor - 1)
        },
        Key::Home | Key::End => (text, cursor),
    }
}

} // verus!
