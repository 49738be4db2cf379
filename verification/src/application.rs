//! The editor core: the function catalog, the per-function index-aligned
//! pair of cell-text sequences (byte text and mnemonic text), the selection
//! state machine that navigates them, the synchronizer that re-derives one
//! representation of an edited cell from the other, and the write-back plan.

use vstd::prelude::*;
use crate::hex::from_hexstring;
use crate::hex::hex_decode;
use crate::hex::hex_encode;
use crate::hex::to_hexstring;
use crate::nav::Key;
use crate::nav::Mode;
use crate::nav::SelectedColumn;
use crate::nav::cursor_dest;
use crate::nav::cursor_hop;
use crate::nav::edit_ok;
use crate::nav::edit_text;
use crate::nav::step_row;
use crate::nav::wrap_row;
use crate::services::cells_bytes;
use crate::services::disasm;
use crate::services::disasm_of;
use crate::services::fuzzy_score;
use crate::services::fuzzy_score_of;
use crate::services::pairs_bytes;
use vstd::string::StringExecFns;

verus! {

/// One discovered function of the loaded binary: its name, its byte offset
/// in the file and its size in bytes. Immutable after catalog construction.
#[derive(Clone, Debug)]
pub struct Function {
    pub name: String,
    pub offset: usize,
    pub size: usize,
}

/// The whole editing session: catalog, instruction store and selection.
///
/// `bytes[f]` and `disasm[f]` are the two cell-text sequences of function
/// `f`, index-aligned: slot `i` of one always describes the same instruction
/// as slot `i` of the other. That alignment is the central invariant,
/// `wf`, and every operation preserves it.
pub struct Application {
    pub functions: Vec<Function>,
    pub bytes: Vec<Vec<Vec<char>>>,
    pub disasm: Vec<Vec<Vec<char>>>,
    pub function_row: usize,
    pub editor_row: usize,
    pub selected: SelectedColumn,
    pub mode: Mode,
    pub cursor_index: usize,
}

/// Index of the first catalog entry called `name`, scanning from `from`.
pub open spec fn find_named(fns: Seq<Function>, name: Seq<char>, from: int) -> Option<int>
    decreases fns.len() - from,
{
    if from < 0 || from >= fns.len() {
        None
    } else if fns[from].name@ == name {
        Some(from)
    } else {
        find_named(fns, name, from + 1)
    }
}

impl Application {
    /// The central alignment invariant: both stores cover the catalog, and
    /// for every function the byte-text and mnemonic-text sequences have
    /// equal length.
    pub open spec fn wf(&self) -> bool {
        &&& self.bytes@.len() == self.functions@.len()
        &&& self.disasm@.len() == self.functions@.len()
        &&& forall|f: int|
            0 <= f < self.functions@.len() ==> #[trigger] self.bytes@[f]@.len()
                == self.disasm@[f]@.len()
    }

    /// How many instruction slots function `f` holds.
    pub open spec fn row_count(&self, f: int) -> int {
        self.bytes@[f]@.len() as int
    }

    /// Rows of the column the selection sits in: catalog entries for the
    /// function column, instruction slots otherwise.
    pub open spec fn active_len(&self) -> int {
        match self.selected {
            SelectedColumn::Function => self.functions@.len() as int,
            SelectedColumn::Hex | SelectedColumn::Disasm => self.row_count(
                self.function_row as int,
            ),
        }
    }

    /// The selection's row within its column.
    pub open spec fn active_row(&self) -> int {
        match self.selected {
            SelectedColumn::Function => self.function_row as int,
            SelectedColumn::Hex | SelectedColumn::Disasm => self.editor_row as int,
        }
    }

    /// Text of the cell the cursor lives in (editable columns only).
    pub open spec fn active_cell(&self) -> Seq<char> {
        match self.selected {
            SelectedColumn::Disasm => self.disasm@[self.function_row as int]@[self.editor_row as int]@,
            _ => self.bytes@[self.function_row as int]@[self.editor_row as int]@,
        }
    }

    /// Text of the peer cell of the same instruction slot.
    pub open spec fn peer_cell(&self) -> Seq<char> {
        match self.selected {
            SelectedColumn::Disasm => self.bytes@[self.function_row as int]@[self.editor_row as int]@,
            _ => self.disasm@[self.function_row as int]@[self.editor_row as int]@,
        }
    }

    /// Everything but the selection's row indices is the same in both
    /// states.
    pub open spec fn same_but_rows(&self, other: &Application) -> bool {
        &&& self.functions == other.functions
        &&& self.bytes == other.bytes
        &&& self.disasm == other.disasm
        &&& self.selected == other.selected
        &&& self.mode == other.mode
        &&& self.cursor_index == other.cursor_index
    }

    /// What loading produced for function `f` of the catalog: each decoded
    /// instruction became one slot, its consumed bytes as canonical hex text
    /// and its mnemonic text as it came.
    pub open spec fn function_loaded(&self, f: int, program: Seq<u8>) -> bool {
        let fun = self.functions@[f];
        let pairs = disasm_of(
            program.subrange(fun.offset as int, fun.offset as int + fun.size as int),
        );
        &&& self.bytes@[f]@.len() == pairs.len()
        &&& self.disasm@[f]@.len() == pairs.len()
        &&& forall|i: int|
            0 <= i < pairs.len() ==> #[trigger] self.bytes@[f]@[i]@ == hex_encode(pairs[i].0)
        &&& forall|i: int| 0 <= i < pairs.len() ==> #[trigger] self.disasm@[f]@[i]@ == pairs[i].1
    }

    /// Build the session from the discovered catalog and a snapshot of the
    /// binary: decode every function's byte range once, one slot per decoded
    /// instruction, and start at the function column, viewing, row 0,
    /// cursor 0. Writing a function straight back would reproduce the prefix
    /// of its bytes that disassembled (`loaded_prefix`).
    pub fn new(functions: Vec<Function>, program: &[u8]) -> (r: Application)
        requires
            forall|f: int|
                0 <= f < functions@.len() ==> #[trigger] functions@[f].offset as int
                    + functions@[f].size as int <= program@.len(),
        ensures
            r.wf(),
            r.functions == functions,
            forall|f: int| 0 <= f < functions@.len() ==> #[trigger] r.function_loaded(f, program@),
            forall|f: int|
                0 <= f < functions@.len() ==> #[trigger] loaded_prefix(
                    functions@[f],
                    program@,
                    r.bytes@[f]@,
                ),
            r.function_row == 0,
            r.editor_row == 0,
            r.selected == SelectedColumn::Function,
            r.mode == Mode::Viewing,
            r.cursor_index == 0,
    {
        let plen = program.len();
        let mut bytes: Vec<Vec<Vec<char>>> = Vec::new();
        let mut dis: Vec<Vec<Vec<char>>> = Vec::new();
        let mut f: usize = 0;
        while f < functions.len()
            invariant
                plen == program@.len(),
                f <= functions@.len(),
                bytes@.len() == f,
                dis@.len() == f,
                forall|g: int|
                    0 <= g < functions@.len() ==> #[trigger] functions@[g].offset as int
                        + functions@[g].size as int <= program@.len(),
                forall|g: int|
                    0 <= g < f ==> #[trigger] loaded_cells(
                        functions@[g],
                        program@,
                        bytes@[g]@,
                        dis@[g]@,
                    ),
                forall|g: int|
                    0 <= g < f ==> #[trigger] loaded_prefix(functions@[g], program@, bytes@[g]@),
            decreases functions@.len() - f,
        {
            let off = functions[f].offset;
            let size = functions[f].size;
            let mut body: Vec<u8> = Vec::new();
            let mut k: usize = 0;
            while k < size
                invariant
                    k <= size,
                    plen == program@.len(),
                    off + size <= plen,
                    body@ == program@.subrange(off as int, off as int + k as int),
                decreases size - k,
            {
                body.push(program[off + k]);
                proof {
                    assert(body@ =~= program@.subrange(off as int, off as int + (k + 1) as int));
                }
                k = k + 1;
            }
            proof {
                assert(body@ =~= program@.subrange(off as int, off as int + size as int));
            }
            let pairs = disasm(body.as_slice());
            let mut bcells: Vec<Vec<char>> = Vec::new();
            let mut acells: Vec<Vec<char>> = Vec::new();
            let mut i: usize = 0;
            while i < pairs.len()
                invariant
                    i <= pairs@.len(),
                    bcells@.len() == i,
                    acells@.len() == i,
                    pairs@.len() == disasm_of(body@).len(),
                    forall|j: int|
                        0 <= j < pairs@.len() ==> #[trigger] pairs@[j].0@ == disasm_of(body@)[j].0
                            && pairs@[j].1@ == disasm_of(body@)[j].1,
                    forall|j: int|
                        0 <= j < i ==> #[trigger] bcells@[j]@ == hex_encode(disasm_of(body@)[j].0),
                    forall|j: int| 0 <= j < i ==> #[trigger] acells@[j]@ == disasm_of(body@)[j].1,
                decreases pairs@.len() - i,
            {
                let pr = &pairs[i];
                bcells.push(to_hexstring(pr.0.as_slice()));
                acells.push(clone_text(&pr.1));
                i = i + 1;
            }
            proof {
                lemma_patch_of_encoded(bcells@, disasm_of(body@));
                lemma_cells_bytes_eq_pairs(pairs@, disasm_of(body@));
            }
            bytes.push(bcells);
            dis.push(acells);
            proof {
                let fi = f as int;
                assert(loaded_cells(functions@[fi], program@, bytes@[fi]@, dis@[fi]@));
                assert(loaded_prefix(functions@[fi], program@, bytes@[fi]@));
            }
            f = f + 1;
        }
        let r = Application {
            functions,
            bytes,
            disasm: dis,
            function_row: 0,
            editor_row: 0,
            selected: SelectedColumn::Function,
            mode: Mode::Viewing,
            cursor_index: 0,
        };
        proof {
            assert forall|g: int| 0 <= g < r.functions@.len() implies #[trigger] r.function_loaded(
                g,
                program@,
            ) by {
                assert(loaded_cells(r.functions@[g], program@, r.bytes@[g]@, r.disasm@[g]@));
            }
            assert forall|g: int| 0 <= g < r.functions@.len() implies #[trigger] r.bytes@[g]@.len()
                == r.disasm@[g]@.len() by {
                assert(r.function_loaded(g, program@));
            }
        }
        r
    }

    /// The catalog entry the function row points at.
    pub fn get_current_function(&self) -> (r: &Function)
        requires
            self.function_row < self.functions@.len(),
        ensures
            *r == self.functions@[self.function_row as int],
    {
        &self.functions[self.function_row]
    }

    /// Advance the active column's row by one, wrapping past the end.
    pub fn next(&mut self)
        requires
            old(self).wf(),
            old(self).function_row < old(self).functions@.len(),
            0 < old(self).active_len() <= isize::MAX,
            old(self).active_row() < old(self).active_len(),
        ensures
            final(self).wf(),
            final(self).same_but_rows(old(self)),
            final(self).active_len() == old(self).active_len(),
            final(self).active_row() == wrap_row(old(self).active_row(), 1, old(self).active_len()),
            old(self).selected is Function ==> final(self).editor_row == old(self).editor_row,
            !(old(self).selected is Function) ==> final(self).function_row == old(self).function_row,
    {
        self.mutate_selector(1)
    }

    /// Retreat the active column's row by one, wrapping past the start.
    pub fn previous(&mut self)
        requires
            old(self).wf(),
            old(self).function_row < old(self).functions@.len(),
            0 < old(self).active_len() <= isize::MAX,
            old(self).active_row() < old(self).active_len(),
        ensures
            final(self).wf(),
            final(self).same_but_rows(old(self)),
            final(self).active_len() == old(self).active_len(),
            final(self).active_row() == wrap_row(old(self).active_row(), -1, old(self).active_len()),
            old(self).selected is Function ==> final(self).editor_row == old(self).editor_row,
            !(old(self).selected is Function) ==> final(self).function_row == old(self).function_row,
    {
        self.mutate_selector(-1)
    }

    /// Move the active column's row by a signed step, wrapping modulo the
    /// column's row count by the true mathematical remainder.
    fn mutate_selector(&mut self, val: isize)
        requires
            old(self).wf(),
            old(self).function_row < old(self).functions@.len(),
            0 < old(self).active_len() <= isize::MAX,
            old(self).active_row() < old(self).active_len(),
            old(self).active_row() + val as int <= isize::MAX,
        ensures
            final(self).wf(),
            final(self).same_but_rows(old(self)),
            final(self).active_len() == old(self).active_len(),
            final(self).active_row() == wrap_row(old(self).active_row(), val as int, old(
                self,
            ).active_len()),
            old(self).selected is Function ==> final(self).editor_row == old(self).editor_row,
            !(old(self).selected is Function) ==> final(self).function_row == old(self).function_row,
    {
        match self.selected {
            SelectedColumn::Function => {
                let len = self.functions.len();
                self.function_row = step_row(self.function_row, val, len);
            },
            SelectedColumn::Hex | SelectedColumn::Disasm => {
                let len = self.bytes[self.function_row].len();
                self.editor_row = step_row(self.editor_row, val, len);
            },
        }
    }

    /// Switch the selection to a column; the cursor returns to 0.
    pub fn select(&mut self, column: SelectedColumn)
        ensures
            final(self).functions == old(self).functions,
            final(self).bytes == old(self).bytes,
            final(self).disasm == old(self).disasm,
            final(self).function_row == old(self).function_row,
            final(self).editor_row == old(self).editor_row,
            final(self).mode == old(self).mode,
            final(self).selected == column,
            final(self).cursor_index == 0,
    {
        self.selected = column;
        self.cursor_index = 0;
    }

    /// The cursor's character position within the active cell.
    pub fn get_cursor(&self) -> (r: usize)
        ensures
            r == self.cursor_index,
    {
        self.cursor_index
    }

    /// Place the cursor at a requested offset. Inside the active cell it
    /// lands there; past either edge the selection hops to the peer editable
    /// column of the same row, re-entering at the wrapped offset, so that the
    /// two synchronized views read as one continuous line.
    pub fn set_cursor(&mut self, cursor: isize)
        requires
            old(self).wf(),
            old(self).function_row < old(self).functions@.len(),
            old(self).selected.spec_editable(),
            old(self).editor_row < old(self).row_count(old(self).function_row as int),
            old(self).active_cell().len() < isize::MAX,
            old(self).peer_cell().len() < isize::MAX,
        ensures
            final(self).wf(),
            final(self).functions == old(self).functions,
            final(self).bytes == old(self).bytes,
            final(self).disasm == old(self).disasm,
            final(self).function_row == old(self).function_row,
            final(self).editor_row == old(self).editor_row,
            final(self).mode == old(self).mode,
            ({
                let hop = cursor_hop(
                    cursor as int,
                    old(self).active_cell().len() as int,
                    old(self).peer_cell().len() as int,
                );
                &&& final(self).selected == (if hop.0 {
                    old(self).selected.spec_peer()
                } else {
                    old(self).selected
                })
                &&& final(self).cursor_index as int == hop.1
            }),
            final(self).cursor_index <= final(self).active_cell().len(),
    {
        let fr = self.function_row;
        let er = self.editor_row;
        let (len, alt) = match self.selected {
            SelectedColumn::Disasm => (self.disasm[fr][er].len(), self.bytes[fr][er].len()),
            _ => (self.bytes[fr][er].len(), self.disasm[fr][er].len()),
        };
        let (hopped, dest) = cursor_dest(cursor, len, alt);
        if hopped {
            let peer = match self.selected {
                SelectedColumn::Disasm => SelectedColumn::Hex,
                SelectedColumn::Hex => SelectedColumn::Disasm,
                SelectedColumn::Function => SelectedColumn::Function,
            };
            self.selected = peer;
        }
        self.cursor_index = dest;
    }

    /// Index of the first catalog entry bearing this name, if any.
    fn find(&self, name: &String) -> (r: Option<usize>)
        ensures
            match r {
                Some(f) => find_named(self.functions@, name@, 0) == Some(f as int),
                None => find_named(self.functions@, name@, 0) is None,
            },
    {
        let mut j: usize = 0;
        while j < self.functions.len()
            invariant
                j <= self.functions@.len(),
                find_named(self.functions@, name@, 0) == find_named(
                    self.functions@,
                    name@,
                    j as int,
                ),
            decreases self.functions@.len() - j,
        {
            if self.functions[j].name == *name {
                return Some(j);
            }
            j = j + 1;
        }
        None
    }

    /// The pair of text cells at slot `i` of the named function: its byte
    /// text and its mnemonic text — nothing when the function is unknown or
    /// the slot out of range.
    pub fn get(&self, function: String, i: usize) -> (r: Option<(&Vec<char>, &Vec<char>)>)
        requires
            self.wf(),
        ensures
            match find_named(self.functions@, function@, 0) {
                Some(f) => if i < self.bytes@[f]@.len() {
                    match r {
                        Some(p) => *p.0 == self.bytes@[f]@[i as int] && *p.1
                            == self.disasm@[f]@[i as int],
                        None => false,
                    }
                } else {
                    r is None
                },
                None => r is None,
            },
    {
        proof {
            lemma_find_named_props(self.functions@, function@, 0);
        }
        match self.find(&function) {
            Some(f) => {
                if i < self.bytes[f].len() {
                    Some((&self.bytes[f][i], &self.disasm[f][i]))
                } else {
                    None
                }
            },
            None => None,
        }
    }

    /// All (byte text, mnemonic text) pairs of the named function, in slot
    /// order; empty when the function is unknown.
    pub fn values(&self, function: String) -> (r: Vec<(Vec<char>, Vec<char>)>)
        requires
            self.wf(),
        ensures
            match find_named(self.functions@, function@, 0) {
                Some(f) => r@.len() == self.bytes@[f]@.len() && (forall|i: int|
                    0 <= i < r@.len() ==> (#[trigger] r@[i]).0@ == self.bytes@[f]@[i]@ && r@[i].1@
                        == self.disasm@[f]@[i]@),
                None => r@.len() == 0,
            },
    {
        proof {
            lemma_find_named_props(self.functions@, function@, 0);
        }
        let mut out: Vec<(Vec<char>, Vec<char>)> = Vec::new();
        match self.find(&function) {
            Some(f) => {
                let n = self.bytes[f].len();
                let mut i: usize = 0;
                while i < n
                    invariant
                        self.wf(),
                        f < self.bytes@.len(),
                        n == self.bytes@[f as int]@.len(),
                        i <= n,
                        out@.len() == i,
                        forall|j: int|
                            0 <= j < i ==> (#[trigger] out@[j]).0@ == self.bytes@[f as int]@[j]@
                                && out@[j].1@ == self.disasm@[f as int]@[j]@,
                    decreases n - i,
                {
                    let b = clone_text(&self.bytes[f][i]);
                    let a = clone_text(&self.disasm[f][i]);
                    out.push((b, a));
                    i = i + 1;
                }
                out
            },
            None => out,
        }
    }

    /// Apply one editing keystroke to the active cell: splice or remove a
    /// character at the cursor as `edit_text` says, leaving every other cell
    /// and the selection untouched.
    pub fn apply_key(&mut self, key: Key)
        requires
            old(self).wf(),
            old(self).function_row < old(self).functions@.len(),
            old(self).selected.spec_editable(),
            old(self).editor_row < old(self).row_count(old(self).function_row as int),
            edit_ok(old(self).active_cell().len() as int, old(self).cursor_index as int, key),
        ensures
            final(self).wf(),
            key_applied(*old(self), *final(self), key),
    {
        let fr = self.function_row;
        let er = self.editor_row;
        let c2 = match self.selected {
            SelectedColumn::Disasm => edit_store(&mut self.disasm, fr, er, self.cursor_index, key),
            _ => edit_store(&mut self.bytes, fr, er, self.cursor_index, key),
        };
        self.cursor_index = c2;
    }

    /// Re-derive every mnemonic cell of the current function from its byte
    /// cell: the Hex-to-Disasm direction of the synchronizer. A byte cell
    /// whose text no longer decodes to any instruction shows the sentinel
    /// text instead; the byte cells themselves never change here.
    pub fn rebuild_asm(&mut self)
        requires
            old(self).wf(),
            old(self).function_row < old(self).functions@.len(),
        ensures
            final(self).wf(),
            asm_resynced(*old(self), *final(self)),
    {
        let fr = self.function_row;
        let n = self.bytes[fr].len();
        let mut i: usize = 0;
        while i < n
            invariant
                old(self).wf(),
                fr == old(self).function_row,
                fr < old(self).functions@.len(),
                n == old(self).bytes@[fr as int]@.len(),
                i <= n,
                self.functions == old(self).functions,
                self.bytes == old(self).bytes,
                self.function_row == old(self).function_row,
                self.editor_row == old(self).editor_row,
                self.selected == old(self).selected,
                self.mode == old(self).mode,
                self.cursor_index == old(self).cursor_index,
                self.disasm@.len() == old(self).disasm@.len(),
                forall|g: int|
                    0 <= g < old(self).disasm@.len() && g != fr as int ==> #[trigger] self.disasm@[g]
                        == old(self).disasm@[g],
                self.disasm@[fr as int]@.len() == n,
                forall|j: int|
                    0 <= j < i ==> #[trigger] self.disasm@[fr as int]@[j]@ == resync_asm(
                        old(self).bytes@[fr as int]@[j]@,
                    ),
                forall|j: int|
                    i <= j < n ==> #[trigger] self.disasm@[fr as int]@[j] == old(self).disasm@[fr as int]@[j],
            decreases n - i,
        {
            let raw = from_hexstring(&self.bytes[fr][i]);
            let decoded = disasm(raw.as_slice());
            let cell: Vec<char> = if decoded.len() > 0 {
                clone_text(&decoded[0].1)
            } else {
                invalid_cell()
            };
            let ghost b = self.bytes@[fr as int]@[i as int]@;
            proof {
                assert(raw@ == hex_decode(b));
                assert(cell@ == resync_asm(b));
            }
            let row = &mut self.disasm[fr];
            let slot = &mut row[i];
            *slot = cell;
            proof {
                assert(self.disasm@[fr as int]@[i as int]@ == resync_asm(
                    old(self).bytes@[fr as int]@[i as int]@,
                ));
            }
            i = i + 1;
        }
    }

    /// Adopt the assembler's verdicts for the current function's slots: the
    /// Disasm-to-Hex direction of the synchronizer. The session loop invokes
    /// the external assembler on each mnemonic cell and hands the outcomes
    /// in, one per slot, in order; a slot whose text did not assemble keeps
    /// its previous byte text, silently. The mnemonic cells never change
    /// here.
    pub fn rebuild_bytes(&mut self, results: &Vec<Option<Vec<u8>>>)
        requires
            old(self).wf(),
            old(self).function_row < old(self).functions@.len(),
            results@.len() == old(self).row_count(old(self).function_row as int),
        ensures
            final(self).wf(),
            bytes_resynced(*old(self), *final(self), results@),
    {
        let fr = self.function_row;
        let n = self.bytes[fr].len();
        let mut i: usize = 0;
        while i < n
            invariant
                old(self).wf(),
                fr == old(self).function_row,
                fr < old(self).functions@.len(),
                n == old(self).bytes@[fr as int]@.len(),
                results@.len() == n,
                i <= n,
                self.functions == old(self).functions,
                self.disasm == old(self).disasm,
                self.function_row == old(self).function_row,
                self.editor_row == old(self).editor_row,
                self.selected == old(self).selected,
                self.mode == old(self).mode,
                self.cursor_index == old(self).cursor_index,
                self.bytes@.len() == old(self).bytes@.len(),
                forall|g: int|
                    0 <= g < old(self).bytes@.len() && g != fr as int ==> #[trigger] self.bytes@[g]
                        == old(self).bytes@[g],
                self.bytes@[fr as int]@.len() == n,
                forall|j: int|
                    0 <= j < i ==> #[trigger] self.bytes@[fr as int]@[j]@ == (match results@[j] {
                        Some(b) => hex_encode(b@),
                        None => old(self).bytes@[fr as int]@[j]@,
                    }),
                forall|j: int|
                    i <= j < n ==> #[trigger] self.bytes@[fr as int]@[j] == old(self).bytes@[fr as int]@[j],
            decreases n - i,
        {
            match &results[i] {
                Some(b) => {
                    let cell = to_hexstring(b.as_slice());
                    let row = &mut self.bytes[fr];
                    let slot = &mut row[i];
                    *slot = cell;
                },
                None => {},
            }
            i = i + 1;
        }
    }

    /// The catalog's function names, in order — all of them for an empty
    /// filter, otherwise those the fuzzy matcher scores above the threshold
    /// against the typed text.
    pub fn get_functions(&self, filter: &str) -> (r: Vec<String>)
        ensures
            ({
                let names = self.functions@.map_values(|fun: Function| fun.name@);
                let expected = if filter@.len() == 0 {
                    names
                } else {
                    filtered_names(names, filter@)
                };
                &&& r@.len() == expected.len()
                &&& forall|i: int| 0 <= i < r@.len() ==> (#[trigger] r@[i])@ == expected[i]
            }),
    {
        let ghost names = self.functions@.map_values(|fun: Function| fun.name@);
        let mut out: Vec<String> = Vec::new();
        let n = self.functions.len();
        if filter.is_empty() {
            let mut j: usize = 0;
            while j < n
                invariant
                    names == self.functions@.map_values(|fun: Function| fun.name@),
                    n == self.functions@.len(),
                    j <= n,
                    out@.len() == j,
                    forall|i: int| 0 <= i < j ==> (#[trigger] out@[i])@ == names[i],
                decreases n - j,
            {
                out.push(self.functions[j].name.clone());
                j = j + 1;
            }
            out
        } else {
            let mut j: usize = 0;
            while j < n
                invariant
                    names == self.functions@.map_values(|fun: Function| fun.name@),
                    n == self.functions@.len(),
                    j <= n,
                    out@.len() == filtered_names(names.take(j as int), filter@).len(),
                    forall|i: int|
                        0 <= i < out@.len() ==> (#[trigger] out@[i])@ == filtered_names(
                            names.take(j as int),
                            filter@,
                        )[i],
                decreases n - j,
            {
                let keep = match fuzzy_score(self.functions[j].name.as_str(), filter) {
                    Some(s) => s > 5,
                    None => false,
                };
                proof {
                    lemma_filtered_append(names.take(j as int), seq![names[j as int]], filter@);
                    lemma_filtered_single(names[j as int], filter@);
                    assert(names.take(j + 1) =~= names.take(j as int) + seq![names[j as int]]);
                    assert(keep == name_matches(names[j as int], filter@));
                }
                if keep {
                    out.push(self.functions[j].name.clone());
                }
                j = j + 1;
            }
            proof {
                assert(names.take(names.len() as int) =~= names);
            }
            out
        }
    }

    /// The status-bar text naming the mode.
    pub fn get_bar(&self) -> (r: String)
        ensures
            r@ == mode_text(self.mode),
    {
        match self.mode {
            Mode::Viewing => String::from_str("Mode: Viewing"),
            Mode::Editing => String::from_str("Mode: Editing"),
        }
    }

    /// The raw bytes function `f`'s cells currently decode to, concatenated
    /// in slot order: what write-back will place at the function's offset.
    pub fn function_patch(&self, f: usize) -> (r: Vec<u8>)
        requires
            f < self.bytes@.len(),
        ensures
            r@ == patch_bytes(self.bytes@[f as int]@),
    {
        let mut out: Vec<u8> = Vec::new();
        let n = self.bytes[f].len();
        let mut i: usize = 0;
        while i < n
            invariant
                f < self.bytes@.len(),
                n == self.bytes@[f as int]@.len(),
                i <= n,
                out@ == patch_bytes(self.bytes@[f as int]@.take(i as int)),
            decreases n - i,
        {
            let mut part = from_hexstring(&self.bytes[f][i]);
            proof {
                lemma_patch_push(
                    self.bytes@[f as int]@.take(i as int),
                    self.bytes@[f as int]@[i as int],
                );
                assert(self.bytes@[f as int]@.take(i + 1) =~= self.bytes@[f as int]@.take(
                    i as int,
                ).push(self.bytes@[f as int]@[i as int]));
            }
            out.append(&mut part);
            i = i + 1;
        }
        proof {
            assert(self.bytes@[f as int]@.take(n as int) =~= self.bytes@[f as int]@);
        }
        out
    }

    /// The write-back plan: for every function, in catalog order, the file
    /// offset to seek to and the bytes to put there. No offsets are
    /// recomputed and nothing is truncated or inserted: a concatenation
    /// shorter than the function's recorded size leaves the old tail beyond
    /// it in place, a longer one runs over whatever follows.
    pub fn write_plan(&self) -> (r: Vec<(usize, Vec<u8>)>)
        requires
            self.wf(),
        ensures
            r@.len() == self.functions@.len(),
            forall|f: int|
                0 <= f < r@.len() ==> (#[trigger] r@[f]).0 == self.functions@[f].offset && r@[f].1@
                    == patch_bytes(self.bytes@[f]@),
    {
        let mut out: Vec<(usize, Vec<u8>)> = Vec::new();
        let n = self.functions.len();
        let mut f: usize = 0;
        while f < n
            invariant
                self.wf(),
                n == self.functions@.len(),
                f <= n,
                out@.len() == f,
                forall|g: int|
                    0 <= g < f ==> (#[trigger] out@[g]).0 == self.functions@[g].offset && out@[g].1@
                        == patch_bytes(self.bytes@[g]@),
            decreases n - f,
        {
            let offset = self.functions[f].offset;
            let data = self.function_patch(f);
            out.push((offset, data));
            f = f + 1;
        }
        out
    }

    /// Reconcile the representation opposite the edited column, as the tick
    /// cycle does while editing: byte edits re-derive the mnemonic cells;
    /// mnemonic edits adopt the assembler's verdicts, handed in by the
    /// session loop that performed the external calls.
    pub fn rebuild(&mut self, asm_results: &Vec<Option<Vec<u8>>>)
        requires
            old(self).wf(),
            old(self).function_row < old(self).functions@.len(),
            old(self).selected.spec_editable(),
            old(self).selected is Disasm ==> asm_results@.len() == old(self).row_count(
                old(self).function_row as int,
            ),
        ensures
            final(self).wf(),
            old(self).selected is Hex ==> asm_resynced(*old(self), *final(self)),
            old(self).selected is Disasm ==> bytes_resynced(*old(self), *final(self), asm_results@),
    {
        match self.selected {
            SelectedColumn::Hex => self.rebuild_asm(),
            SelectedColumn::Disasm => self.rebuild_bytes(asm_results),
            SelectedColumn::Function => {
                // excluded by the precondition: only editable columns resync
                proof {
                    assert(false);
                }
            },
        }
    }
}

/// The sentinel shown when edited bytes no longer decode to an instruction.
pub open spec fn invalid_text() -> Seq<char> {
    seq!['I', 'N', 'V', 'A', 'L', 'I', 'D']
}

/// What the synchronizer derives for a mnemonic cell from its peer byte
/// cell: decode the text leniently to raw bytes, disassemble, and take the
/// first instruction's text — the sentinel when nothing decodes. Any length
/// mismatch between the provided bytes and the decoded instruction is
/// deliberately accepted.
pub open spec fn resync_asm(b: Seq<char>) -> Seq<char> {
    let pairs = disasm_of(hex_decode(b));
    if pairs.len() == 0 {
        invalid_text()
    } else {
        pairs[0].1
    }
}

/// One keystroke applied to the active cell: its text and the cursor move
/// as `edit_text` says; every other cell, both column lengths and the whole
/// selection stay as they were.
pub open spec fn key_applied(pre: Application, post: Application, key: Key) -> bool {
    let fr = pre.function_row as int;
    let er = pre.editor_row as int;
    let e = edit_text(pre.active_cell(), pre.cursor_index as int, key);
    &&& post.functions == pre.functions
    &&& post.function_row == pre.function_row
    &&& post.editor_row == pre.editor_row
    &&& post.selected == pre.selected
    &&& post.mode == pre.mode
    &&& (pre.selected is Hex ==> post.disasm == pre.disasm)
    &&& (pre.selected is Disasm ==> post.bytes == pre.bytes)
    &&& post.bytes@.len() == pre.bytes@.len()
    &&& post.disasm@.len() == pre.disasm@.len()
    &&& forall|g: int|
        0 <= g < pre.bytes@.len() && g != fr ==> #[trigger] post.bytes@[g] == pre.bytes@[g]
            && #[trigger] post.disasm@[g] == pre.disasm@[g]
    &&& post.bytes@[fr]@.len() == pre.bytes@[fr]@.len()
    &&& post.disasm@[fr]@.len() == pre.disasm@[fr]@.len()
    &&& forall|j: int|
        0 <= j < pre.bytes@[fr]@.len() && j != er ==> #[trigger] post.bytes@[fr]@[j]
            == pre.bytes@[fr]@[j] && #[trigger] post.disasm@[fr]@[j] == pre.disasm@[fr]@[j]
    &&& post.active_cell() == e.0
    &&& post.cursor_index as int == e.1
    &&& post.peer_cell() == pre.peer_cell()
}

/// One run of the Hex-to-Disasm synchronizer over the current function:
/// every mnemonic cell of that function is re-derived from its byte cell;
/// nothing else changes.
pub open spec fn asm_resynced(pre: Application, post: Application) -> bool {
    let fr = pre.function_row as int;
    &&& post.functions == pre.functions
    &&& post.bytes == pre.bytes
    &&& post.function_row == pre.function_row
    &&& post.editor_row == pre.editor_row
    &&& post.selected == pre.selected
    &&& post.mode == pre.mode
    &&& post.cursor_index == pre.cursor_index
    &&& post.disasm@.len() == pre.disasm@.len()
    &&& forall|g: int|
        0 <= g < pre.disasm@.len() && g != fr ==> #[trigger] post.disasm@[g] == pre.disasm@[g]
    &&& post.disasm@[fr]@.len() == pre.bytes@[fr]@.len()
    &&& forall|i: int|
        0 <= i < pre.bytes@[fr]@.len() ==> #[trigger] post.disasm@[fr]@[i]@ == resync_asm(
            pre.bytes@[fr]@[i]@,
        )
}

/// One run of the Disasm-to-Hex synchronizer over the current function,
/// given the assembler's verdict for each slot: where it produced bytes the
/// byte cell becomes their canonical hex text — the new byte count may
/// drift from the slot's old one, which is accepted; where it failed the
/// byte cell keeps its previous value. Nothing else changes.
pub open spec fn bytes_resynced(
    pre: Application,
    post: Application,
    results: Seq<Option<Vec<u8>>>,
) -> bool {
    let fr = pre.function_row as int;
    &&& post.functions == pre.functions
    &&& post.disasm == pre.disasm
    &&& post.function_row == pre.function_row
    &&& post.editor_row == pre.editor_row
    &&& post.selected == pre.selected
    &&& post.mode == pre.mode
    &&& post.cursor_index == pre.cursor_index
    &&& post.bytes@.len() == pre.bytes@.len()
    &&& forall|g: int|
        0 <= g < pre.bytes@.len() && g != fr ==> #[trigger] post.bytes@[g] == pre.bytes@[g]
    &&& post.bytes@[fr]@.len() == pre.bytes@[fr]@.len()
    &&& forall|i: int|
        0 <= i < pre.bytes@[fr]@.len() ==> #[trigger] post.bytes@[fr]@[i]@ == (match results[i] {
            Some(b) => hex_encode(b@),
            None => pre.bytes@[fr]@[i]@,
        })
}

/// Write-back coherence at load time: what the function's byte cells decode
/// back to is exactly the prefix of its original bytes that disassembled —
/// loading loses nothing of the decoded bytes.
pub open spec fn loaded_prefix(fun: Function, program: Seq<u8>, byte_cells: Seq<Vec<char>>) -> bool {
    let slice = program.subrange(fun.offset as int, fun.offset as int + fun.size as int);
    let n = pairs_bytes(disasm_of(slice)).len();
    &&& n <= fun.size
    &&& patch_bytes(byte_cells) == slice.take(n as int)
}

/// Two decode results with the same consumed bytes, pairwise, concatenate to
/// the same bytes.
proof fn lemma_cells_bytes_eq_pairs(rs: Seq<(Vec<u8>, Vec<char>)>, ps: Seq<(Seq<u8>, Seq<char>)>)
    requires
        rs.len() == ps.len(),
        forall|i: int| 0 <= i < rs.len() ==> (#[trigger] rs[i]).0@ == ps[i].0,
    ensures
        cells_bytes(rs) == pairs_bytes(ps),
    decreases rs.len(),
{
    if rs.len() == 0 {
        assert(cells_bytes(rs) =~= pairs_bytes(ps));
    } else {
        let rd = rs.drop_first();
        let pd = ps.drop_first();
        assert forall|i: int| 0 <= i < rd.len() implies (#[trigger] rd[i]).0@ == pd[i].0 by {
            assert(rd[i] == rs[i + 1]);
        }
        lemma_cells_bytes_eq_pairs(rd, pd);
        assert(cells_bytes(rs) =~= pairs_bytes(ps));
    }
}

/// Cells holding the canonical encodings of a decode result's bytes decode
/// back, concatenated, to exactly those bytes.
proof fn lemma_patch_of_encoded(cells: Seq<Vec<char>>, ps: Seq<(Seq<u8>, Seq<char>)>)
    requires
        cells.len() == ps.len(),
        forall|i: int| 0 <= i < cells.len() ==> (#[trigger] cells[i])@ == hex_encode(ps[i].0),
    ensures
        patch_bytes(cells) == pairs_bytes(ps),
    decreases cells.len(),
{
    if cells.len() == 0 {
        assert(patch_bytes(cells) =~= pairs_bytes(ps));
    } else {
        crate::hex::lemma_hex_round_trip(ps[0].0);
        assert(hex_decode(cells[0]@) == ps[0].0);
        let cd = cells.drop_first();
        let pd = ps.drop_first();
        assert forall|i: int| 0 <= i < cd.len() implies (#[trigger] cd[i])@ == hex_encode(pd[i].0) by {
            assert(cd[i] == cells[i + 1]);
        }
        lemma_patch_of_encoded(cd, pd);
        assert(patch_bytes(cells) =~= pairs_bytes(ps));
    }
}

/// The two cell sequences a function's byte range decodes to.
pub open spec fn loaded_cells(
    fun: Function,
    program: Seq<u8>,
    byte_cells: Seq<Vec<char>>,
    asm_cells: Seq<Vec<char>>,
) -> bool {
    let pairs = disasm_of(program.subrange(fun.offset as int, fun.offset as int + fun.size as int));
    &&& byte_cells.len() == pairs.len()
    &&& asm_cells.len() == pairs.len()
    &&& forall|i: int| 0 <= i < pairs.len() ==> #[trigger] byte_cells[i]@ == hex_encode(pairs[i].0)
    &&& forall|i: int| 0 <= i < pairs.len() ==> #[trigger] asm_cells[i]@ == pairs[i].1
}

/// Whether a name scores above the display threshold against the typed
/// filter text.
pub open spec fn name_matches(n: Seq<char>, pattern: Seq<char>) -> bool {
    match fuzzy_score_of(n, pattern) {
        Some(s) => s > 5,
        None => false,
    }
}

/// The names that score above the threshold, in their original order.
pub open spec fn filtered_names(names: Seq<Seq<char>>, pattern: Seq<char>) -> Seq<Seq<char>>
    decreases names.len(),
{
    if names.len() == 0 {
        Seq::<Seq<char>>::empty()
    } else {
        (if name_matches(names[0], pattern) {
            seq![names[0]]
        } else {
            Seq::<Seq<char>>::empty()
        }) + filtered_names(names.drop_first(), pattern)
    }
}

proof fn lemma_filtered_append(s: Seq<Seq<char>>, t: Seq<Seq<char>>, pattern: Seq<char>)
    ensures
        filtered_names(s + t, pattern) == filtered_names(s, pattern) + filtered_names(t, pattern),
    decreases s.len(),
{
    if s.len() == 0 {
        assert(s + t =~= t);
        assert(filtered_names(s, pattern) + filtered_names(t, pattern) =~= filtered_names(
            t,
            pattern,
        ));
    } else {
        assert((s + t).drop_first() =~= s.drop_first() + t);
        lemma_filtered_append(s.drop_first(), t, pattern);
        assert(filtered_names(s + t, pattern) =~= filtered_names(s, pattern) + filtered_names(
            t,
            pattern,
        ));
    }
}

proof fn lemma_filtered_single(n: Seq<char>, pattern: Seq<char>)
    ensures
        filtered_names(seq![n], pattern) == if name_matches(n, pattern) {
            seq![n]
        } else {
            Seq::<Seq<char>>::empty()
        },
{
    let s = seq![n];
    assert(s.drop_first() =~= Seq::<Seq<char>>::empty());
    assert(filtered_names(Seq::<Seq<char>>::empty(), pattern) =~= Seq::<Seq<char>>::empty());
    if name_matches(n, pattern) {
        assert(filtered_names(s, pattern) =~= seq![n]);
    } else {
        assert(filtered_names(s, pattern) =~= Seq::<Seq<char>>::empty());
    }
}

/// The text the mode bar shows.
pub open spec fn mode_text(m: Mode) -> Seq<char> {
    match m {
        Mode::Viewing => "Mode: Viewing"@,
        Mode::Editing => "Mode: Editing"@,
    }
}

/// Concatenation of the raw bytes every cell of a byte-text sequence
/// decodes to, in slot order: what write-back puts at the function's offset.
pub open spec fn patch_bytes(cells: Seq<Vec<char>>) -> Seq<u8>
    decreases cells.len(),
{
    if cells.len() == 0 {
        Seq::<u8>::empty()
    } else {
        hex_decode(cells[0]@) + patch_bytes(cells.drop_first())
    }
}

proof fn lemma_patch_push(cells: Seq<Vec<char>>, c: Vec<char>)
    ensures
        patch_bytes(cells.push(c)) == patch_bytes(cells) + hex_decode(c@),
    decreases cells.len(),
{
    if cells.len() == 0 {
        assert(cells.push(c) =~= seq![c]);
        assert(seq![c].drop_first() =~= Seq::<Vec<char>>::empty());
        assert(patch_bytes(Seq::<Vec<char>>::empty()) =~= Seq::<u8>::empty());
        assert(patch_bytes(seq![c]) =~= patch_bytes(cells) + hex_decode(c@));
    } else {
        assert(cells.push(c).drop_first() =~= cells.drop_first().push(c));
        lemma_patch_push(cells.drop_first(), c);
        assert(patch_bytes(cells.push(c)) =~= patch_bytes(cells) + hex_decode(c@));
    }
}

/// A hit of `find_named` is in range, bears the name, and is the first to do
/// so; a miss means no entry from `from` on bears it.
pub proof fn lemma_find_named_props(fns: Seq<Function>, name: Seq<char>, from: int)
    requires
        0 <= from,
    ensures
        match find_named(fns, name, from) {
            Some(f) => from <= f < fns.len() && fns[f].name@ == name && (forall|g: int|
                from <= g < f ==> (#[trigger] fns[g]).name@ != name),
            None => forall|g: int| from <= g < fns.len() ==> (#[trigger] fns[g]).name@ != name,
        },
    decreases fns.len() - from,
{
    if from < 0 || from >= fns.len() {
    } else if fns[from].name@ == name {
    } else {
        lemma_find_named_props(fns, name, from + 1);
    }
}

/// One write of the write-back pass, modelled on an in-memory image of the
/// file: put `data` at `offset`, touching nothing else. In particular, when
/// the new bytes are shorter than the region they replace, the old tail from
/// `offset + data.len()` on keeps its previous values — it is neither zeroed
/// nor removed.
pub fn apply_patch(image: &mut Vec<u8>, offset: usize, data: &Vec<u8>)
    requires
        offset + data@.len() <= old(image)@.len(),
    ensures
        final(image)@.len() == old(image)@.len(),
        forall|j: int|
            0 <= j < old(image)@.len() ==> #[trigger] final(image)@[j] == (if offset <= j < offset
                + data@.len() {
                data@[j - offset]
            } else {
                old(image)@[j]
            }),
{
    let n = data.len();
    let m = image.len();
    let mut k: usize = 0;
    while k < n
        invariant
            n == data@.len(),
            m == image@.len(),
            offset + n <= image@.len(),
            image@.len() == old(image)@.len(),
            k <= n,
            forall|j: int|
                0 <= j < image@.len() ==> #[trigger] image@[j] == (if offset <= j < offset + k {
                    data@[j - offset]
                } else {
                    old(image)@[j]
                }),
        decreases n - k,
    {
        let slot = &mut image[offset + k];
        *slot = data[k];
        k = k + 1;
    }
}

/// The two states hold the same cell texts everywhere, whatever the Vec
/// values behind them.
pub open spec fn same_cells(x: Application, y: Application) -> bool {
    &&& x.bytes@.len() == y.bytes@.len()
    &&& x.disasm@.len() == y.disasm@.len()
    &&& forall|g: int|
        0 <= g < x.bytes@.len() ==> #[trigger] x.bytes@[g]@.len() == y.bytes@[g]@.len()
    &&& forall|g: int|
        0 <= g < x.disasm@.len() ==> #[trigger] x.disasm@[g]@.len() == y.disasm@[g]@.len()
    &&& forall|g: int, i: int|
        0 <= g < x.bytes@.len() && 0 <= i < x.bytes@[g]@.len() ==> #[trigger] x.bytes@[g]@[i]@
            == y.bytes@[g]@[i]@
    &&& forall|g: int, i: int|
        0 <= g < x.disasm@.len() && 0 <= i < x.disasm@[g]@.len() ==> #[trigger] x.disasm@[g]@[i]@
            == y.disasm@[g]@[i]@
}

/// Law: the Hex-to-Disasm resync is idempotent — run once from `a` to reach
/// `b`, then again on unchanged byte text, and every cell reads as it did
/// after the first run.
pub proof fn lemma_resync_asm_idempotent(a: Application, b: Application, c: Application)
    requires
        a.wf(),
        a.function_row < a.functions@.len(),
        asm_resynced(a, b),
        asm_resynced(b, c),
    ensures
        c.bytes == b.bytes,
        same_cells(b, c),
{
    let fr = a.function_row as int;
    assert forall|g: int, i: int|
        0 <= g < b.disasm@.len() && 0 <= i < b.disasm@[g]@.len() implies #[trigger] b.disasm@[g]@[i]@
        == c.disasm@[g]@[i]@ by {
        if g != fr {
            assert(c.disasm@[g] == b.disasm@[g]);
        } else {
            assert(c.disasm@[fr]@[i]@ == resync_asm(b.bytes@[fr]@[i]@));
            assert(b.disasm@[fr]@[i]@ == resync_asm(a.bytes@[fr]@[i]@));
        }
    }
}

/// Law: the Disasm-to-Hex resync is idempotent — with the assembler's
/// verdicts unchanged, a second run leaves every cell reading as it did
/// after the first.
pub proof fn lemma_resync_bytes_idempotent(
    a: Application,
    b: Application,
    c: Application,
    results: Seq<Option<Vec<u8>>>,
)
    requires
        a.wf(),
        a.function_row < a.functions@.len(),
        bytes_resynced(a, b, results),
        bytes_resynced(b, c, results),
    ensures
        c.disasm == b.disasm,
        same_cells(b, c),
{
    let fr = a.function_row as int;
    assert forall|g: int, i: int|
        0 <= g < b.bytes@.len() && 0 <= i < b.bytes@[g]@.len() implies #[trigger] b.bytes@[g]@[i]@
        == c.bytes@[g]@[i]@ by {
        if g != fr {
            assert(c.bytes@[g] == b.bytes@[g]);
        }
    }
}

/// Law: a lossless reassembly is a fixpoint of the Disasm-to-Hex resync.
/// Where the assembler's verdict for a slot is exactly the bytes the slot's
/// byte text already encodes, the resync leaves that byte text unchanged.
pub proof fn lemma_lossless_verdict_fixpoint(
    a: Application,
    b: Application,
    results: Seq<Option<Vec<u8>>>,
    i: int,
)
    requires
        a.wf(),
        a.function_row < a.functions@.len(),
        bytes_resynced(a, b, results),
        0 <= i < a.bytes@[a.function_row as int]@.len(),
        results[i] is Some,
        hex_encode(results[i].unwrap()@) == a.bytes@[a.function_row as int]@[i]@,
    ensures
        b.bytes@[a.function_row as int]@[i]@ == a.bytes@[a.function_row as int]@[i]@,
{
}

/// Apply one keystroke to the cell at `(fr, er)` of a store, returning the
/// new cursor position.
fn edit_store(store: &mut Vec<Vec<Vec<char>>>, fr: usize, er: usize, cursor: usize, key: Key) -> (c2:
    usize)
    requires
        fr < old(store)@.len(),
        er < old(store)@[fr as int]@.len(),
        edit_ok(old(store)@[fr as int]@[er as int]@.len() as int, cursor as int, key),
    ensures
        final(store)@.len() == old(store)@.len(),
        forall|g: int|
            0 <= g < old(store)@.len() && g != fr as int
                ==> #[trigger] final(store)@[g] == old(store)@[g],
        final(store)@[fr as int]@.len() == old(store)@[fr as int]@.len(),
        forall|j: int|
            0 <= j < old(store)@[fr as int]@.len() && j != er as int
                ==> #[trigger] final(store)@[fr as int]@[j] == old(store)@[fr as int]@[j],
        final(store)@[fr as int]@[er as int]@ == edit_text(
            old(store)@[fr as int]@[er as int]@,
            cursor as int,
            key,
        ).0,
        c2 as int == edit_text(old(store)@[fr as int]@[er as int]@, cursor as int, key).1,
{
    let row = &mut store[fr];
    let cell = &mut row[er];
    match key {
        Key::Char(ch) => {
            cell.insert(cursor, ch);
            let n2 = cell.len();
            proof {
                assert(cursor < n2);
            }
            cursor + 1
        },
        Key::Delete => {
            cell.remove(cursor);
            cursor
        },
        Key::Backspace => {
            if cursor > 0 {
                cell.remove(cursor - 1);
                cursor - 1
            } else {
                cursor
            }
        },
        Key::Home | Key::End => cursor,
    }
}

/// The sentinel cell text.
fn invalid_cell() -> (r: Vec<char>)
    ensures
        r@ == invalid_text(),
{
    let v: Vec<char> = vec!['I', 'N', 'V', 'A', 'L', 'I', 'D'];
    proof {
        assert(v@ =~= invalid_text());
    }
    v
}

/// Copy a cell's text.
fn clone_text(v: &Vec<char>) -> (r: Vec<char>)
    ensures
        r@ == v@,
{
    let mut out: Vec<char> = Vec::new();
    let mut i: usize = 0;
    while i < v.len()
        invariant
            i <= v@.len(),
            out@ == v@.take(i as int),
        decreases v@.len() - i,
    {
        out.push(v[i]);
        proof {
            assert(out@ =~= v@.take(i + 1));
        }
        i = i + 1;
    }
    proof {
        assert(v@.take(v@.len() as int) =~= v@);
    }
    out
}

} // verus!
