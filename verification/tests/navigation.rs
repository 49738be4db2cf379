use hexasm::Application;
use hexasm::Function;
use hexasm::Key;
use hexasm::Mode;
use hexasm::SelectedColumn;
use hexasm::step_row;

fn text(s: &str) -> Vec<char> {
    s.chars().collect()
}

// A session over one function with two slots, bytes "55"/"c3" and mnemonic
// text "push rbp"/"ret", built directly so no external engine is involved.
fn two_slot_session() -> Application {
    Application {
        functions: vec![Function { name: "main".to_string(), offset: 0, size: 2 }],
        bytes: vec![vec![text("55"), text("c3")]],
        disasm: vec![vec![text("push rbp"), text("ret")]],
        function_row: 0,
        editor_row: 0,
        selected: SelectedColumn::Function,
        mode: Mode::Viewing,
        cursor_index: 0,
    }
}

#[test]
fn editable_columns() {
    assert!(!SelectedColumn::Function.editable());
    assert!(SelectedColumn::Hex.editable());
    assert!(SelectedColumn::Disasm.editable());
}

#[test]
fn next_wraps_back_to_start_after_len_steps() {
    for len in 1..6usize {
        for start in 0..len {
            let mut row = start;
            for _ in 0..len {
                row = step_row(row, 1, len);
            }
            assert_eq!(row, start);
            for _ in 0..len {
                row = step_row(row, -1, len);
            }
            assert_eq!(row, start);
        }
    }
}

#[test]
fn previous_from_row_zero_lands_on_last_row() {
    assert_eq!(step_row(0, -1, 4), 3);
    let mut app = two_slot_session();
    app.select(SelectedColumn::Hex);
    app.previous();
    assert_eq!(app.editor_row, 1);
    app.next();
    assert_eq!(app.editor_row, 0);
}

#[test]
fn function_row_navigation_is_modulo_closed() {
    let mut app = two_slot_session();
    app.functions.push(Function { name: "other".to_string(), offset: 2, size: 1 });
    app.bytes.push(vec![text("90")]);
    app.disasm.push(vec![text("nop")]);
    let start = app.function_row;
    app.next();
    app.next();
    assert_eq!(app.function_row, start);
    app.previous();
    app.previous();
    assert_eq!(app.function_row, start);
}

#[test]
fn cursor_right_past_end_hops_to_peer_at_zero() {
    // A Hex cell of length 2: from the boundary position, one more right
    // move enters the Disasm cell of the same row at position 0.
    let mut app = two_slot_session();
    app.select(SelectedColumn::Hex);
    app.set_cursor(1);
    assert_eq!(app.get_cursor(), 1);
    assert!(matches!(app.selected, SelectedColumn::Hex));
    app.set_cursor(app.get_cursor() as isize + 1);
    assert_eq!(app.get_cursor(), 2);
    assert!(matches!(app.selected, SelectedColumn::Hex));
    app.set_cursor(app.get_cursor() as isize + 1);
    assert!(matches!(app.selected, SelectedColumn::Disasm));
    assert_eq!(app.get_cursor(), 0);
}

#[test]
fn cursor_left_past_start_hops_to_peer_last_character() {
    let mut app = two_slot_session();
    app.select(SelectedColumn::Hex);
    assert_eq!(app.get_cursor(), 0);
    app.set_cursor(-1);
    assert!(matches!(app.selected, SelectedColumn::Disasm));
    // The peer cell "push rbp" has length 8; entry is at its last character.
    assert_eq!(app.get_cursor(), 7);
}

#[test]
fn column_switch_resets_cursor() {
    let mut app = two_slot_session();
    app.select(SelectedColumn::Hex);
    app.set_cursor(2);
    assert_eq!(app.get_cursor(), 2);
    app.select(SelectedColumn::Disasm);
    assert_eq!(app.get_cursor(), 0);
}

#[test]
fn keystrokes_edit_the_active_cell() {
    let mut app = two_slot_session();
    app.select(SelectedColumn::Hex);
    app.mode = Mode::Editing;
    // Insertion splices at the cursor and advances it.
    app.apply_key(Key::Char('9'));
    assert_eq!(app.bytes[0][0], text("955"));
    assert_eq!(app.get_cursor(), 1);
    // Deletion-forward removes at the cursor without moving it.
    app.apply_key(Key::Delete);
    assert_eq!(app.bytes[0][0], text("95"));
    assert_eq!(app.get_cursor(), 1);
    // Backspace removes before the cursor and retreats it.
    app.apply_key(Key::Backspace);
    assert_eq!(app.bytes[0][0], text("5"));
    assert_eq!(app.get_cursor(), 0);
    // Backspace at position 0 is a no-op.
    app.apply_key(Key::Backspace);
    assert_eq!(app.bytes[0][0], text("5"));
    assert_eq!(app.get_cursor(), 0);
    // Home and End are handled by cursor placement, not by the cell editor:
    // as keystrokes they leave text and cursor alone.
    app.apply_key(Key::Home);
    app.apply_key(Key::End);
    assert_eq!(app.bytes[0][0], text("5"));
    assert_eq!(app.get_cursor(), 0);
    // The peer column is untouched by keystrokes.
    assert_eq!(app.disasm[0][0], text("push rbp"));
}

#[test]
fn mode_bar_names_the_mode() {
    let mut app = two_slot_session();
    assert_eq!(app.get_bar(), "Mode: Viewing".to_string());
    app.mode = Mode::Editing;
    assert_eq!(app.get_bar(), "Mode: Editing".to_string());
}
