//! End-to-end scenarios against the real disassembler.

use hexasm::Application;
use hexasm::Function;
use hexasm::Key;
use hexasm::Mode;
use hexasm::SelectedColumn;
use hexasm::disasm;

fn text(s: &str) -> Vec<char> {
    s.chars().collect()
}

fn load_two_instruction_function() -> Application {
    // One function of two single-byte instructions: push rbp; ret.
    let program: Vec<u8> = vec![0x55, 0xc3];
    let functions = vec![Function { name: "main".to_string(), offset: 0, size: 2 }];
    Application::new(functions, &program)
}

#[test]
fn loading_splits_bytes_into_aligned_cells() {
    let app = load_two_instruction_function();
    assert_eq!(app.bytes.len(), 1);
    assert_eq!(app.bytes[0].len(), 2);
    assert_eq!(app.disasm[0].len(), 2);
    assert_eq!(app.bytes[0][0], text("55"));
    assert_eq!(app.bytes[0][1], text("c3"));
    assert!(!app.disasm[0][0].is_empty());
    assert!(!app.disasm[0][1].is_empty());
    let mnemonic0: String = app.disasm[0][0].iter().collect();
    assert!(mnemonic0.contains("push"));
    let mnemonic1: String = app.disasm[0][1].iter().collect();
    assert!(mnemonic1.contains("ret"));
}

#[test]
fn loading_is_stable_across_repeated_loads() {
    let a = load_two_instruction_function();
    let b = load_two_instruction_function();
    assert_eq!(a.bytes[0], b.bytes[0]);
    assert_eq!(a.disasm[0], b.disasm[0]);
}

#[test]
fn disassembler_really_decodes() {
    // Would fail if the disassembler handed its input back unchanged: the
    // two-byte buffer comes back as two one-byte instructions with text.
    let pairs = disasm(&[0x55, 0xc3]);
    assert_eq!(pairs.len(), 2);
    assert_eq!(pairs[0].0, vec![0x55]);
    assert_eq!(pairs[1].0, vec![0xc3]);
    assert!(!pairs[0].1.is_empty());
}

#[test]
fn hex_edit_resyncs_the_mnemonic_cell() {
    // Edit Hex cell 0 from "55" to "90"; after one reconciliation the
    // mnemonic cell reads as the disassembly of 0x90 and the byte text is
    // still "90".
    let mut app = load_two_instruction_function();
    app.select(SelectedColumn::Hex);
    app.mode = Mode::Editing;
    app.apply_key(Key::Delete);
    app.apply_key(Key::Delete);
    app.apply_key(Key::Char('9'));
    app.apply_key(Key::Char('0'));
    assert_eq!(app.bytes[0][0], text("90"));
    let empty_verdicts: Vec<Option<Vec<u8>>> = Vec::new();
    app.rebuild(&empty_verdicts);
    let expected = disasm(&[0x90]);
    assert!(!expected.is_empty());
    assert_eq!(app.disasm[0][0], expected[0].1);
    assert_eq!(app.bytes[0][0], text("90"));
    // The other slot was re-derived from its own unchanged bytes.
    assert_eq!(app.bytes[0][1], text("c3"));
    // The two sequences stay index-aligned through edit and resync.
    assert_eq!(app.bytes[0].len(), app.disasm[0].len());
}

#[test]
fn resync_is_idempotent_on_unchanged_text() {
    let mut app = load_two_instruction_function();
    app.select(SelectedColumn::Hex);
    app.rebuild_asm();
    let once = app.disasm[0].clone();
    app.rebuild_asm();
    assert_eq!(app.disasm[0], once);
}

#[test]
fn undecodable_bytes_show_the_sentinel() {
    let mut app = load_two_instruction_function();
    app.select(SelectedColumn::Hex);
    app.mode = Mode::Editing;
    // "zz" decodes leniently to the byte 0x00, which x86-64 cannot decode
    // alone; the mnemonic cell falls back to the sentinel.
    app.apply_key(Key::Delete);
    app.apply_key(Key::Delete);
    app.apply_key(Key::Char('z'));
    app.apply_key(Key::Char('z'));
    app.rebuild_asm();
    assert_eq!(app.disasm[0][0], text("INVALID"));
}

#[test]
fn failed_assembly_keeps_the_byte_cell() {
    // Edit Disasm cell 1 to an unassemblable string; after one
    // reconciliation with the assembler's verdicts the byte cell is
    // unchanged and the session carries on.
    let mut app = load_two_instruction_function();
    app.select(SelectedColumn::Disasm);
    app.mode = Mode::Editing;
    app.editor_row = 1;
    let old_len = app.disasm[0][1].len();
    for _ in 0..old_len {
        app.apply_key(Key::Delete);
    }
    app.apply_key(Key::Char('z'));
    app.apply_key(Key::Char('z'));
    app.apply_key(Key::Char('z'));
    assert_eq!(app.disasm[0][1], text("zzz"));
    // The session loop would run the external assembler per slot: slot 0
    // still assembles to its old bytes, slot 1 does not assemble at all.
    let verdicts: Vec<Option<Vec<u8>>> = vec![Some(vec![0x55]), None];
    app.rebuild(&verdicts);
    assert_eq!(app.bytes[0][1], text("c3"));
    assert_eq!(app.bytes[0][0], text("55"));
    assert_eq!(app.disasm[0][1], text("zzz"));
    // The two sequences stay index-aligned through the failed reassembly.
    assert_eq!(app.bytes[0].len(), app.disasm[0].len());
    // Re-running the resync with the same verdicts changes nothing more.
    let once = app.bytes[0].clone();
    app.rebuild(&verdicts);
    assert_eq!(app.bytes[0], once);
}

#[test]
fn successful_assembly_rewrites_the_byte_cell() {
    let mut app = load_two_instruction_function();
    app.select(SelectedColumn::Disasm);
    // A verdict with bytes replaces the byte text with their canonical hex
    // form, even when the byte count drifts from the slot's old one.
    let verdicts: Vec<Option<Vec<u8>>> = vec![Some(vec![0x48, 0x89, 0xe5]), None];
    app.rebuild_bytes(&verdicts);
    assert_eq!(app.bytes[0][0], text("48 89 e5"));
    assert_eq!(app.bytes[0][1], text("c3"));
}

#[test]
fn lookup_by_name_and_slot() {
    let app = load_two_instruction_function();
    let cell = app.get("main".to_string(), 0);
    assert!(cell.is_some());
    let (b, a) = cell.unwrap();
    assert_eq!(*b, text("55"));
    assert!(!a.is_empty());
    assert!(app.get("main".to_string(), 2).is_none());
    assert!(app.get("absent".to_string(), 0).is_none());
    let pairs = app.values("main".to_string());
    assert_eq!(pairs.len(), 2);
    assert_eq!(pairs[1].0, text("c3"));
    assert_eq!(app.values("absent".to_string()).len(), 0);
}

#[test]
fn filter_keeps_matching_names_in_order() {
    let program: Vec<u8> = vec![0x55, 0xc3];
    let functions = vec![
        Function { name: "main".to_string(), offset: 0, size: 1 },
        Function { name: "helper".to_string(), offset: 1, size: 1 },
    ];
    let app = Application::new(functions, &program);
    let all = app.get_functions("");
    assert_eq!(all, vec!["main".to_string(), "helper".to_string()]);
    let matched = app.get_functions("main");
    assert_eq!(matched, vec!["main".to_string()]);
}
