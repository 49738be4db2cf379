use hexasm::Application;
use hexasm::Function;
use hexasm::Mode;
use hexasm::SelectedColumn;
use hexasm::apply_patch;

fn text(s: &str) -> Vec<char> {
    s.chars().collect()
}

fn session() -> Application {
    Application {
        functions: vec![
            Function { name: "first".to_string(), offset: 2, size: 4 },
            Function { name: "second".to_string(), offset: 6, size: 2 },
        ],
        bytes: vec![vec![text("55"), text("48 89 e5")], vec![text("c3")]],
        disasm: vec![vec![text("push rbp"), text("mov rbp, rsp")], vec![text("ret")]],
        function_row: 0,
        editor_row: 0,
        selected: SelectedColumn::Function,
        mode: Mode::Viewing,
        cursor_index: 0,
    }
}

#[test]
fn patch_concatenates_decoded_cells_in_slot_order() {
    let app = session();
    assert_eq!(app.function_patch(0), vec![0x55, 0x48, 0x89, 0xe5]);
    assert_eq!(app.function_patch(1), vec![0xc3]);
}

#[test]
fn plan_pairs_each_function_offset_with_its_bytes() {
    let app = session();
    let plan = app.write_plan();
    assert_eq!(plan.len(), 2);
    assert_eq!(plan[0].0, 2);
    assert_eq!(plan[0].1, vec![0x55, 0x48, 0x89, 0xe5]);
    assert_eq!(plan[1].0, 6);
    assert_eq!(plan[1].1, vec![0xc3]);
}

#[test]
fn write_back_right_after_load_reproduces_the_decoded_bytes() {
    let program: Vec<u8> = vec![0x55, 0xc3];
    let functions = vec![Function { name: "main".to_string(), offset: 0, size: 2 }];
    let app = Application::new(functions, &program);
    let plan = app.write_plan();
    assert_eq!(plan.len(), 1);
    assert_eq!(plan[0].0, 0);
    assert_eq!(plan[0].1, program);
}

#[test]
fn patching_touches_only_the_written_region() {
    let mut image: Vec<u8> = (0..10).collect();
    apply_patch(&mut image, 2, &vec![0x99, 0x98]);
    assert_eq!(image, vec![0, 1, 0x99, 0x98, 4, 5, 6, 7, 8, 9]);
}

#[test]
fn short_write_back_leaves_the_old_tail() {
    // A function of recorded size 4 whose cells now decode to a single
    // byte: write-back covers only that byte, and the old bytes from
    // offset + 1 to offset + 4 stay exactly as they were.
    let mut app = session();
    app.bytes[0] = vec![text("90")];
    app.disasm[0] = vec![text("nop")];
    let mut image: Vec<u8> = (10..20).collect();
    let plan = app.write_plan();
    assert_eq!(plan[0].1, vec![0x90]);
    for (offset, data) in &plan {
        apply_patch(&mut image, *offset, data);
    }
    assert_eq!(image, vec![10, 11, 0x90, 13, 14, 15, 0xc3, 17, 18, 19]);
}
