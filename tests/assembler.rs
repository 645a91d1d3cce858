use carbonasmpp::ast::{
    Condition, Instruction, InstructionTypes, LabelError, Operand, Program, ProgramBody,
};
use carbonasmpp::label_map::LabelMap;
use carbonasmpp::lowerer::{lower, lower_one, LowerError};

fn ins(opcode: InstructionTypes, operands: Vec<Operand>) -> ProgramBody {
    ProgramBody::Instruction(Instruction { opcode, operands })
}

fn label(name: &str) -> ProgramBody {
    ProgramBody::Label(name.to_string())
}

fn ldi(r: u8, v: u8) -> ProgramBody {
    ins(InstructionTypes::Ldi, vec![Operand::Reg(r), Operand::Imm(v)])
}

fn brc(c: Condition, target: &str) -> ProgramBody {
    ins(InstructionTypes::Brc, vec![Operand::Cond(c), Operand::Label(target.to_string())])
}

#[test]
fn end_to_end_loop_program() {
    let program = Program(vec![label("start"), ldi(0, 5), brc(Condition::Jmp, "start")]);
    let labels = program.generate_label_map();
    assert_eq!(labels.get(&"start".to_string()), Some(0));
    let image = lower(&program, &labels).unwrap();
    // Ldi (7) with R0 packed, immediate 5, Brc (10) with Jmp (7) packed, page 0.
    assert_eq!(image, vec![0x70, 5, 0xA7, 0]);
}

#[test]
fn label_at_offset_32_is_on_page_1() {
    let mut items = Vec::new();
    for _ in 0..16 {
        items.push(ldi(1, 1));
    }
    items.push(label("target"));
    items.push(ins(InstructionTypes::Hlt, vec![]));
    let program = Program(items);
    assert_eq!(program.byte_size(), Some(33));
    let labels = program.generate_label_map();
    assert_eq!(labels.get(&"target".to_string()), Some(1));
}

#[test]
fn label_at_offset_31_is_on_page_0() {
    let mut items = Vec::new();
    for _ in 0..15 {
        items.push(ldi(1, 1));
    }
    items.push(ins(InstructionTypes::Hlt, vec![]));
    items.push(label("target"));
    items.push(ins(InstructionTypes::Hlt, vec![]));
    let labels = Program(items).generate_label_map();
    assert_eq!(labels.get(&"target".to_string()), Some(0));
}

#[test]
fn undefined_label_names_symbol_and_position() {
    let program = Program(vec![ldi(0, 1), brc(Condition::Eq, "missing")]);
    let labels = program.generate_label_map();
    assert_eq!(
        lower(&program, &labels),
        Err(LowerError::UndefinedLabel { position: 1, label: "missing".to_string() })
    );
}

#[test]
fn wrong_arity_is_shape_mismatch() {
    let program = Program(vec![label("a"), ins(InstructionTypes::Add, vec![Operand::Reg(0)])]);
    let labels = program.generate_label_map();
    assert_eq!(lower(&program, &labels), Err(LowerError::OperandShapeMismatch { position: 1 }));
}

#[test]
fn wrong_kind_is_shape_mismatch() {
    let program = Program(vec![ins(InstructionTypes::Ldi, vec![Operand::Reg(0), Operand::Reg(1)])]);
    let labels = program.generate_label_map();
    assert_eq!(lower(&program, &labels), Err(LowerError::OperandShapeMismatch { position: 0 }));
}

#[test]
fn first_error_wins() {
    let program = Program(vec![
        ins(InstructionTypes::Hlt, vec![Operand::Imm(3)]),
        brc(Condition::Jmp, "nowhere"),
    ]);
    let labels = program.generate_label_map();
    assert_eq!(lower(&program, &labels), Err(LowerError::OperandShapeMismatch { position: 0 }));
}

#[test]
fn register_out_of_range() {
    let program = Program(vec![ins(InstructionTypes::Mov, vec![Operand::Reg(1), Operand::Reg(4)])]);
    let labels = program.generate_label_map();
    assert_eq!(
        lower(&program, &labels),
        Err(LowerError::OperandOutOfRange { position: 0, operand: 1 })
    );
}

#[test]
fn address_out_of_range() {
    let program =
        Program(vec![ins(InstructionTypes::Mst, vec![Operand::Reg(0), Operand::Address(9)])]);
    let labels = program.generate_label_map();
    assert_eq!(
        lower(&program, &labels),
        Err(LowerError::OperandOutOfRange { position: 0, operand: 1 })
    );
}

#[test]
fn label_page_beyond_a_byte_is_out_of_range() {
    let mut items = Vec::new();
    for _ in 0..4096 {
        items.push(ldi(0, 0));
    }
    items.push(label("far"));
    items.push(brc(Condition::Jmp, "far"));
    let program = Program(items);
    let labels = program.generate_label_map();
    assert_eq!(labels.get(&"far".to_string()), Some(256));
    assert_eq!(
        lower(&program, &labels),
        Err(LowerError::OperandOutOfRange { position: 4097, operand: 1 })
    );
}

#[test]
fn lowering_twice_gives_identical_bytes() {
    let program = Program(vec![
        label("top"),
        ldi(2, 200),
        ins(InstructionTypes::Sub, vec![Operand::Reg(2), Operand::Reg(1)]),
        brc(Condition::Neq, "top"),
        brc(Condition::Jmp, "end"),
        label("end"),
        ins(InstructionTypes::Hlt, vec![]),
    ]);
    let labels = program.generate_label_map();
    let first = lower(&program, &labels);
    let second = lower(&program, &labels);
    assert!(first.is_ok());
    assert_eq!(first, second);
}

#[test]
fn counter_counts_immediates_and_labels_only() {
    let program = Program(vec![
        ins(InstructionTypes::Add, vec![Operand::Reg(0), Operand::Reg(1)]),
        ldi(3, 9),
        brc(Condition::Gt, "x"),
        label("x"),
        ins(InstructionTypes::Mld, vec![Operand::Reg(1), Operand::Address(3)]),
    ]);
    assert_eq!(program.byte_size(), Some(6));
    let labels = program.generate_label_map();
    let image = lower(&program, &labels).unwrap();
    assert_eq!(image.len(), 6);
    assert_eq!(image, vec![0x11, 0x73, 9, 0xA3, 0, 0x97]);
}

#[test]
fn every_declared_label_has_an_entry() {
    let program = Program(vec![
        label("a"),
        ldi(0, 1),
        label("b"),
        label("c"),
        ins(InstructionTypes::Hlt, vec![]),
    ]);
    let labels = program.generate_label_map();
    assert_eq!(labels.get(&"a".to_string()), Some(0));
    assert_eq!(labels.get(&"b".to_string()), Some(0));
    assert_eq!(labels.get(&"c".to_string()), Some(0));
    assert_eq!(labels.get(&"d".to_string()), None);
}

#[test]
fn duplicate_label_last_declaration_wins() {
    let mut items = vec![label("dup")];
    for _ in 0..20 {
        items.push(ldi(0, 0));
    }
    items.push(label("dup"));
    let labels = Program(items).generate_label_map();
    assert_eq!(labels.get(&"dup".to_string()), Some(1));
}

#[test]
fn label_at_end_gets_continuing_page() {
    let mut items = Vec::new();
    for _ in 0..32 {
        items.push(ins(InstructionTypes::Hlt, vec![]));
    }
    items.push(label("after"));
    let labels = Program(items).generate_label_map();
    assert_eq!(labels.get(&"after".to_string()), Some(1));
}

#[test]
fn empty_program_lowers_to_nothing() {
    let program = Program::new();
    assert_eq!(program.byte_size(), Some(0));
    let labels = program.generate_label_map();
    assert_eq!(lower(&program, &labels), Ok(vec![]));
}

#[test]
fn opcode_encodings() {
    let labels = LabelMap::new();
    let cases: Vec<(Instruction, Vec<u8>)> = vec![
        (Instruction { opcode: InstructionTypes::Hlt, operands: vec![] }, vec![0x00]),
        (
            Instruction { opcode: InstructionTypes::Add, operands: vec![Operand::Reg(1), Operand::Reg(2)] },
            vec![0x16],
        ),
        (
            Instruction { opcode: InstructionTypes::Nand, operands: vec![Operand::Reg(3), Operand::Reg(0)] },
            vec![0x5C],
        ),
        (
            Instruction { opcode: InstructionTypes::Mst, operands: vec![Operand::Reg(3), Operand::Address(2)] },
            vec![0x8E],
        ),
        (Instruction { opcode: InstructionTypes::Pst, operands: vec![Operand::Reg(2)] }, vec![0xB2]),
        (Instruction { opcode: InstructionTypes::Pld, operands: vec![Operand::Reg(1)] }, vec![0xC1]),
        (
            Instruction { opcode: InstructionTypes::Cmp, operands: vec![Operand::Reg(0), Operand::Reg(3)] },
            vec![0xD3],
        ),
        (
            Instruction { opcode: InstructionTypes::Mov, operands: vec![Operand::Reg(3), Operand::Reg(3)] },
            vec![0xEF],
        ),
        (
            Instruction { opcode: InstructionTypes::Ldi, operands: vec![Operand::Reg(2), Operand::Imm(255)] },
            vec![0x72, 255],
        ),
    ];
    for (i, expected) in cases {
        assert_eq!(lower_one(&i, 0, &labels), Ok(expected));
    }
}

#[test]
fn branch_to_forward_label() {
    let mut items = vec![brc(Condition::Even, "later")];
    for _ in 0..40 {
        items.push(ins(InstructionTypes::Hlt, vec![]));
    }
    items.push(label("later"));
    let program = Program(items);
    let labels = program.generate_label_map();
    let image = lower(&program, &labels).unwrap();
    assert_eq!(image[0], 0xA6);
    assert_eq!(image[1], 1);
}

#[test]
fn condition_from_str_ignores_case() {
    assert_eq!(Condition::from_str("JMP"), Some(Condition::Jmp));
    assert_eq!(Condition::from_str("Eq"), Some(Condition::Eq));
    assert_eq!(Condition::from_str("gteq"), Some(Condition::Gteq));
    assert_eq!(Condition::from_str("LtEq"), Some(Condition::Lteq));
    assert_eq!(Condition::from_str("EVEN"), Some(Condition::Even));
    assert_eq!(Condition::from_str("bogus"), None);
    assert_eq!(Condition::from_str(""), None);
}

#[test]
fn condition_from_lowercase_is_exact() {
    assert_eq!(Condition::from_lowercase("neq"), Some(Condition::Neq));
    assert_eq!(Condition::from_lowercase("gt"), Some(Condition::Gt));
    assert_eq!(Condition::from_lowercase("lt"), Some(Condition::Lt));
    assert_eq!(Condition::from_lowercase("NEQ"), None);
    assert_eq!(Condition::from_lowercase("ne"), None);
}

#[test]
fn operand_accessors() {
    let l = Operand::Label("x".to_string());
    assert_eq!(l.unwrap_label(), Some("x".to_string()));
    assert_eq!(l.unwrap_imm(), None);
    assert_eq!(Operand::Imm(7).unwrap_imm(), Some(7));
    assert_eq!(Operand::Reg(2).unwrap_reg(), Some(2));
    assert_eq!(Operand::Reg(2).unwrap_cond(), None);
    assert_eq!(Operand::Cond(Condition::Lt).unwrap_cond(), Some(Condition::Lt));
    assert_eq!(Operand::Address(1).unwrap_reg(), None);
}

#[test]
fn label_map_insert_replaces() {
    let mut m = LabelMap::new();
    m.insert("a".to_string(), 3);
    m.insert("b".to_string(), 4);
    m.insert("a".to_string(), 5);
    assert_eq!(m.get(&"a".to_string()), Some(5));
    assert_eq!(m.get(&"b".to_string()), Some(4));
    assert_eq!(m.get(&"c".to_string()), None);
}

#[test]
fn operand_text_forms() {
    assert_eq!(Operand::Reg(2).to_text(), "R2");
    assert_eq!(Operand::Imm(0).to_text(), "0");
    assert_eq!(Operand::Imm(7).to_text(), "7");
    assert_eq!(Operand::Imm(42).to_text(), "42");
    assert_eq!(Operand::Imm(255).to_text(), "255");
    assert_eq!(Operand::Imm(100).to_text(), "100");
    assert_eq!(Operand::Address(13).to_text(), "$13");
    assert_eq!(Operand::Cond(Condition::Gteq).to_text(), "GTEQ");
    assert_eq!(Operand::Cond(Condition::Jmp).to_text(), "JMP");
    assert_eq!(Operand::Label(".loop".to_string()).to_text(), "[loop]");
    assert_eq!(Operand::Label(".".to_string()).to_text(), "[]");
}

#[test]
fn checked_builder_accepts_distinct_labels() {
    let program = Program(vec![
        label("a"),
        ldi(0, 1),
        label("b"),
        brc(Condition::Jmp, "a"),
    ]);
    let labels = program.try_generate_label_map().unwrap();
    assert_eq!(labels.get(&"a".to_string()), Some(0));
    assert_eq!(labels.get(&"b".to_string()), Some(0));
}

#[test]
fn checked_builder_reports_duplicate_label() {
    let program = Program(vec![
        label("a"),
        ldi(0, 1),
        label("b"),
        label("a"),
        label("b"),
    ]);
    match program.try_generate_label_map() {
        Err(e) => assert_eq!(e, LabelError::DuplicateLabel { position: 3, label: "a".to_string() }),
        Ok(_) => panic!("duplicate label accepted"),
    }
}
