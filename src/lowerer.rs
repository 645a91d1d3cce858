use vstd::prelude::*;
use crate::ast::{
    counter_at, instruction_size, wide_count, Condition, Instruction, InstructionTypes, Operand,
    Program, ProgramBody,
};
use crate::label_map::LabelMap;

verus! {

/// Why a program could not be lowered. `position` is the index of the
/// offending item in the program body.
#[derive(Debug, Clone, PartialEq, Eq)]
pub enum LowerError {
    /// A label operand names a label that the map does not hold.
    UndefinedLabel { position: usize, label: String },
    /// The operands' count or kinds differ from what the opcode takes.
    OperandShapeMismatch { position: usize },
    /// Operand `operand` does not fit its field: a register or address of 4
    /// or more, or a label on a page above 255.
    OperandOutOfRange { position: usize, operand: usize },
}

#[derive(Debug, Clone, Copy, PartialEq, Eq, Structural)]
pub enum OperandKind {
    Label,
    Reg,
    Imm,
    Cond,
    Address,
}

pub open spec fn kind_of(o: Operand) -> OperandKind {
    match o {
        Operand::Label(_) => OperandKind::Label,
        Operand::Reg(_) => OperandKind::Reg,
        Operand::Imm(_) => OperandKind::Imm,
        Operand::Cond(_) => OperandKind::Cond,
        Operand::Address(_) => OperandKind::Address,
    }
}

pub fn operand_kind(o: &Operand) -> (r: OperandKind)
    ensures
        r == kind_of(*o),
{
    match o {
        Operand::Label(_) => OperandKind::Label,
        Operand::Reg(_) => OperandKind::Reg,
        Operand::Imm(_) => OperandKind::Imm,
        Operand::Cond(_) => OperandKind::Cond,
        Operand::Address(_) => OperandKind::Address,
    }
}

/// The operand kinds each opcode takes, in order: the one table that both
/// validation and encoding follow.
pub open spec fn shape_of(op: InstructionTypes) -> Seq<OperandKind> {
    match op {
        InstructionTypes::Hlt => seq![],
        InstructionTypes::Add | InstructionTypes::Sub | InstructionTypes::Or
        | InstructionTypes::And | InstructionTypes::Nand | InstructionTypes::Xor
        | InstructionTypes::Cmp | InstructionTypes::Mov => seq![OperandKind::Reg, OperandKind::Reg],
        InstructionTypes::Ldi => seq![OperandKind::Reg, OperandKind::Imm],
        InstructionTypes::Mst | InstructionTypes::Mld => seq![
            OperandKind::Reg,
            OperandKind::Address,
        ],
        InstructionTypes::Brc => seq![OperandKind::Cond, OperandKind::Label],
        InstructionTypes::Pst | InstructionTypes::Pld => seq![OperandKind::Reg],
    }
}

pub fn operand_shape(op: InstructionTypes) -> (r: Vec<OperandKind>)
    ensures
        r@ == shape_of(op),
{
    let mut v: Vec<OperandKind> = Vec::new();
    match op {
        InstructionTypes::Hlt => {},
        InstructionTypes::Add | InstructionTypes::Sub | InstructionTypes::Or
        | InstructionTypes::And | InstructionTypes::Nand | InstructionTypes::Xor
        | InstructionTypes::Cmp | InstructionTypes::Mov => {
            v.push(OperandKind::Reg);
            v.push(OperandKind::Reg);
        },
        InstructionTypes::Ldi => {
            v.push(OperandKind::Reg);
            v.push(OperandKind::Imm);
        },
        InstructionTypes::Mst | InstructionTypes::Mld => {
            v.push(OperandKind::Reg);
            v.push(OperandKind::Address);
        },
        InstructionTypes::Brc => {
            v.push(OperandKind::Cond);
            v.push(OperandKind::Label);
        },
        InstructionTypes::Pst | InstructionTypes::Pld => {
            v.push(OperandKind::Reg);
        },
    }
    assert(v@ =~= shape_of(op));
    v
}

/// Opcode numbers 0 to 14, in the order of declaration; they fill the
/// opcode byte's upper four bits.
pub open spec fn opcode_number(op: InstructionTypes) -> u8 {
    match op {
        InstructionTypes::Hlt => 0,
        InstructionTypes::Add => 1,
        InstructionTypes::Sub => 2,
        InstructionTypes::Or => 3,
        InstructionTypes::And => 4,
        InstructionTypes::Nand => 5,
        InstructionTypes::Xor => 6,
        InstructionTypes::Ldi => 7,
        InstructionTypes::Mst => 8,
        InstructionTypes::Mld => 9,
        InstructionTypes::Brc => 10,
        InstructionTypes::Pst => 11,
        InstructionTypes::Pld => 12,
        InstructionTypes::Cmp => 13,
        InstructionTypes::Mov => 14,
    }
}

pub fn opcode_byte(op: InstructionTypes) -> (r: u8)
    ensures
        r == opcode_number(op),
{
    match op {
        InstructionTypes::Hlt => 0,
        InstructionTypes::Add => 1,
        InstructionTypes::Sub => 2,
        InstructionTypes::Or => 3,
        InstructionTypes::And => 4,
        InstructionTypes::Nand => 5,
        InstructionTypes::Xor => 6,
        InstructionTypes::Ldi => 7,
        InstructionTypes::Mst => 8,
        InstructionTypes::Mld => 9,
        InstructionTypes::Brc => 10,
        InstructionTypes::Pst => 11,
        InstructionTypes::Pld => 12,
        InstructionTypes::Cmp => 13,
        InstructionTypes::Mov => 14,
    }
}

/// Condition codes 0 to 7, in the order of declaration.
pub open spec fn condition_number(c: Condition) -> u8 {
    match c {
        Condition::Eq => 0,
        Condition::Neq => 1,
        Condition::Lt => 2,
        Condition::Gt => 3,
        Condition::Gteq => 4,
        Condition::Lteq => 5,
        Condition::Even => 6,
        Condition::Jmp => 7,
    }
}

pub fn condition_code(c: Condition) -> (r: u8)
    ensures
        r == condition_number(c),
{
    match c {
        Condition::Eq => 0,
        Condition::Neq => 1,
        Condition::Lt => 2,
        Condition::Gt => 3,
        Condition::Gteq => 4,
        Condition::Lteq => 5,
        Condition::Even => 6,
        Condition::Jmp => 7,
    }
}

/// Number of values a packed operand's field holds (4 for a 2-bit register
/// or address, 8 for a 3-bit condition); 1 for a wide operand, which takes
/// no field.
pub open spec fn field_span(o: Operand) -> nat {
    match o {
        Operand::Reg(_) | Operand::Address(_) => 4,
        Operand::Cond(_) => 8,
        _ => 1,
    }
}

pub open spec fn field_value(o: Operand) -> nat {
    match o {
        Operand::Reg(r) => r as nat,
        Operand::Address(a) => a as nat,
        Operand::Cond(c) => condition_number(c) as nat,
        _ => 0,
    }
}

/// The opcode byte's lower bits after the first `n` operands: each packed
/// operand's field is appended below those before it.
pub open spec fn packed_field(ops: Seq<Operand>, n: int) -> nat
    decreases n,
{
    if n <= 0 {
        0
    } else {
        packed_field(ops, n - 1) * field_span(ops[n - 1]) + field_value(ops[n - 1])
    }
}

pub open spec fn shape_matches(ins: Instruction) -> bool {
    let ops = ins.operands@;
    let shape = shape_of(ins.opcode);
    &&& ops.len() == shape.len()
    &&& forall|i: int| 0 <= i < ops.len() ==> kind_of(#[trigger] ops[i]) == shape[i]
}

/// Operand `index` of the instruction at `position`: a range error, an
/// undefined label, or the bytes it adds after the opcode byte.
pub open spec fn operand_bytes(
    o: Operand,
    index: usize,
    position: usize,
    labels: Map<Seq<char>, nat>,
) -> Result<Seq<u8>, LowerError> {
    match o {
        Operand::Reg(v) | Operand::Address(v) => if v < 4 {
            Ok(seq![])
        } else {
            Err(LowerError::OperandOutOfRange { position, operand: index })
        },
        Operand::Cond(_) => Ok(seq![]),
        Operand::Imm(v) => Ok(seq![v]),
        Operand::Label(name) => if !labels.contains_key(name@) {
            Err(LowerError::UndefinedLabel { position, label: name })
        } else if labels[name@] > 255 {
            Err(LowerError::OperandOutOfRange { position, operand: index })
        } else {
            Ok(seq![labels[name@] as u8])
        },
    }
}

/// The first `n` operands in order: the first error, or their bytes.
pub open spec fn operands_upto(
    ops: Seq<Operand>,
    position: usize,
    labels: Map<Seq<char>, nat>,
    n: int,
) -> Result<Seq<u8>, LowerError>
    decreases n,
{
    if n <= 0 {
        Ok(seq![])
    } else {
        match operands_upto(ops, position, labels, n - 1) {
            Err(e) => Err(e),
            Ok(b) => match operand_bytes(ops[n - 1], (n - 1) as usize, position, labels) {
                Err(e) => Err(e),
                Ok(x) => Ok(b + x),
            },
        }
    }
}

/// One instruction: its shape is checked first, then its operands in order;
/// on success the opcode byte is followed by the wide operands' bytes.
pub open spec fn lower_instruction(
    ins: Instruction,
    position: usize,
    labels: Map<Seq<char>, nat>,
) -> Result<Seq<u8>, LowerError> {
    let ops = ins.operands@;
    if !shape_matches(ins) {
        Err(LowerError::OperandShapeMismatch { position })
    } else {
        match operands_upto(ops, position, labels, ops.len() as int) {
            Err(e) => Err(e),
            Ok(tail) => Ok(
                seq![(opcode_number(ins.opcode) * 16 + packed_field(ops, ops.len() as int)) as u8]
                    + tail,
            ),
        }
    }
}

/// The first `n` items: the first error, or the image they lower to.
/// Label declarations emit nothing.
pub open spec fn lower_upto(
    items: Seq<ProgramBody>,
    labels: Map<Seq<char>, nat>,
    n: int,
) -> Result<Seq<u8>, LowerError>
    decreases n,
{
    if n <= 0 {
        Ok(seq![])
    } else {
        match lower_upto(items, labels, n - 1) {
            Err(e) => Err(e),
            Ok(b) => match items[n - 1] {
                ProgramBody::Label(_) => Ok(b),
                ProgramBody::Instruction(ins) => match lower_instruction(
                    ins,
                    (n - 1) as usize,
                    labels,
                ) {
                    Err(e) => Err(e),
                    Ok(x) => Ok(b + x),
                },
            },
        }
    }
}

pub open spec fn lower_program(items: Seq<ProgramBody>, labels: Map<Seq<char>, nat>) -> Result<
    Seq<u8>,
    LowerError,
> {
    lower_upto(items, labels, items.len() as int)
}

/// An executable result agrees with a specified one.
pub open spec fn result_is(r: Result<Vec<u8>, LowerError>, s: Result<Seq<u8>, LowerError>) -> bool {
    match (r, s) {
        (Ok(b), Ok(t)) => b@ == t,
        (Err(e), Err(f)) => e == f,
        _ => false,
    }
}

/// Once the operands up to `m` have failed, later operands change nothing.
proof fn lemma_operand_error_persists(
    ops: Seq<Operand>,
    position: usize,
    labels: Map<Seq<char>, nat>,
    m: int,
    n: int,
)
    requires
        0 <= m <= n,
        operands_upto(ops, position, labels, m) is Err,
    ensures
        operands_upto(ops, position, labels, n) == operands_upto(ops, position, labels, m),
    decreases n - m,
{
    if m < n {
        lemma_operand_error_persists(ops, position, labels, m, n - 1);
    }
}

/// The packed field of an instruction whose shape matches and whose
/// operands are in range fits the opcode byte's lower four bits.
proof fn lemma_packed_field_fits(ins: Instruction, position: usize, labels: Map<Seq<char>, nat>)
    requires
        shape_matches(ins),
        operands_upto(ins.operands@, position, labels, ins.operands@.len() as int) is Ok,
    ensures
        packed_field(ins.operands@, ins.operands@.len() as int) < 16,
{
    let ops = ins.operands@;
    let n = ops.len() as int;
    if n >= 1 {
        if operands_upto(ops, position, labels, 1) is Err {
            lemma_operand_error_persists(ops, position, labels, 1, n);
        }
        assert(kind_of(ops[0]) == shape_of(ins.opcode)[0]);
        assert(field_value(ops[0]) < field_span(ops[0]));
    }
    if n == 2 {
        assert(kind_of(ops[1]) == shape_of(ins.opcode)[1]);
        assert(field_value(ops[1]) < field_span(ops[1]));
        let a = field_value(ops[0]);
        let s = field_span(ops[1]);
        let b = field_value(ops[1]);
        assert(packed_field(ops, 0) == 0);
        assert(packed_field(ops, 1) == a);
        if s == 4 {
            assert(a < 4);
            assert(a * s + b < 16) by (nonlinear_arith)
                requires
                    a < 4,
                    s == 4,
                    b < 4,
            ;
        } else {
            assert(s == 1);
            assert(b == 0);
        }
    }
}

/// Lowers one instruction standing at `position` of the program body.
pub fn lower_one(ins: &Instruction, position: usize, labels: &LabelMap) -> (r: Result<
    Vec<u8>,
    LowerError,
>)
    ensures
        result_is(r, lower_instruction(*ins, position, labels@)),
{
    let ops = &ins.operands;
    let shape = operand_shape(ins.opcode);
    if ops.len() != shape.len() {
        return Err(LowerError::OperandShapeMismatch { position });
    }
    let mut i: usize = 0;
    while i < ops.len()
        invariant
            ops@ == ins.operands@,
            shape@ == shape_of(ins.opcode),
            ops@.len() == shape@.len(),
            i <= ops@.len(),
            forall|k: int| 0 <= k < i ==> kind_of(#[trigger] ops@[k]) == shape@[k],
        decreases ops@.len() - i,
    {
        if operand_kind(&ops[i]) != shape[i] {
            return Err(LowerError::OperandShapeMismatch { position });
        }
        i = i + 1;
    }
    assert(shape_matches(*ins));
    assert(ops@.len() <= 2);
    let mut field: u64 = 0;
    let mut tail: Vec<u8> = Vec::new();
    let mut j: usize = 0;
    while j < ops.len()
        invariant
            ops@ == ins.operands@,
            shape_matches(*ins),
            ops@.len() <= 2,
            j <= ops@.len(),
            operands_upto(ops@, position, labels@, j as int) == Ok::<Seq<u8>, LowerError>(tail@),
            field as nat == packed_field(ops@, j as int),
            j == 0 ==> field == 0,
            j <= 1 ==> field < 8,
            field < 64,
        decreases ops@.len() - j,
    {
        let ghost before = field;
        match &ops[j] {
            Operand::Reg(v) | Operand::Address(v) => {
                if *v >= 4 {
                    proof {
                        lemma_operand_error_persists(ops@, position, labels@, j + 1, ops@.len() as int);
                    }
                    return Err(LowerError::OperandOutOfRange { position, operand: j });
                }
                field = field * 4 + *v as u64;
            },
            Operand::Cond(c) => {
                field = field * 8 + condition_code(*c) as u64;
            },
            Operand::Imm(v) => {
                tail.push(*v);
            },
            Operand::Label(name) => {
                match labels.get(name) {
                    None => {
                        proof {
                            lemma_operand_error_persists(ops@, position, labels@, j + 1, ops@.len() as int);
                        }
                        return Err(LowerError::UndefinedLabel { position, label: name.clone() });
                    },
                    Some(page) => {
                        if page > 255 {
                            proof {
                                lemma_operand_error_persists(ops@, position, labels@, j + 1, ops@.len() as int);
                            }
                            return Err(LowerError::OperandOutOfRange { position, operand: j });
                        }
                        tail.push(page as u8);
                    },
                }
            },
        }
        proof {
            let sp = field_span(ops@[j as int]);
            assert(packed_field(ops@, j + 1) == before * sp + field_value(ops@[j as int]));
            assert(sp == 1 ==> before * sp == before);
            assert(before < 8 ==> before * 8 + 7 < 64) by (nonlinear_arith);
        }
        j = j + 1;
    }
    proof {
        lemma_packed_field_fits(*ins, position, labels@);
    }
    let mut out: Vec<u8> = Vec::new();
    out.push(opcode_byte(ins.opcode) * 16 + field as u8);
    out.append(&mut tail);
    Ok(out)
}

/// Lowers a whole program against its label map: the image of the
/// instructions in order, or the first error met.
pub fn lower(program: &Program, labels: &LabelMap) -> (r: Result<Vec<u8>, LowerError>)
    ensures
        result_is(r, lower_program(program.0@, labels@)),
{
    let items = &program.0;
    let mut out: Vec<u8> = Vec::new();
    let mut i: usize = 0;
    while i < items.len()
        invariant
            items@ == program.0@,
            i <= items@.len(),
            lower_upto(items@, labels@, i as int) == Ok::<Seq<u8>, LowerError>(out@),
        decreases items@.len() - i,
    {
        match &items[i] {
            ProgramBody::Label(_) => {},
            ProgramBody::Instruction(ins) => {
                match lower_one(ins, i, labels) {
                    Err(e) => {
                        proof {
                            lemma_error_persists(items@, labels@, i + 1, items@.len() as int);
                        }
                        return Err(e);
                    },
                    Ok(mut bytes) => {
                        out.append(&mut bytes);
                    },
                }
            },
        }
        i = i + 1;
    }
    Ok(out)
}

/// Once the items up to `m` have failed, later items change nothing.
pub proof fn lemma_error_persists(items: Seq<ProgramBody>, labels: Map<Seq<char>, nat>, m: int, n: int)
    requires
        0 <= m <= n,
        lower_upto(items, labels, m) is Err,
    ensures
        lower_upto(items, labels, n) == lower_upto(items, labels, m),
    decreases n - m,
{
    if m < n {
        lemma_error_persists(items, labels, m, n - 1);
    }
}

proof fn lemma_operands_size(ops: Seq<Operand>, position: usize, labels: Map<Seq<char>, nat>, n: int)
    requires
        0 <= n <= ops.len(),
        operands_upto(ops, position, labels, n) is Ok,
    ensures
        operands_upto(ops, position, labels, n)->Ok_0.len() == wide_count(ops, n),
    decreases n,
{
    if n > 0 {
        lemma_operands_size(ops, position, labels, n - 1);
    }
}

/// A lowered instruction takes one byte for its opcode and one for each
/// immediate or label operand: the size the label map builder counts.
pub proof fn lemma_instruction_bytes(ins: Instruction, position: usize, labels: Map<Seq<char>, nat>)
    requires
        lower_instruction(ins, position, labels) is Ok,
    ensures
        lower_instruction(ins, position, labels)->Ok_0.len() == instruction_size(ins),
{
    lemma_operands_size(ins.operands@, position, labels, ins.operands@.len() as int);
}

/// Where a program lowers, the image of the items before each item has
/// exactly as many bytes as the builder's counter there; so a label's page
/// is the page where the next instruction's bytes land.
pub proof fn lemma_image_matches_counter(items: Seq<ProgramBody>, labels: Map<Seq<char>, nat>, n: int)
    requires
        0 <= n <= items.len(),
        lower_program(items, labels) is Ok,
    ensures
        lower_upto(items, labels, n) is Ok,
        lower_upto(items, labels, n)->Ok_0.len() == counter_at(items, n),
    decreases n,
{
    if lower_upto(items, labels, n) is Err {
        lemma_error_persists(items, labels, n, items.len() as int);
    }
    if n > 0 {
        lemma_image_matches_counter(items, labels, n - 1);
        if let ProgramBody::Instruction(ins) = items[n - 1] {
            lemma_instruction_bytes(ins, (n - 1) as usize, labels);
        }
    }
}

/// An instruction whose operands fit its opcode but whose label operand
/// names a label missing from the map makes lowering fail with
/// `UndefinedLabel`, naming that label and the instruction's position,
/// unless an earlier item has already failed.
pub proof fn lemma_undefined_label_reported(
    items: Seq<ProgramBody>,
    labels: Map<Seq<char>, nat>,
    p: int,
    j: int,
)
    requires
        0 <= p < items.len(),
        lower_upto(items, labels, p) is Ok,
        items[p] is Instruction,
        shape_matches(items[p]->Instruction_0),
        0 <= j < items[p]->Instruction_0.operands@.len(),
        items[p]->Instruction_0.operands@[j] is Label,
        !labels.contains_key(items[p]->Instruction_0.operands@[j]->Label_0@),
    ensures
        lower_program(items, labels) == Err::<Seq<u8>, LowerError>(
            LowerError::UndefinedLabel {
                position: p as usize,
                label: items[p]->Instruction_0.operands@[j]->Label_0,
            },
        ),
{
    let ins = items[p]->Instruction_0;
    let ops = ins.operands@;
    let name = ops[j]->Label_0;
    assert(kind_of(ops[j]) == shape_of(ins.opcode)[j]);
    assert(ins.opcode == InstructionTypes::Brc && j == 1);
    assert(kind_of(ops[0]) == shape_of(ins.opcode)[0]);
    assert(ops[0] is Cond);
    assert(operand_bytes(ops[0], 0usize, p as usize, labels) is Ok);
    assert(operands_upto(ops, p as usize, labels, 0) is Ok);
    assert(operands_upto(ops, p as usize, labels, 1) is Ok);
    let e = LowerError::UndefinedLabel { position: p as usize, label: name };
    assert(operands_upto(ops, p as usize, labels, 2) == Err::<Seq<u8>, LowerError>(e));
    assert(lower_upto(items, labels, p + 1) == Err::<Seq<u8>, LowerError>(e));
    lemma_error_persists(items, labels, p + 1, items.len() as int);
}

/// An instruction with more or fewer operands than its opcode takes makes
/// lowering fail with `OperandShapeMismatch` at its position, unless an
/// earlier item has already failed.
pub proof fn lemma_wrong_arity_reported(items: Seq<ProgramBody>, labels: Map<Seq<char>, nat>, p: int)
    requires
        0 <= p < items.len(),
        lower_upto(items, labels, p) is Ok,
        items[p] is Instruction,
        items[p]->Instruction_0.operands@.len() != shape_of(items[p]->Instruction_0.opcode).len(),
    ensures
        lower_program(items, labels) == Err::<Seq<u8>, LowerError>(
            LowerError::OperandShapeMismatch { position: p as usize },
        ),
{
    assert(lower_upto(items, labels, p + 1) == Err::<Seq<u8>, LowerError>(
        LowerError::OperandShapeMismatch { position: p as usize },
    ));
    lemma_error_persists(items, labels, p + 1, items.len() as int);
}

/// Two lowerings of the same program against the same label map agree:
/// both succeed with the same bytes, or both fail with the same error.
pub proof fn lemma_lowering_repeatable(
    items: Seq<ProgramBody>,
    labels: Map<Seq<char>, nat>,
    r1: Result<Vec<u8>, LowerError>,
    r2: Result<Vec<u8>, LowerError>,
)
    requires
        result_is(r1, lower_program(items, labels)),
        result_is(r2, lower_program(items, labels)),
    ensures
        r1 is Ok <==> r2 is Ok,
        r1 is Ok ==> r1->Ok_0@ == r2->Ok_0@,
        r1 is Err ==> r1->Err_0 == r2->Err_0,
{
}

} // verus!
