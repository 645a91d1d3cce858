use vstd::prelude::*;
use crate::label_map::LabelMap;

verus! {

/// The fifteen operations of the instruction set.
#[derive(Debug, Clone, Copy, PartialEq, Eq, Structural)]
pub enum InstructionTypes {
    Hlt,
    Add,
    Sub,
    Or,
    And,
    Nand,
    Xor,
    Ldi,
    Mst,
    Mld,
    Brc,
    Pst,
    Pld,
    Cmp,
    Mov,
}

#[derive(Debug, Clone)]
pub struct Instruction {
    pub opcode: InstructionTypes,
    pub operands: Vec<Operand>,
}

/// Branch conditions; each fits a 3-bit field.
#[derive(Debug, Clone, Copy, PartialEq, Eq, Structural)]
pub enum Condition {
    Eq,
    Neq,
    Lt,
    Gt,
    Gteq,
    Lteq,
    Even,
    Jmp,
}

/// The condition written as `s`, compared exactly (lower case).
pub open spec fn condition_named(s: Seq<char>) -> Option<Condition> {
    if s == "eq"@ {
        Some(Condition::Eq)
    } else if s == "neq"@ {
        Some(Condition::Neq)
    } else if s == "lt"@ {
        Some(Condition::Lt)
    } else if s == "gt"@ {
        Some(Condition::Gt)
    } else if s == "gteq"@ {
        Some(Condition::Gteq)
    } else if s == "lteq"@ {
        Some(Condition::Lteq)
    } else if s == "even"@ {
        Some(Condition::Even)
    } else if s == "jmp"@ {
        Some(Condition::Jmp)
    } else {
        None
    }
}

/// What `str::to_lowercase` returns for a string; it depends on the
/// characters alone.
pub uninterp spec fn lower_of(s: Seq<char>) -> Seq<char>;

/// Relies on `str::to_lowercase`: the lower-case form of `s`, a function of
/// its characters.
#[verifier::external_body]
fn lowercase(s: &str) -> (r: String)
    ensures
        r@ == lower_of(s@),
{
    s.to_lowercase()
}

/// Character-wise equality of two strings.
fn str_eq(a: &str, b: &str) -> (r: bool)
    ensures
        r == (a@ == b@),
{
    let n = a.unicode_len();
    if n != b.unicode_len() {
        return false;
    }
    let mut i: usize = 0;
    while i < n
        invariant
            n == a@.len(),
            n == b@.len(),
            i <= n,
            forall|j: int| 0 <= j < i ==> a@[j] == b@[j],
        decreases n - i,
    {
        if a.get_char(i) != b.get_char(i) {
            return false;
        }
        i = i + 1;
    }
    assert(a@ =~= b@);
    true
}

impl Condition {
    /// Parses a condition name already in lower case.
    pub fn from_lowercase(s: &str) -> (r: Option<Condition>)
        ensures
            r == condition_named(s@),
    {
        if str_eq(s, "eq") {
            Some(Condition::Eq)
        } else if str_eq(s, "neq") {
            Some(Condition::Neq)
        } else if str_eq(s, "lt") {
            Some(Condition::Lt)
        } else if str_eq(s, "gt") {
            Some(Condition::Gt)
        } else if str_eq(s, "gteq") {
            Some(Condition::Gteq)
        } else if str_eq(s, "lteq") {
            Some(Condition::Lteq)
        } else if str_eq(s, "even") {
            Some(Condition::Even)
        } else if str_eq(s, "jmp") {
            Some(Condition::Jmp)
        } else {
            None
        }
    }

    /// Parses a condition name in any letter case; `None` for an unknown name.
    pub fn from_str(s: &str) -> (r: Option<Condition>)
        ensures
            r == condition_named(lower_of(s@)),
    {
        let lower = lowercase(s);
        Condition::from_lowercase(lower.as_str())
    }
}

#[derive(Debug, Clone, PartialEq, Eq)]
pub enum Operand {
    Label(String),
    Reg(u8),
    Imm(u8),
    Cond(Condition),
    Address(u8),
}

impl Operand {
    /// An operand that takes a byte of its own after the opcode byte.
    pub open spec fn is_wide(&self) -> bool {
        self is Imm || self is Label
    }

    pub fn unwrap_label(&self) -> (r: Option<String>)
        ensures
            match self {
                Operand::Label(l) => r == Some(*l),
                _ => r is None,
            },
    {
        match self {
            Operand::Label(l) => Some(l.clone()),
            _ => None,
        }
    }

    pub fn unwrap_imm(&self) -> (r: Option<u8>)
        ensures
            match self {
                Operand::Imm(i) => r == Some(*i),
                _ => r is None,
            },
    {
        match self {
            Operand::Imm(i) => Some(*i),
            _ => None,
        }
    }

    pub fn unwrap_reg(&self) -> (r: Option<u8>)
        ensures
            match self {
                Operand::Reg(i) => r == Some(*i),
                _ => r is None,
            },
    {
        match self {
            Operand::Reg(i) => Some(*i),
            _ => None,
        }
    }

    pub fn unwrap_cond(&self) -> (r: Option<Condition>)
        ensures
            match self {
                Operand::Cond(c) => r == Some(*c),
                _ => r is None,
            },
    {
        match self {
            Operand::Cond(c) => Some(*c),
            _ => None,
        }
    }
}

pub open spec fn digit_char(d: nat) -> char {
    if d == 0 {
        '0'
    } else if d == 1 {
        '1'
    } else if d == 2 {
        '2'
    } else if d == 3 {
        '3'
    } else if d == 4 {
        '4'
    } else if d == 5 {
        '5'
    } else if d == 6 {
        '6'
    } else if d == 7 {
        '7'
    } else if d == 8 {
        '8'
    } else {
        '9'
    }
}

/// Decimal digits of `n`, without leading zeros.
pub open spec fn decimal_of(n: nat) -> Seq<char>
    decreases n,
{
    if n < 10 {
        seq![digit_char(n)]
    } else {
        decimal_of(n / 10) + seq![digit_char(n % 10)]
    }
}

fn append_digit(s: &mut String, d: u8)
    requires
        d < 10,
    ensures
        final(s)@ == old(s)@ + seq![digit_char(d as nat)],
{
    let t = match d {
        0 => "0",
        1 => "1",
        2 => "2",
        3 => "3",
        4 => "4",
        5 => "5",
        6 => "6",
        7 => "7",
        8 => "8",
        _ => "9",
    };
    proof {
        reveal_strlit("0");
        reveal_strlit("1");
        reveal_strlit("2");
        reveal_strlit("3");
        reveal_strlit("4");
        reveal_strlit("5");
        reveal_strlit("6");
        reveal_strlit("7");
        reveal_strlit("8");
        reveal_strlit("9");
        assert(t@ =~= seq![digit_char(d as nat)]);
    }
    s.append(t);
}

fn append_decimal(s: &mut String, n: u8)
    ensures
        final(s)@ == old(s)@ + decimal_of(n as nat),
{
    let ghost start = s@;
    let ghost v = n as nat;
    if n >= 100 {
        append_digit(s, n / 100);
        append_digit(s, n / 10 % 10);
        append_digit(s, n % 10);
        assert(decimal_of(v / 100) == seq![digit_char(v / 100)]);
        assert(decimal_of(v / 10) == decimal_of(v / 10 / 10) + seq![digit_char(v / 10 % 10)]);
        assert(v / 10 / 10 == v / 100);
        assert(decimal_of(v) == decimal_of(v / 10) + seq![digit_char(v % 10)]);
    } else if n >= 10 {
        append_digit(s, n / 10);
        append_digit(s, n % 10);
        assert(decimal_of(v / 10) == seq![digit_char(v / 10)]);
        assert(decimal_of(v) == decimal_of(v / 10) + seq![digit_char(v % 10)]);
    } else {
        append_digit(s, n);
    }
    assert(s@ =~= start + decimal_of(n as nat));
}

/// Upper-case assembly name of a condition.
pub open spec fn condition_text(c: Condition) -> Seq<char> {
    match c {
        Condition::Eq => "EQ"@,
        Condition::Neq => "NEQ"@,
        Condition::Lt => "LT"@,
        Condition::Gt => "GT"@,
        Condition::Gteq => "GTEQ"@,
        Condition::Lteq => "LTEQ"@,
        Condition::Even => "EVEN"@,
        Condition::Jmp => "JMP"@,
    }
}

/// Assembly text of an operand: `R2`, `17`, `JMP`, `$3`, and a label
/// (whose stored name starts with one marker character) as `[name]`.
pub open spec fn operand_text(o: Operand) -> Seq<char> {
    match o {
        Operand::Address(a) => "$"@ + decimal_of(a as nat),
        Operand::Cond(c) => condition_text(c),
        Operand::Imm(i) => decimal_of(i as nat),
        Operand::Label(l) => "["@ + l@.subrange(1, l@.len() as int) + "]"@,
        Operand::Reg(r) => "R"@ + decimal_of(r as nat),
    }
}

impl Operand {
    /// The operand as written in assembly source.
    pub fn to_text(&self) -> (r: String)
        requires
            self is Label ==> self->Label_0@.len() > 0,
        ensures
            r@ == operand_text(*self),
    {
        match self {
            Operand::Address(a) => {
                let mut s = "$".to_owned();
                append_decimal(&mut s, *a);
                s
            },
            Operand::Cond(c) => {
                let t = match c {
                    Condition::Eq => "EQ",
                    Condition::Neq => "NEQ",
                    Condition::Lt => "LT",
                    Condition::Gt => "GT",
                    Condition::Gteq => "GTEQ",
                    Condition::Lteq => "LTEQ",
                    Condition::Even => "EVEN",
                    Condition::Jmp => "JMP",
                };
                t.to_owned()
            },
            Operand::Imm(i) => {
                let mut s = String::new();
                append_decimal(&mut s, *i);
                assert(s@ =~= decimal_of(*i as nat));
                s
            },
            Operand::Label(l) => {
                let name = l.as_str();
                let rest = name.substring_char(1, name.unicode_len());
                let mut s = "[".to_owned();
                s.append(rest);
                s.append("]");
                s
            },
            Operand::Reg(r) => {
                let mut s = "R".to_owned();
                append_decimal(&mut s, *r);
                s
            },
        }
    }
}

#[derive(Debug, Clone)]
pub enum ProgramBody {
    Label(String),
    Instruction(Instruction),
}

#[derive(Debug, Clone)]
pub struct Program(pub Vec<ProgramBody>);

/// Number of wide (immediate or label) operands among the first `n`.
pub open spec fn wide_count(ops: Seq<Operand>, n: int) -> nat
    decreases n,
{
    if n <= 0 {
        0
    } else {
        wide_count(ops, n - 1) + if ops[n - 1].is_wide() {
            1nat
        } else {
            0nat
        }
    }
}

/// Bytes an instruction occupies: its opcode byte and one per wide operand.
pub open spec fn instruction_size(ins: Instruction) -> nat {
    1 + wide_count(ins.operands@, ins.operands@.len() as int)
}

pub open spec fn body_size(b: ProgramBody) -> nat {
    match b {
        ProgramBody::Label(_) => 0,
        ProgramBody::Instruction(ins) => instruction_size(ins),
    }
}

/// The program counter before item `n`: the bytes taken by the items before it.
pub open spec fn counter_at(items: Seq<ProgramBody>, n: int) -> nat
    decreases n,
{
    if n <= 0 {
        0
    } else {
        counter_at(items, n - 1) + body_size(items[n - 1])
    }
}

pub open spec fn program_size(items: Seq<ProgramBody>) -> nat {
    counter_at(items, items.len() as int)
}

/// Page of a byte offset: labels resolve to 32-byte pages.
pub open spec fn page_of(offset: nat) -> nat {
    offset / 32
}

/// The label map after the first `n` items: each declaration binds its name
/// to the page of the counter at that point, later declarations win.
pub open spec fn labels_upto(items: Seq<ProgramBody>, n: int) -> Map<Seq<char>, nat>
    decreases n,
{
    if n <= 0 {
        Map::empty()
    } else {
        let m = labels_upto(items, n - 1);
        match items[n - 1] {
            ProgramBody::Label(name) => m.insert(name@, page_of(counter_at(items, n - 1))),
            ProgramBody::Instruction(_) => m,
        }
    }
}

pub open spec fn label_map_of(items: Seq<ProgramBody>) -> Map<Seq<char>, nat> {
    labels_upto(items, items.len() as int)
}

pub proof fn lemma_wide_count_monotone(ops: Seq<Operand>, i: int, n: int)
    requires
        0 <= i <= n,
    ensures
        wide_count(ops, i) <= wide_count(ops, n),
    decreases n - i,
{
    if i < n {
        lemma_wide_count_monotone(ops, i, n - 1);
    }
}

pub proof fn lemma_counter_monotone(items: Seq<ProgramBody>, i: int, n: int)
    requires
        0 <= i <= n,
    ensures
        counter_at(items, i) <= counter_at(items, n),
    decreases n - i,
{
    if i < n {
        lemma_counter_monotone(items, i, n - 1);
    }
}

/// The wide operands among the first `n`, counted by a filter.
proof fn lemma_wide_count_is_filter(ops: Seq<Operand>, n: int)
    requires
        0 <= n <= ops.len(),
    ensures
        wide_count(ops, n) == ops.take(n).filter(|o: Operand| o.is_wide()).len(),
    decreases n,
{
    reveal(Seq::filter);
    let pred = |o: Operand| o.is_wide();
    if n > 0 {
        lemma_wide_count_is_filter(ops, n - 1);
        let t = ops.take(n);
        assert(t.drop_last() =~= ops.take(n - 1));
        assert(t.last() == ops[n - 1]);
        let sub = t.drop_last().filter(pred);
        assert(t.filter(pred) == if pred(t.last()) {
            sub.push(t.last())
        } else {
            sub
        });
    } else {
        assert(ops.take(n).filter(pred).len() == 0);
    }
}

/// Stepping over an instruction advances the program counter by one byte for
/// the opcode and one for each immediate or label operand; registers,
/// conditions and addresses add nothing.
pub proof fn lemma_counter_step(items: Seq<ProgramBody>, n: int)
    requires
        0 <= n < items.len(),
        items[n] is Instruction,
    ensures
        counter_at(items, n + 1) == counter_at(items, n) + 1 + items[n]->Instruction_0.operands@.filter(
            |o: Operand| o.is_wide(),
        ).len(),
{
    let ops = items[n]->Instruction_0.operands@;
    lemma_wide_count_is_filter(ops, ops.len() as int);
    assert(ops.take(ops.len() as int) =~= ops);
}

/// Some item among the first `n` declares the label `k`.
pub open spec fn declared_upto(items: Seq<ProgramBody>, n: int, k: Seq<char>) -> bool {
    exists|i: int| 0 <= i < n && #[trigger] items[i] is Label && items[i]->Label_0@ == k
}

/// Number of label declarations among the first `n` items.
pub open spec fn label_count(items: Seq<ProgramBody>, n: int) -> nat
    decreases n,
{
    if n <= 0 {
        0
    } else {
        label_count(items, n - 1) + if items[n - 1] is Label {
            1nat
        } else {
            0nat
        }
    }
}

/// No label name is declared twice.
pub open spec fn labels_distinct(items: Seq<ProgramBody>) -> bool {
    forall|i: int, j: int|
        0 <= i < j < items.len() && #[trigger] items[i] is Label && #[trigger] items[j] is Label
            ==> items[i]->Label_0@ != items[j]->Label_0@
}

proof fn lemma_labels_upto_entries(items: Seq<ProgramBody>, n: int)
    requires
        0 <= n <= items.len(),
    ensures
        labels_upto(items, n).dom().finite(),
        forall|k: Seq<char>| #[trigger]
            labels_upto(items, n).contains_key(k) <==> declared_upto(items, n, k),
        labels_distinct(items) ==> labels_upto(items, n).dom().len() == label_count(items, n),
    decreases n,
{
    if n > 0 {
        lemma_labels_upto_entries(items, n - 1);
        let prev = labels_upto(items, n - 1);
        assert forall|k: Seq<char>| #[trigger]
            labels_upto(items, n).contains_key(k) <==> declared_upto(items, n, k) by {
            if declared_upto(items, n, k) {
                let i = choose|i: int|
                    0 <= i < n && #[trigger] items[i] is Label && items[i]->Label_0@ == k;
                if i < n - 1 {
                    assert(declared_upto(items, n - 1, k));
                }
            }
            if declared_upto(items, n - 1, k) {
                let i = choose|i: int|
                    0 <= i < n - 1 && #[trigger] items[i] is Label && items[i]->Label_0@ == k;
                assert(0 <= i < n && items[i] is Label && items[i]->Label_0@ == k);
            }
            if items[n - 1] is Label && items[n - 1]->Label_0@ == k {
                assert(0 <= n - 1 < n && items[n - 1] is Label);
            }
        }
        if labels_distinct(items) && items[n - 1] is Label {
            let name = items[n - 1]->Label_0@;
            if prev.contains_key(name) {
                let i = choose|i: int|
                    0 <= i < n - 1 && #[trigger] items[i] is Label && items[i]->Label_0@ == name;
                assert(items[i]->Label_0@ != items[n - 1]->Label_0@);
            }
        }
    }
}

/// Every declared label, and nothing else, has an entry in the label map;
/// where no name is declared twice, the map holds exactly one entry per
/// label declaration.
pub proof fn lemma_label_map_entries(items: Seq<ProgramBody>)
    ensures
        label_map_of(items).dom().finite(),
        forall|k: Seq<char>| #[trigger]
            label_map_of(items).contains_key(k) <==> declared_upto(items, items.len() as int, k),
        labels_distinct(items) ==> label_map_of(items).dom().len() == label_count(
            items,
            items.len() as int,
        ),
{
    lemma_labels_upto_entries(items, items.len() as int);
}

/// Position of the first label declaration among the first `n` items whose
/// name an earlier item already declared.
pub open spec fn first_duplicate(items: Seq<ProgramBody>, n: int) -> Option<int>
    decreases n,
{
    if n <= 0 {
        None
    } else {
        match first_duplicate(items, n - 1) {
            Some(p) => Some(p),
            None => if items[n - 1] is Label && declared_upto(
                items,
                n - 1,
                items[n - 1]->Label_0@,
            ) {
                Some(n - 1)
            } else {
                None
            },
        }
    }
}

/// A program has a repeated label declaration exactly when its label names
/// are not distinct.
pub proof fn lemma_first_duplicate_iff(items: Seq<ProgramBody>)
    ensures
        first_duplicate(items, items.len() as int) is None <==> labels_distinct(items),
{
    lemma_first_duplicate_upto(items, items.len() as int);
}

proof fn lemma_first_duplicate_upto(items: Seq<ProgramBody>, n: int)
    requires
        0 <= n <= items.len(),
    ensures
        first_duplicate(items, n) is None <==> forall|i: int, j: int|
            0 <= i < j < n && #[trigger] items[i] is Label && #[trigger] items[j] is Label
                ==> items[i]->Label_0@ != items[j]->Label_0@,
    decreases n,
{
    if n > 0 {
        lemma_first_duplicate_upto(items, n - 1);
        if first_duplicate(items, n) is Some && first_duplicate(items, n - 1) is None {
            let k = items[n - 1]->Label_0@;
            let i = choose|i: int| 0 <= i < n - 1 && #[trigger] items[i] is Label && items[i]->Label_0@ == k;
            assert(items[i] is Label && items[n - 1] is Label);
        }
        if first_duplicate(items, n) is None {
            assert forall|i: int, j: int|
                0 <= i < j < n && #[trigger] items[i] is Label && #[trigger] items[j] is Label
                    implies items[i]->Label_0@ != items[j]->Label_0@ by {
                if j == n - 1 && items[i]->Label_0@ == items[j]->Label_0@ {
                    assert(declared_upto(items, n - 1, items[n - 1]->Label_0@));
                }
            }
        }
    }
}

proof fn lemma_first_duplicate_persists(items: Seq<ProgramBody>, m: int, n: int)
    requires
        0 <= m <= n,
        first_duplicate(items, m) is Some,
    ensures
        first_duplicate(items, n) == first_duplicate(items, m),
    decreases n - m,
{
    if m < n {
        lemma_first_duplicate_persists(items, m, n - 1);
    }
}

/// Why a label map could not be built.
#[derive(Debug, Clone, PartialEq, Eq)]
pub enum LabelError {
    /// The declaration at `position` repeats an earlier label's name.
    DuplicateLabel { position: usize, label: String },
}

impl Program {
    pub fn new() -> (r: Program)
        ensures
            r.0@.len() == 0,
    {
        Program(Vec::new())
    }

    /// Size in bytes of the program's image; `None` where it exceeds `usize`.
    pub fn byte_size(&self) -> (r: Option<usize>)
        ensures
            match r {
                Some(n) => n as nat == program_size(self.0@),
                None => program_size(self.0@) > usize::MAX,
            },
    {
        let items = &self.0;
        let mut pc: usize = 0;
        let mut i: usize = 0;
        while i < items.len()
            invariant
                items@ == self.0@,
                i <= items@.len(),
                pc as nat == counter_at(items@, i as int),
            decreases items@.len() - i,
        {
            match &items[i] {
                ProgramBody::Instruction(ins) => {
                    match Self::instruction_bytes(ins) {
                        Some(k) => {
                            if pc > usize::MAX - k {
                                proof {
                                    assert(counter_at(items@, i + 1) == pc + k);
                                    lemma_counter_monotone(items@, i + 1, items@.len() as int);
                                }
                                return None;
                            }
                            pc = pc + k;
                        },
                        None => {
                            proof {
                                assert(counter_at(items@, i + 1) >= instruction_size(*ins));
                                lemma_counter_monotone(items@, i + 1, items@.len() as int);
                            }
                            return None;
                        },
                    }
                },
                ProgramBody::Label(_) => {},
            }
            i = i + 1;
        }
        Some(pc)
    }

    /// Size of one instruction, `None` where it exceeds `usize`.
    fn instruction_bytes(ins: &Instruction) -> (r: Option<usize>)
        ensures
            match r {
                Some(k) => k as nat == instruction_size(*ins),
                None => instruction_size(*ins) > usize::MAX,
            },
    {
        let ops = &ins.operands;
        let mut k: usize = 1;
        let mut j: usize = 0;
        while j < ops.len()
            invariant
                ops@ == ins.operands@,
                j <= ops@.len(),
                k as nat == 1 + wide_count(ops@, j as int),
                k >= 1,
            decreases ops@.len() - j,
        {
            match &ops[j] {
                Operand::Imm(_) | Operand::Label(_) => {
                    if k == usize::MAX {
                        proof {
                            assert(wide_count(ops@, j + 1) == wide_count(ops@, j as int) + 1);
                            lemma_wide_count_monotone(ops@, j + 1, ops@.len() as int);
                        }
                        return None;
                    }
                    k = k + 1;
                },
                _ => {},
            }
            j = j + 1;
        }
        Some(k)
    }

    /// Like `generate_label_map`, but a second declaration of a name is an
    /// error rather than a replacement.
    pub fn try_generate_label_map(&self) -> (r: Result<LabelMap, LabelError>)
        requires
            program_size(self.0@) <= usize::MAX,
        ensures
            match r {
                Ok(m) => first_duplicate(self.0@, self.0@.len() as int) is None && m@
                    == label_map_of(self.0@),
                Err(LabelError::DuplicateLabel { position, label }) => first_duplicate(
                    self.0@,
                    self.0@.len() as int,
                ) == Some(position as int) && self.0@[position as int] == ProgramBody::Label(
                    label,
                ),
            },
    {
        let items = &self.0;
        let mut pc: usize = 0;
        let mut ret = LabelMap::new();
        let mut i: usize = 0;
        while i < items.len()
            invariant
                items@ == self.0@,
                i <= items@.len(),
                pc as nat == counter_at(items@, i as int),
                program_size(items@) <= usize::MAX,
                ret@ == labels_upto(items@, i as int),
                first_duplicate(items@, i as int) is None,
            decreases items@.len() - i,
        {
            proof {
                lemma_counter_monotone(items@, i + 1, items@.len() as int);
                lemma_labels_upto_entries(items@, i as int);
            }
            match &items[i] {
                ProgramBody::Instruction(ins) => {
                    match Self::instruction_bytes(ins) {
                        Some(k) => pc = pc + k,
                        None => {},
                    }
                },
                ProgramBody::Label(l) => {
                    if ret.get(l).is_some() {
                        proof {
                            lemma_first_duplicate_persists(items@, i + 1, items@.len() as int);
                        }
                        return Err(LabelError::DuplicateLabel { position: i, label: l.clone() });
                    }
                    ret.insert(l.clone(), pc / 32);
                },
            }
            i = i + 1;
        }
        Ok(ret)
    }

    /// Computes every label's page in one forward pass: a label resolves to
    /// the page holding the next emitted instruction, and a later declaration
    /// of the same name replaces an earlier one.
    pub fn generate_label_map(&self) -> (r: LabelMap)
        requires
            program_size(self.0@) <= usize::MAX,
        ensures
            r@ == label_map_of(self.0@),
    {
        let items = &self.0;
        let mut pc: usize = 0;
        let mut ret = LabelMap::new();
        let mut i: usize = 0;
        while i < items.len()
            invariant
                items@ == self.0@,
                i <= items@.len(),
                pc as nat == counter_at(items@, i as int),
                program_size(items@) <= usize::MAX,
                ret@ == labels_upto(items@, i as int),
            decreases items@.len() - i,
        {
            proof {
                lemma_counter_monotone(items@, i + 1, items@.len() as int);
            }
            match &items[i] {
                ProgramBody::Instruction(ins) => {
                    let ops = &ins.operands;
                    pc = pc + 1;
                    let mut j: usize = 0;
                    while j < ops.len()
                        invariant
                            j <= ops@.len(),
                            pc as nat == counter_at(items@, i as int) + 1 + wide_count(
                                ops@,
                                j as int,
                            ),
                            counter_at(items@, i as int) + 1 + wide_count(
                                ops@,
                                ops@.len() as int,
                            ) <= usize::MAX,
                        decreases ops@.len() - j,
                    {
                        proof {
                            lemma_wide_count_monotone(ops@, j + 1, ops@.len() as int);
                        }
                        match &ops[j] {
                            Operand::Imm(_) | Operand::Label(_) => pc = pc + 1,
                            _ => {},
                        }
                        j = j + 1;
                    }
                },
                ProgramBody::Label(l) => {
                    ret.insert(l.clone(), pc / 32);
                },
            }
            i = i + 1;
        }
        ret
    }
}

} // verus!
