//! The instruction set: registers, opcodes, the four operand formats, and the
//! 32-bit word that the assembler writes and the machine reads.
//!
//! A word holds, from the least significant bit up: seven bits of opcode,
//! three bits for each of the register slots `r1`, `r2` and `r3`, and sixteen
//! bits of signed immediate. The contracts state this with division and
//! remainder: a field that starts at bit `k` and is `w` bits wide is
//! `word / 2^k % 2^w`.

use crate::Error;
use vstd::prelude::*;

verus! {

/// One of the machine's eight registers.
#[derive(Debug, Clone, Copy, PartialEq, Eq, Structural)]
#[allow(non_camel_case_types)]
pub enum Reg {
    /// Register 0. It reads as zero: the machine drops what is written to it.
    zero,
    /// Register 1, the link register that `jal` fills.
    ra,
    s0,
    s1,
    s2,
    s3,
    s4,
    s5,
}

impl Reg {
    /// The register's number, 0 to 7.
    pub open spec fn spec_index(self) -> int {
        match self {
            Reg::zero => 0,
            Reg::ra => 1,
            Reg::s0 => 2,
            Reg::s1 => 3,
            Reg::s2 => 4,
            Reg::s3 => 5,
            Reg::s4 => 6,
            Reg::s5 => 7,
        }
    }

    /// The register with the given number, if there is one.
    pub open spec fn spec_parse(val: int) -> Result<Reg, Error> {
        if val == 0 {
            Ok(Reg::zero)
        } else if val == 1 {
            Ok(Reg::ra)
        } else if val == 2 {
            Ok(Reg::s0)
        } else if val == 3 {
            Ok(Reg::s1)
        } else if val == 4 {
            Ok(Reg::s2)
        } else if val == 5 {
            Ok(Reg::s3)
        } else if val == 6 {
            Ok(Reg::s4)
        } else if val == 7 {
            Ok(Reg::s5)
        } else {
            Err(Error::ParseError)
        }
    }

    /// The register's number.
    pub fn index(self) -> (i: usize)
        ensures
            i == self.spec_index(),
            i < 8,
    {
        match self {
            Reg::zero => 0,
            Reg::ra => 1,
            Reg::s0 => 2,
            Reg::s1 => 3,
            Reg::s2 => 4,
            Reg::s3 => 5,
            Reg::s4 => 6,
            Reg::s5 => 7,
        }
    }

    /// The register numbered `val`. Numbers above 7 name no register and give
    /// `Error::ParseError`.
    pub fn parse(val: u8) -> (res: Result<Reg, Error>)
        ensures
            res == Reg::spec_parse(val as int),
            res is Ok <==> val <= 7,
            res matches Ok(r) ==> r.spec_index() == val,
    {
        match val {
            0 => Ok(Reg::zero),
            1 => Ok(Reg::ra),
            2 => Ok(Reg::s0),
            3 => Ok(Reg::s1),
            4 => Ok(Reg::s2),
            5 => Ok(Reg::s3),
            6 => Ok(Reg::s4),
            7 => Ok(Reg::s5),
            _ => Err(Error::ParseError),
        }
    }
}

/// What an instruction does.
#[derive(Debug, Clone, Copy, PartialEq, Eq, Structural)]
#[allow(non_camel_case_types)]
pub enum Opcode {
    halt,
    ecall,
    sb,
    lb,
    sh,
    lh,
    sw,
    lw,
    lbu,
    lhu,
    lui,
    la,
    jal,
    add,
    addi,
    and,
    andi,
    or,
    ori,
    xor,
    xori,
    sll,
    slli,
    srl,
    srli,
    sra,
    sub,
    mul,
    muli,
    slt,
    blt,
    sltu,
    bltu,
    beq,
    bne,
    bge,
    bgeu,
    sltiu,
}

impl Opcode {
    /// The number that stands for the opcode in an instruction word. Bit 5
    /// tells an opcode from its twin: `addi` from `add`, a load from the
    /// store of the same width.
    pub open spec fn spec_code(self) -> int {
        match self {
            Opcode::halt => 0,
            Opcode::ecall => 32,
            Opcode::sb => 2,
            Opcode::lb => 34,
            Opcode::sh => 4,
            Opcode::lh => 36,
            Opcode::sw => 6,
            Opcode::lw => 38,
            Opcode::lbu => 40,
            Opcode::lhu => 42,
            Opcode::lui => 44,
            Opcode::la => 46,
            Opcode::jal => 30,
            Opcode::add => 1,
            Opcode::addi => 33,
            Opcode::and => 3,
            Opcode::andi => 35,
            Opcode::or => 5,
            Opcode::ori => 37,
            Opcode::xor => 7,
            Opcode::xori => 39,
            Opcode::sll => 9,
            Opcode::slli => 41,
            Opcode::srl => 11,
            Opcode::srli => 43,
            Opcode::sra => 13,
            Opcode::sub => 15,
            Opcode::mul => 17,
            Opcode::muli => 49,
            Opcode::slt => 19,
            Opcode::blt => 51,
            Opcode::sltu => 21,
            Opcode::bltu => 53,
            Opcode::beq => 55,
            Opcode::bne => 57,
            Opcode::bge => 59,
            Opcode::bgeu => 61,
            Opcode::sltiu => 31,
        }
    }

    /// Whether some opcode has the number `val`.
    pub open spec fn is_code(val: int) -> bool {
        exists|op: Opcode| op.spec_code() == val
    }

    /// The opcode's number.
    pub fn code(self) -> (c: u8)
        ensures
            c == self.spec_code(),
            c < 64,
    {
        match self {
            Opcode::halt => 0,
            Opcode::ecall => 32,
            Opcode::sb => 2,
            Opcode::lb => 34,
            Opcode::sh => 4,
            Opcode::lh => 36,
            Opcode::sw => 6,
            Opcode::lw => 38,
            Opcode::lbu => 40,
            Opcode::lhu => 42,
            Opcode::lui => 44,
            Opcode::la => 46,
            Opcode::jal => 30,
            Opcode::add => 1,
            Opcode::addi => 33,
            Opcode::and => 3,
            Opcode::andi => 35,
            Opcode::or => 5,
            Opcode::ori => 37,
            Opcode::xor => 7,
            Opcode::xori => 39,
            Opcode::sll => 9,
            Opcode::slli => 41,
            Opcode::srl => 11,
            Opcode::srli => 43,
            Opcode::sra => 13,
            Opcode::sub => 15,
            Opcode::mul => 17,
            Opcode::muli => 49,
            Opcode::slt => 19,
            Opcode::blt => 51,
            Opcode::sltu => 21,
            Opcode::bltu => 53,
            Opcode::beq => 55,
            Opcode::bne => 57,
            Opcode::bge => 59,
            Opcode::bgeu => 61,
            Opcode::sltiu => 31,
        }
    }

    /// The opcode numbered `val`. A number that no opcode has gives
    /// `Error::ParseError`.
    pub fn parse(val: u8) -> (res: Result<Opcode, Error>)
        ensures
            res is Ok <==> Opcode::is_code(val as int),
            res matches Ok(op) ==> op.spec_code() == val,
            res matches Err(e) ==> e == Error::ParseError,
    {
        let res = match val {
            0 => Ok(Opcode::halt),
            32 => Ok(Opcode::ecall),
            2 => Ok(Opcode::sb),
            34 => Ok(Opcode::lb),
            4 => Ok(Opcode::sh),
            36 => Ok(Opcode::lh),
            6 => Ok(Opcode::sw),
            38 => Ok(Opcode::lw),
            40 => Ok(Opcode::lbu),
            42 => Ok(Opcode::lhu),
            44 => Ok(Opcode::lui),
            46 => Ok(Opcode::la),
            30 => Ok(Opcode::jal),
            1 => Ok(Opcode::add),
            33 => Ok(Opcode::addi),
            3 => Ok(Opcode::and),
            35 => Ok(Opcode::andi),
            5 => Ok(Opcode::or),
            37 => Ok(Opcode::ori),
            7 => Ok(Opcode::xor),
            39 => Ok(Opcode::xori),
            9 => Ok(Opcode::sll),
            41 => Ok(Opcode::slli),
            11 => Ok(Opcode::srl),
            43 => Ok(Opcode::srli),
            13 => Ok(Opcode::sra),
            15 => Ok(Opcode::sub),
            17 => Ok(Opcode::mul),
            49 => Ok(Opcode::muli),
            19 => Ok(Opcode::slt),
            51 => Ok(Opcode::blt),
            21 => Ok(Opcode::sltu),
            53 => Ok(Opcode::bltu),
            55 => Ok(Opcode::beq),
            57 => Ok(Opcode::bne),
            59 => Ok(Opcode::bge),
            61 => Ok(Opcode::bgeu),
            31 => Ok(Opcode::sltiu),
            _ => Err(Error::ParseError),
        };
        proof {
            if let Ok(op) = res {
                assert(op.spec_code() == val);
            } else {
                assert forall|op: Opcode| op.spec_code() != val by {}
            }
        }
        res
    }
}

/// No two opcodes share a number, so an opcode is known by its number.
pub proof fn lemma_code_injective(a: Opcode, b: Opcode)
    requires
        a.spec_code() == b.spec_code(),
    ensures
        a == b,
{
}

/// Which of an instruction's fields its opcode uses.
#[derive(Debug, Clone, Copy, PartialEq, Eq, Structural)]
pub enum InstructionType {
    /// A register and an address: `r1`, the base `r3` and the immediate.
    RA,
    /// Three registers.
    RM,
    /// Two registers to compare and an address to jump to: all three slots
    /// and the immediate.
    RO,
    /// Two registers and an immediate: `r1`, `r2` and the immediate.
    RI,
}

/// The format of each opcode: loads, stores, `la`, `ecall` and `halt` take an
/// address; arithmetic with an immediate and `lui` are register-immediate;
/// arithmetic on registers takes three registers; branches and `jal` take two
/// registers and a target.
pub open spec fn spec_type(opcode: Opcode) -> InstructionType {
    match opcode {
        Opcode::halt
        | Opcode::ecall
        | Opcode::lb
        | Opcode::lbu
        | Opcode::lh
        | Opcode::lhu
        | Opcode::lw
        | Opcode::la
        | Opcode::sb
        | Opcode::sh
        | Opcode::sw => InstructionType::RA,
        Opcode::lui
        | Opcode::addi
        | Opcode::andi
        | Opcode::muli
        | Opcode::ori
        | Opcode::slli
        | Opcode::sltiu
        | Opcode::srli
        | Opcode::xori => InstructionType::RI,
        Opcode::add
        | Opcode::and
        | Opcode::mul
        | Opcode::or
        | Opcode::sll
        | Opcode::slt
        | Opcode::sltu
        | Opcode::sra
        | Opcode::srl
        | Opcode::sub
        | Opcode::xor => InstructionType::RM,
        Opcode::jal
        | Opcode::beq
        | Opcode::bne
        | Opcode::bge
        | Opcode::blt
        | Opcode::bgeu
        | Opcode::bltu => InstructionType::RO,
    }
}

/// The format of `opcode`.
pub fn get_instructions_type(opcode: Opcode) -> (t: InstructionType)
    ensures
        t == spec_type(opcode),
{
    match opcode {
        Opcode::halt
        | Opcode::ecall
        | Opcode::lb
        | Opcode::lbu
        | Opcode::lh
        | Opcode::lhu
        | Opcode::lw
        | Opcode::la
        | Opcode::sb
        | Opcode::sh
        | Opcode::sw => InstructionType::RA,
        Opcode::lui
        | Opcode::addi
        | Opcode::andi
        | Opcode::muli
        | Opcode::ori
        | Opcode::slli
        | Opcode::sltiu
        | Opcode::srli
        | Opcode::xori => InstructionType::RI,
        Opcode::add
        | Opcode::and
        | Opcode::mul
        | Opcode::or
        | Opcode::sll
        | Opcode::slt
        | Opcode::sltu
        | Opcode::sra
        | Opcode::srl
        | Opcode::sub
        | Opcode::xor => InstructionType::RM,
        Opcode::jal
        | Opcode::beq
        | Opcode::bne
        | Opcode::bge
        | Opcode::blt
        | Opcode::bgeu
        | Opcode::bltu => InstructionType::RO,
    }
}

/// Whether the format reads the `r2` slot.
pub open spec fn uses_r2(t: InstructionType) -> bool {
    !(t is RA)
}

/// Whether the format reads the `r3` slot.
pub open spec fn uses_r3(t: InstructionType) -> bool {
    !(t is RI)
}

/// A decoded instruction.
#[derive(Debug, Clone, Copy, PartialEq, Eq, Structural)]
pub struct Instruction {
    pub opcode: Opcode,
    pub r1: Reg,
    pub r2: Reg,
    pub r3: Reg,
    pub imm: i16,
}

/// The sixteen bits of an immediate, as a number from 0 to 65535.
pub open spec fn imm_bits(imm: i16) -> int {
    if imm < 0 {
        imm + 0x1_0000
    } else {
        imm as int
    }
}

/// The immediate that sixteen bits stand for.
pub open spec fn bits_imm(bits: int) -> i16 {
    if bits >= 0x8000 {
        (bits - 0x1_0000) as i16
    } else {
        bits as i16
    }
}

/// The opcode field of a word: bits 0 to 6.
pub open spec fn field_opcode(word: int) -> int {
    word % 0x80
}

/// The `r1` field of a word: bits 7 to 9.
pub open spec fn field_r1(word: int) -> int {
    word / 0x80 % 8
}

/// The `r2` field of a word: bits 10 to 12.
pub open spec fn field_r2(word: int) -> int {
    word / 0x400 % 8
}

/// The `r3` field of a word: bits 13 to 15.
pub open spec fn field_r3(word: int) -> int {
    word / 0x2000 % 8
}

/// The immediate field of a word: bits 16 to 31.
pub open spec fn field_imm(word: int) -> int {
    word / 0x1_0000 % 0x1_0000
}

/// The register that a three-bit field names.
pub open spec fn reg_of(field: int) -> Reg {
    Reg::spec_parse(field)->Ok_0
}

impl Instruction {
    /// The instruction with the register slots that its format does not use
    /// set to register 0.
    pub open spec fn canonical(self) -> Instruction {
        let t = spec_type(self.opcode);
        Instruction {
            opcode: self.opcode,
            r1: self.r1,
            r2: if uses_r2(t) {
                self.r2
            } else {
                Reg::zero
            },
            r3: if uses_r3(t) {
                self.r3
            } else {
                Reg::zero
            },
            imm: self.imm,
        }
    }

    /// Whether the slots that the format does not use hold register 0.
    pub open spec fn is_canonical(self) -> bool {
        self.canonical() == self
    }

    /// The word that encodes the instruction: each field at its place, a
    /// slot that the format does not use left zero.
    pub open spec fn spec_build(self) -> int {
        let c = self.canonical();
        c.opcode.spec_code() + 0x80 * c.r1.spec_index() + 0x400 * c.r2.spec_index() + 0x2000
            * c.r3.spec_index() + 0x1_0000 * imm_bits(c.imm)
    }

    /// The instruction that a word encodes. The opcode field must hold the
    /// number of an opcode. A slot that the opcode's format does not use
    /// decodes as register 0, whatever the word holds there.
    pub open spec fn spec_parse(word: int) -> Result<Instruction, Error> {
        if Opcode::is_code(field_opcode(word)) {
            let opcode = choose|op: Opcode| op.spec_code() == field_opcode(word);
            Ok(
                Instruction {
                    opcode,
                    r1: reg_of(field_r1(word)),
                    r2: reg_of(field_r2(word)),
                    r3: reg_of(field_r3(word)),
                    imm: bits_imm(field_imm(word)),
                }.canonical(),
            )
        } else {
            Err(Error::ParseError)
        }
    }

    /// An instruction from its parts.
    pub fn new(opcode: Opcode, r1: Reg, r2: Reg, r3: Reg, imm: i16) -> (inst: Instruction)
        ensures
            inst == (Instruction { opcode, r1, r2, r3, imm }),
    {
        Instruction { opcode, r1, r2, r3, imm }
    }

    /// Decodes a word. Fails with `Error::ParseError` exactly when the opcode
    /// field holds no opcode's number.
    pub fn parse(word: u32) -> (res: Result<Instruction, Error>)
        ensures
            res == Instruction::spec_parse(word as int),
    {
        let opcode = match Opcode::parse((word % 0x80) as u8) {
            Ok(opcode) => opcode,
            Err(_) => {
                return Err(Error::ParseError);
            },
        };
        proof {
            lemma_code_injective(
                opcode,
                choose|op: Opcode| op.spec_code() == field_opcode(word as int),
            );
        }
        let fst = Reg::parse((word / 0x80 % 8) as u8);
        let snd = Reg::parse((word / 0x400 % 8) as u8);
        let trd = Reg::parse((word / 0x2000 % 8) as u8);
        let bits = word / 0x1_0000;
        let imm: i16 = if bits >= 0x8000 {
            (bits as i32 - 0x1_0000) as i16
        } else {
            bits as i16
        };
        match (fst, snd, trd) {
            (Ok(r1), Ok(r2), Ok(r3)) => {
                match get_instructions_type(opcode) {
                    InstructionType::RM | InstructionType::RO => Ok(
                        Instruction::new(opcode, r1, r2, r3, imm),
                    ),
                    InstructionType::RI => Ok(Instruction::new(opcode, r1, r2, Reg::zero, imm)),
                    InstructionType::RA => Ok(Instruction::new(opcode, r1, Reg::zero, r3, imm)),
                }
            },
            _ => Err(Error::ParseError),
        }
    }

    /// Encodes the instruction.
    pub fn build(&self) -> (word: u32)
        ensures
            word == self.spec_build(),
    {
        let imm: u32 = if self.imm < 0 {
            (self.imm as i32 + 0x1_0000) as u32
        } else {
            self.imm as u32
        };
        let code = self.opcode.code() as u32;
        let r1 = self.r1.index() as u32;
        let r2 = self.r2.index() as u32;
        let r3 = self.r3.index() as u32;
        match get_instructions_type(self.opcode) {
            InstructionType::RM | InstructionType::RO => {
                code + 0x80 * r1 + 0x400 * r2 + 0x2000 * r3 + 0x1_0000 * imm
            },
            InstructionType::RA => code + 0x80 * r1 + 0x2000 * r3 + 0x1_0000 * imm,
            InstructionType::RI => code + 0x80 * r1 + 0x400 * r2 + 0x1_0000 * imm,
        }
    }
}

/// The fields of a word put together from five in-range numbers are those
/// numbers.
proof fn lemma_pack(a: int, b: int, c: int, d: int, e: int)
    requires
        0 <= a < 0x80,
        0 <= b < 8,
        0 <= c < 8,
        0 <= d < 8,
        0 <= e < 0x1_0000,
    ensures
        ({
            let w = a + 0x80 * b + 0x400 * c + 0x2000 * d + 0x1_0000 * e;
            &&& 0 <= w < 0x1_0000_0000
            &&& field_opcode(w) == a
            &&& field_r1(w) == b
            &&& field_r2(w) == c
            &&& field_r3(w) == d
            &&& field_imm(w) == e
        }),
{
    let w = a + 0x80 * b + 0x400 * c + 0x2000 * d + 0x1_0000 * e;
    assert(w / 0x80 == b + 8 * c + 0x40 * d + 0x200 * e);
    assert(w / 0x400 == c + 8 * d + 0x40 * e);
    assert(w / 0x2000 == d + 8 * e);
    assert(w / 0x1_0000 == e);
}

/// A 32-bit word is its five fields put together.
proof fn lemma_unpack(w: int)
    requires
        0 <= w < 0x1_0000_0000,
    ensures
        w == field_opcode(w) + 0x80 * field_r1(w) + 0x400 * field_r2(w) + 0x2000 * field_r3(w)
            + 0x1_0000 * field_imm(w),
        0 <= field_opcode(w) < 0x80,
        0 <= field_r1(w) < 8,
        0 <= field_r2(w) < 8,
        0 <= field_r3(w) < 8,
        0 <= field_imm(w) < 0x1_0000,
{
    let q1 = w / 0x80;
    let q2 = w / 0x400;
    let q3 = w / 0x2000;
    let q4 = w / 0x1_0000;
    assert(q2 == q1 / 8);
    assert(q3 == q2 / 8);
    assert(q4 == q3 / 8);
}

/// Decoding undoes encoding: the word built from an instruction decodes to
/// that instruction, with the slots that its format does not use set to
/// register 0.
pub proof fn lemma_parse_build(inst: Instruction)
    ensures
        0 <= inst.spec_build() < 0x1_0000_0000,
        Instruction::spec_parse(inst.spec_build()) == Ok::<Instruction, Error>(inst.canonical()),
        inst.is_canonical() ==> Instruction::spec_parse(inst.spec_build()) == Ok::<
            Instruction,
            Error,
        >(inst),
{
    let c = inst.canonical();
    let w = inst.spec_build();
    lemma_pack(
        c.opcode.spec_code(),
        c.r1.spec_index(),
        c.r2.spec_index(),
        c.r3.spec_index(),
        imm_bits(c.imm),
    );
    assert(Opcode::is_code(field_opcode(w)));
    lemma_code_injective(c.opcode, choose|op: Opcode| op.spec_code() == field_opcode(w));
    assert(reg_of(c.r1.spec_index()) == c.r1);
    assert(reg_of(c.r2.spec_index()) == c.r2);
    assert(reg_of(c.r3.spec_index()) == c.r3);
    assert(bits_imm(imm_bits(c.imm)) == c.imm);
    assert(c.canonical() == c);
}

/// Encoding undoes decoding on every word whose unused slots are zero: such
/// a word is the encoding of the instruction that it decodes to.
pub proof fn lemma_build_parse(word: int)
    requires
        0 <= word < 0x1_0000_0000,
        Instruction::spec_parse(word) is Ok,
    ensures
        ({
            let inst = Instruction::spec_parse(word)->Ok_0;
            let t = spec_type(inst.opcode);
            &&& inst.is_canonical()
            &&& inst.spec_build() == word <==> (uses_r2(t) || field_r2(word) == 0) && (uses_r3(t)
                || field_r3(word) == 0)
        }),
{
    let inst = Instruction::spec_parse(word)->Ok_0;
    let op = choose|op: Opcode| op.spec_code() == field_opcode(word);
    lemma_unpack(word);
    assert(inst.opcode == op);
    assert(inst.canonical() == inst);
    assert(reg_of(field_r1(word)).spec_index() == field_r1(word));
    assert(reg_of(field_r2(word)).spec_index() == field_r2(word));
    assert(reg_of(field_r3(word)).spec_index() == field_r3(word));
    assert(imm_bits(bits_imm(field_imm(word))) == field_imm(word));
}

} // verus!
