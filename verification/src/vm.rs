//! The machine: eight registers, a program counter, a borrowed program image
//! and a host that owns all memory.
//!
//! The contracts speak of a machine by its view, a [`Machine`]: the program
//! counter, the register file, the instruction bytes and the host. One step
//! is the relation [`step_rel`] between the view before and the view after;
//! what the host does inside a step is whatever its own four relations allow.

use crate::endian::{
    be16, be16_bytes, be32, be32_bytes, lemma_be16_low, lemma_be32_low, read_i16, read_i32,
    read_u16, read_u32, signed16, signed32, write_i16, write_i32,
};
use crate::isa::{Instruction, Opcode, Reg};
use vstd::prelude::*;

verus! {

/// The host of a machine: it owns the memory and answers environment calls.
///
/// Each method comes with a relation that says what the method may do. A host
/// states its relation as exactly as it can; left alone, a relation allows
/// everything, and the machine then promises only what holds of every host.
/// The machine never looks inside a host's error.
pub trait Env {
    type Error;

    /// What `reset` may turn the host `self` into.
    open spec fn reset_spec(&self, post: &Self) -> bool {
        true
    }

    /// What `mem_set` may turn the host `self` into when asked to store
    /// `val` at `addr`, and whether it may succeed.
    open spec fn mem_set_spec(&self, addr: u16, val: Seq<u8>, post: &Self, ok: bool) -> bool {
        true
    }

    /// What `mem_fetch` may leave in a buffer that held `buf` when asked to
    /// fill it from `addr`, and whether it may succeed.
    open spec fn mem_fetch_spec(&self, addr: u16, buf: Seq<u8>, out: Seq<u8>, ok: bool) -> bool {
        true
    }

    /// What `ecall` may turn the host `self` into when called with `ecall`
    /// and `param`, and what it may answer: a value, or `None` for a failure.
    open spec fn ecall_spec(&self, ecall: i32, param: i32, post: &Self, ret: Option<i32>) -> bool {
        true
    }

    /// Puts the host back into its initial condition.
    fn reset(&mut self)
        ensures
            old(self).reset_spec(final(self)),
    ;

    /// Writes `val` to memory, starting at `addr`.
    fn mem_set(&mut self, addr: u16, val: &[u8]) -> (res: Result<(), Self::Error>)
        ensures
            old(self).mem_set_spec(addr, val@, final(self), res is Ok),
    ;

    /// Fills `buf` from memory, starting at `addr`.
    fn mem_fetch(&self, addr: u16, buf: &mut [u8]) -> (res: Result<(), Self::Error>)
        ensures
            final(buf)@.len() == old(buf)@.len(),
            self.mem_fetch_spec(addr, old(buf)@, final(buf)@, res is Ok),
    ;

    /// Performs the environment call numbered `ecall` on `param`.
    fn ecall(&mut self, ecall: i32, param: i32) -> (res: Result<i32, Self::Error>)
        ensures
            old(self).ecall_spec(
                ecall,
                param,
                final(self),
                match res {
                    Ok(v) => Some(v),
                    Err(_) => None,
                },
            ),
    ;
}

/// Why the machine stopped without halting.
#[derive(Debug, Clone, Copy, PartialEq, Eq, Structural)]
pub enum VMError {
    /// No image is loaded.
    EmptyProg,
    /// The image is malformed, or the word at the program counter holds no
    /// opcode.
    InvalidProg,
    /// The host failed a fetch, a store or an environment call.
    HostFault,
    /// A run took as many steps as it was allowed, [`STEP_LIMIT`] in `spin`,
    /// and the program had not halted.
    StepLimit,
}

/// The number of steps after which `spin` gives up.
pub const STEP_LIMIT: u64 = 0xffff_ffff_ffff_ffff;

/// A machine as the contracts see it.
pub ghost struct Machine<E> {
    /// The index of the next instruction.
    pub pc: nat,
    /// The eight registers.
    pub reg: Seq<i32>,
    /// The instruction bytes of the loaded image, if one is loaded.
    pub code: Option<Seq<u8>>,
    /// The host.
    pub host: E,
}

/// A 32-bit two's-complement number for any integer: the one that differs
/// from it by a multiple of 2^32.
pub open spec fn wrap32(x: int) -> i32 {
    signed32(x) as i32
}

/// The bit pattern of a register value, as a number from 0 to 2^32 - 1.
pub open spec fn unsigned32(x: i32) -> int {
    if x < 0 {
        x + 0x1_0000_0000
    } else {
        x as int
    }
}

/// A shift distance: the low five bits of `x`.
pub open spec fn shamt(x: i32) -> u32 {
    (unsigned32(x) % 32) as u32
}

/// Eight registers that all hold zero.
pub open spec fn zero_regs() -> Seq<i32> {
    Seq::new(8, |i: int| 0i32)
}

/// `len` bytes that are all zero.
pub open spec fn zero_bytes(len: nat) -> Seq<u8> {
    Seq::new(len, |i: int| 0u8)
}

/// The value of register `r`.
pub open spec fn reg_val(reg: Seq<i32>, r: Reg) -> i32 {
    reg[r.spec_index()]
}

/// The register file after `v` is written to `r`: a write to register 0 is
/// dropped.
pub open spec fn write_reg(reg: Seq<i32>, r: Reg, v: i32) -> Seq<i32> {
    if r is zero {
        reg
    } else {
        reg.update(r.spec_index(), v)
    }
}

/// Whether the opcode only computes a register value.
pub open spec fn computes(op: Opcode) -> bool {
    match op {
        Opcode::addi
        | Opcode::ori
        | Opcode::xori
        | Opcode::andi
        | Opcode::slli
        | Opcode::srli
        | Opcode::add
        | Opcode::and
        | Opcode::mul
        | Opcode::muli
        | Opcode::or
        | Opcode::sub
        | Opcode::xor
        | Opcode::slt
        | Opcode::sltu
        | Opcode::sltiu
        | Opcode::srl
        | Opcode::sll
        | Opcode::sra
        | Opcode::lui
        | Opcode::la => true,
        _ => false,
    }
}

/// Whether the opcode is a conditional branch.
pub open spec fn is_branch(op: Opcode) -> bool {
    match op {
        Opcode::beq | Opcode::bne | Opcode::bge | Opcode::bgeu | Opcode::blt | Opcode::bltu => true,
        _ => false,
    }
}

/// Whether the opcode writes memory.
pub open spec fn is_store(op: Opcode) -> bool {
    op is sb || op is sh || op is sw
}

/// Whether the opcode reads memory.
pub open spec fn is_load(op: Opcode) -> bool {
    op is lb || op is lbu || op is lh || op is lhu || op is lw
}

/// The value that a computing instruction leaves in `r1`.
///
/// Sums, differences and products wrap. A shift uses the low five bits of its
/// distance; `srl` shifts the bit pattern, `sra` and `srli` keep the sign.
/// The comparisons give 1 or 0. `lui` keeps the low half of `r1` and sets the
/// high half to the immediate.
pub open spec fn computed(inst: Instruction, reg: Seq<i32>) -> i32 {
    let a = reg_val(reg, inst.r2);
    let b = reg_val(reg, inst.r3);
    let imm = inst.imm as i32;
    match inst.opcode {
        Opcode::addi => wrap32(a + imm),
        Opcode::ori => a | imm,
        Opcode::xori => a ^ imm,
        Opcode::andi => a & imm,
        Opcode::slli => a << shamt(imm),
        Opcode::srli => a >> shamt(imm),
        Opcode::add => wrap32(a + b),
        Opcode::and => a & b,
        Opcode::mul => wrap32(a * b),
        Opcode::muli => wrap32(a * imm),
        Opcode::or => a | b,
        Opcode::sub => wrap32(a - b),
        Opcode::xor => a ^ b,
        Opcode::slt => if a < b {
            1
        } else {
            0
        },
        Opcode::sltu => if unsigned32(a) < unsigned32(b) {
            1
        } else {
            0
        },
        Opcode::sltiu => if unsigned32(a) < unsigned32(imm) {
            1
        } else {
            0
        },
        Opcode::srl => wrap32(((unsigned32(a) as u32) >> shamt(b)) as int),
        Opcode::sll => a << shamt(b),
        Opcode::sra => a >> shamt(b),
        Opcode::lui => (reg_val(reg, inst.r1) & 0xffff) | (imm << 16u32),
        Opcode::la => wrap32(b + imm),
        _ => 0,
    }
}

/// Whether a conditional branch on `a` and `b` is taken.
pub open spec fn branch_taken(op: Opcode, a: i32, b: i32) -> bool {
    match op {
        Opcode::beq => a == b,
        Opcode::bne => a != b,
        Opcode::bge => a >= b,
        Opcode::bgeu => unsigned32(a) >= unsigned32(b),
        Opcode::blt => a < b,
        Opcode::bltu => unsigned32(a) < unsigned32(b),
        _ => false,
    }
}

/// Where a jump lands: base plus immediate, as a 32-bit unsigned index.
pub open spec fn branch_target(base: i32, imm: i16) -> nat {
    ((base + imm) % 0x1_0000_0000) as nat
}

/// The address of a memory access: base plus immediate, as a 16-bit unsigned
/// number.
pub open spec fn mem_addr(base: i32, imm: i16) -> u16 {
    ((base + imm) % 0x1_0000) as u16
}

/// The bytes that a store of `v` hands to the host: the low one, two or four
/// bytes of `v`, the most significant first.
pub open spec fn store_bytes(op: Opcode, v: i32) -> Seq<u8> {
    match op {
        Opcode::sb => seq![(v as int % 0x100) as u8],
        Opcode::sh => be16_bytes(v as int),
        _ => be32_bytes(v as int),
    }
}

/// The number of bytes that a load asks of the host.
pub open spec fn load_len(op: Opcode) -> nat {
    match op {
        Opcode::lb | Opcode::lbu => 1,
        Opcode::lh | Opcode::lhu => 2,
        _ => 4,
    }
}

/// The register value that a load makes of the bytes it got: `lb` and `lh`
/// extend the sign, `lbu` and `lhu` extend with zeros, `lw` takes the four
/// bytes as they are.
pub open spec fn load_value(op: Opcode, bytes: Seq<u8>) -> i32 {
    match op {
        Opcode::lb => if bytes[0] >= 0x80 {
            (bytes[0] - 0x100) as i32
        } else {
            bytes[0] as i32
        },
        Opcode::lbu => bytes[0] as i32,
        Opcode::lh => signed16(be16(bytes)) as i32,
        Opcode::lhu => be16(bytes) as i32,
        _ => signed32(be32(bytes)) as i32,
    }
}

/// The instruction that a halted machine reads where the program has ended.
pub open spec fn halt_inst() -> Instruction {
    Instruction { opcode: Opcode::halt, r1: Reg::zero, r2: Reg::zero, r3: Reg::zero, imm: 0 }
}

/// The instruction at `pc`: a `halt` where `pc` points past the last whole
/// word, `EmptyProg` where nothing is loaded, `InvalidProg` where the word
/// holds no opcode.
pub open spec fn fetched(code: Option<Seq<u8>>, pc: nat) -> Result<Instruction, VMError> {
    match code {
        None => Err(VMError::EmptyProg),
        Some(c) => if pc * 4 + 4 > c.len() {
            Ok(halt_inst())
        } else {
            match Instruction::spec_parse(be32(c.subrange(pc as int * 4, pc as int * 4 + 4))) {
                Ok(inst) => Ok(inst),
                Err(_) => Err(VMError::InvalidProg),
            }
        },
    }
}

/// One step of the machine, from `pre` to `post` with the result `res`.
///
/// `Ok(true)` is a halt, `Ok(false)` a step after which the machine runs on.
/// A step that halts or fails in decoding changes nothing. A computing
/// instruction writes `r1` and moves on by one. A taken branch sets the
/// program counter to its target and writes no register; `jal` first writes
/// the index of the next instruction to `ra`. A store, a load and an
/// environment call go to the host: where the host succeeds the machine moves
/// on by one, where it fails the step is `HostFault` and neither the program
/// counter nor a register changes.
#[verifier::opaque]
pub open spec fn step_rel<E: Env>(
    pre: Machine<E>,
    post: Machine<E>,
    res: Result<bool, VMError>,
) -> bool {
    match fetched(pre.code, pre.pc) {
        Err(e) => post == pre && res == Err::<bool, VMError>(e),
        Ok(inst) => {
            let op = inst.opcode;
            let addr = mem_addr(reg_val(pre.reg, inst.r3), inst.imm);
            if op is halt {
                post == pre && res == Ok::<bool, VMError>(true)
            } else if computes(op) {
                &&& res == Ok::<bool, VMError>(false)
                &&& post == (Machine {
                    pc: pre.pc + 1,
                    reg: write_reg(pre.reg, inst.r1, computed(inst, pre.reg)),
                    ..pre
                })
            } else if op is jal {
                let linked = pre.reg.update(1, wrap32(pre.pc as int + 1));
                &&& res == Ok::<bool, VMError>(false)
                &&& post == (Machine {
                    pc: branch_target(reg_val(linked, inst.r3), inst.imm),
                    reg: linked,
                    ..pre
                })
            } else if is_branch(op) {
                &&& res == Ok::<bool, VMError>(false)
                &&& post == (Machine {
                    pc: if branch_taken(op, reg_val(pre.reg, inst.r1), reg_val(pre.reg, inst.r2)) {
                        branch_target(reg_val(pre.reg, inst.r3), inst.imm)
                    } else {
                        pre.pc + 1
                    },
                    ..pre
                })
            } else if is_store(op) {
                &&& pre.host.mem_set_spec(
                    addr,
                    store_bytes(op, reg_val(pre.reg, inst.r1)),
                    &post.host,
                    res is Ok,
                )
                &&& post.code == pre.code
                &&& post.reg == pre.reg
                &&& if res is Ok {
                    post.pc == pre.pc + 1 && res == Ok::<bool, VMError>(false)
                } else {
                    post.pc == pre.pc && res == Err::<bool, VMError>(VMError::HostFault)
                }
            } else if is_load(op) {
                &&& post.host == pre.host
                &&& post.code == pre.code
                &&& exists|out: Seq<u8>|
                    {
                        &&& out.len() == load_len(op)
                        &&& #[trigger] pre.host.mem_fetch_spec(
                            addr,
                            zero_bytes(load_len(op)),
                            out,
                            res is Ok,
                        )
                        &&& res is Ok ==> post.reg == write_reg(
                            pre.reg,
                            inst.r1,
                            load_value(op, out),
                        )
                    }
                &&& if res is Ok {
                    post.pc == pre.pc + 1 && res == Ok::<bool, VMError>(false)
                } else {
                    post.pc == pre.pc && post.reg == pre.reg && res == Err::<bool, VMError>(
                        VMError::HostFault,
                    )
                }
            } else {
                &&& post.code == pre.code
                &&& exists|ret: Option<i32>|
                    {
                        &&& #[trigger] pre.host.ecall_spec(
                            inst.imm as i32,
                            reg_val(pre.reg, inst.r3),
                            &post.host,
                            ret,
                        )
                        &&& match ret {
                            Some(v) => {
                                &&& post.pc == pre.pc + 1
                                &&& post.reg == write_reg(pre.reg, inst.r1, v)
                                &&& res == Ok::<bool, VMError>(false)
                            },
                            None => {
                                &&& post.pc == pre.pc
                                &&& post.reg == pre.reg
                                &&& res == Err::<bool, VMError>(VMError::HostFault)
                            },
                        }
                    }
            }
        },
    }
}


/// The length of the data segment that an image's header announces.
pub open spec fn data_len(image: Seq<u8>) -> int {
    be16(image.subrange(2, 4))
}

/// Whether `image` is a program image: the magic bytes `AF AF`, a two-byte
/// big-endian data length, that many data bytes, and then whole four-byte
/// instruction words, none or more.
pub open spec fn valid_image(image: Seq<u8>) -> bool {
    &&& image.len() >= 4
    &&& image[0] == 0xaf
    &&& image[1] == 0xaf
    &&& 4 + data_len(image) <= image.len()
    &&& (image.len() - 4 - data_len(image)) % 4 == 0
}

/// The data segment of a valid image.
pub open spec fn image_data(image: Seq<u8>) -> Seq<u8> {
    image.subrange(4, 4 + data_len(image))
}

/// The instruction bytes of a valid image.
pub open spec fn image_code(image: Seq<u8>) -> Seq<u8> {
    image.subrange(4 + data_len(image), image.len() as int)
}

/// Loading `image` into `pre`, giving `post` and `res`.
///
/// An image that is not valid is refused with `InvalidProg` and nothing
/// changes. Otherwise the registers and the program counter are cleared and
/// the host is reset; a data segment that is not empty is then stored at
/// address 0. Where the host takes it the instruction bytes are installed;
/// where it does not the load fails with `HostFault` and no image is loaded.
pub open spec fn load_rel<E: Env>(
    pre: Machine<E>,
    image: Seq<u8>,
    post: Machine<E>,
    res: Result<(), VMError>,
) -> bool {
    if !valid_image(image) {
        post == pre && res == Err::<(), VMError>(VMError::InvalidProg)
    } else {
        &&& post.pc == 0
        &&& post.reg == zero_regs()
        &&& exists|fresh: E|
            {
                &&& #[trigger] pre.host.reset_spec(&fresh)
                &&& if data_len(image) == 0 {
                    post.host == fresh && res is Ok
                } else {
                    fresh.mem_set_spec(0, image_data(image), &post.host, res is Ok)
                }
            }
        &&& match res {
            Ok(_) => post.code == Some(image_code(image)),
            Err(e) => e == VMError::HostFault && post.code is None,
        }
    }
}

/// Whether each machine of `trace` but the last goes over to the next by a
/// step that runs on.
pub open spec fn is_run<E: Env>(trace: Seq<Machine<E>>) -> bool {
    forall|i: int|
        0 <= i < trace.len() - 1 ==> #[trigger] step_rel(
            trace[i],
            trace[i + 1],
            Ok::<bool, VMError>(false),
        )
}

/// A run of at most `limit` steps from `pre` to `post`: steps that run on,
/// through the machines of some `trace` that starts with `pre`, and then from
/// the last of them one step that halts (`Ok`) or fails (its error), or no
/// such step after `limit` steps (`StepLimit`).
pub open spec fn spin_within<E: Env>(
    pre: Machine<E>,
    post: Machine<E>,
    res: Result<(), VMError>,
    limit: nat,
) -> bool {
    exists|trace: Seq<Machine<E>>|
        {
            &&& #[trigger] is_run(trace)
            &&& 1 <= trace.len() <= limit + 1
            &&& trace[0] == pre
            &&& match res {
                Ok(_) => step_rel(trace.last(), post, Ok::<bool, VMError>(true)),
                Err(VMError::StepLimit) => trace.len() == limit + 1 && post == trace.last(),
                Err(e) => step_rel(trace.last(), post, Err::<bool, VMError>(e)),
            }
        }
}

/// A run from `pre` to `post` of at most [`STEP_LIMIT`] steps.
pub open spec fn spin_rel<E: Env>(
    pre: Machine<E>,
    post: Machine<E>,
    res: Result<(), VMError>,
) -> bool {
    spin_within(pre, post, res, STEP_LIMIT as nat)
}

/// The bit pattern of `x` as an unsigned number.
pub fn to_u32(x: i32) -> (r: u32)
    ensures
        r == unsigned32(x),
{
    assert(x as u32 == if x < 0 {
        (x + 0x1_0000_0000) as u32
    } else {
        x as u32
    }) by (bit_vector);
    x as u32
}

/// The signed number with the bit pattern `x`.
fn to_i32(x: u32) -> (r: i32)
    ensures
        r == wrap32(x as int),
{
    if x >= 0x8000_0000 {
        ((x as i64) - 0x1_0000_0000) as i32
    } else {
        x as i32
    }
}

/// The sum of `a` and `b`, wrapped.
fn add32(a: i32, b: i32) -> (r: i32)
    ensures
        r == wrap32(a + b),
{
    a.wrapping_add(b)
}

/// The difference of `a` and `b`, wrapped.
fn sub32(a: i32, b: i32) -> (r: i32)
    ensures
        r == wrap32(a - b),
{
    a.wrapping_sub(b)
}

/// The product of `a` and `b`, wrapped.
fn mul32(a: i32, b: i32) -> (r: i32)
    ensures
        r == wrap32(a * b),
{
    a.wrapping_mul(b)
}

/// The low five bits of `x`.
fn shift_of(x: i32) -> (r: u32)
    ensures
        r == shamt(x),
        r < 32,
{
    to_u32(x) % 32
}

/// The address that `base` and `imm` form.
pub fn address(base: i32, imm: i16) -> (r: u16)
    ensures
        r == mem_addr(base, imm),
{
    let sum: i64 = base as i64 + imm as i64 + 0x1_0000_0000;
    ((sum as u64) % 0x1_0000) as u16
}

/// The low sixteen bits of `v`, as a signed number.
fn low16(v: i32) -> (r: i16)
    ensures
        r == signed16(v as int),
{
    let u = to_u32(v) % 0x1_0000;
    if u >= 0x8000 {
        (u as i32 - 0x1_0000) as i16
    } else {
        u as i16
    }
}

/// The two bytes that `sh` stores of `v`.
fn half_bytes(v: i32) -> (buf: [u8; 2])
    ensures
        buf@ == be16_bytes(v as int),
{
    let mut buf = [0u8, 0u8];
    let low = low16(v);
    write_i16(&mut buf, low);
    proof {
        let x = v as int;
        let y = low as int;
        assert(y % 0x100 == x % 0x100);
        assert((y / 0x100) % 0x100 == (x / 0x100) % 0x100);
        assert(buf@ =~= be16_bytes(x));
    }
    buf
}

/// The four bytes that `sw` stores of `v`.
fn word_bytes(v: i32) -> (buf: [u8; 4])
    ensures
        buf@ == be32_bytes(v as int),
{
    let mut buf = [0u8, 0u8, 0u8, 0u8];
    write_i32(&mut buf, v);
    assert(buf@ =~= be32_bytes(v as int));
    buf
}

/// The bytes that the store `op` hands to the host for the register value
/// `v`.
pub(crate) fn stored(op: Opcode, v: i32) -> (bytes: Vec<u8>)
    requires
        is_store(op),
    ensures
        bytes@ == store_bytes(op, v),
{
    let mut bytes: Vec<u8> = Vec::new();
    match op {
        Opcode::sb => {
            bytes.push(low_byte(v));
        },
        Opcode::sh => {
            let buf = half_bytes(v);
            bytes.push(buf[0]);
            bytes.push(buf[1]);
        },
        _ => {
            let buf = word_bytes(v);
            bytes.push(buf[0]);
            bytes.push(buf[1]);
            bytes.push(buf[2]);
            bytes.push(buf[3]);
        },
    }
    assert(bytes@ =~= store_bytes(op, v));
    bytes
}

/// The byte that `sb` stores of `v`.
fn low_byte(v: i32) -> (b: u8)
    ensures
        b == (v as int % 0x100) as u8,
{
    (to_u32(v) % 0x100) as u8
}

/// A step never fails with `StepLimit`: only `spin` gives that.
pub proof fn lemma_step_errors<E: Env>(pre: Machine<E>, post: Machine<E>, e: VMError)
    requires
        step_rel(pre, post, Err::<bool, VMError>(e)),
    ensures
        e is EmptyProg || e is InvalidProg || e is HostFault,
        e is EmptyProg <==> pre.code is None,
{
    reveal(step_rel);
}

/// A step that changes nothing: a halt, or a failure to fetch or decode.
proof fn lemma_step_still<E: Env>(pre: Machine<E>, res: Result<bool, VMError>)
    requires
        match fetched(pre.code, pre.pc) {
            Err(e) => res == Err::<bool, VMError>(e),
            Ok(inst) => inst.opcode is halt && res == Ok::<bool, VMError>(true),
        },
    ensures
        step_rel(pre, pre, res),
{
    reveal(step_rel);
}

/// A step that only computes, or a branch that is not taken.
proof fn lemma_step_plain<E: Env>(pre: Machine<E>, post: Machine<E>, inst: Instruction)
    requires
        fetched(pre.code, pre.pc) == Ok::<Instruction, VMError>(inst),
        computes(inst.opcode) || is_branch(inst.opcode),
        computes(inst.opcode) ==> post == (Machine {
            pc: pre.pc + 1,
            reg: write_reg(pre.reg, inst.r1, computed(inst, pre.reg)),
            ..pre
        }),
        is_branch(inst.opcode) ==> post == (Machine {
            pc: if branch_taken(
                inst.opcode,
                reg_val(pre.reg, inst.r1),
                reg_val(pre.reg, inst.r2),
            ) {
                branch_target(reg_val(pre.reg, inst.r3), inst.imm)
            } else {
                pre.pc + 1
            },
            ..pre
        }),
    ensures
        step_rel(pre, post, Ok::<bool, VMError>(false)),
{
    reveal(step_rel);
}

/// A `jal`.
proof fn lemma_step_jal<E: Env>(pre: Machine<E>, post: Machine<E>, inst: Instruction)
    requires
        fetched(pre.code, pre.pc) == Ok::<Instruction, VMError>(inst),
        inst.opcode is jal,
        post == (Machine {
            pc: branch_target(
                reg_val(pre.reg.update(1, wrap32(pre.pc as int + 1)), inst.r3),
                inst.imm,
            ),
            reg: pre.reg.update(1, wrap32(pre.pc as int + 1)),
            ..pre
        }),
    ensures
        step_rel(pre, post, Ok::<bool, VMError>(false)),
{
    reveal(step_rel);
}

/// A store.
proof fn lemma_step_store<E: Env>(
    pre: Machine<E>,
    post: Machine<E>,
    inst: Instruction,
    res: Result<bool, VMError>,
)
    requires
        fetched(pre.code, pre.pc) == Ok::<Instruction, VMError>(inst),
        is_store(inst.opcode),
        pre.host.mem_set_spec(
            mem_addr(reg_val(pre.reg, inst.r3), inst.imm),
            store_bytes(inst.opcode, reg_val(pre.reg, inst.r1)),
            &post.host,
            res is Ok,
        ),
        post.code == pre.code,
        post.reg == pre.reg,
        if res is Ok {
            post.pc == pre.pc + 1 && res == Ok::<bool, VMError>(false)
        } else {
            post.pc == pre.pc && res == Err::<bool, VMError>(VMError::HostFault)
        },
    ensures
        step_rel(pre, post, res),
{
    reveal(step_rel);
}

/// A load that got `out` from the host.
proof fn lemma_step_load<E: Env>(
    pre: Machine<E>,
    post: Machine<E>,
    inst: Instruction,
    res: Result<bool, VMError>,
    out: Seq<u8>,
)
    requires
        fetched(pre.code, pre.pc) == Ok::<Instruction, VMError>(inst),
        is_load(inst.opcode),
        out.len() == load_len(inst.opcode),
        pre.host.mem_fetch_spec(
            mem_addr(reg_val(pre.reg, inst.r3), inst.imm),
            zero_bytes(load_len(inst.opcode)),
            out,
            res is Ok,
        ),
        post.host == pre.host,
        post.code == pre.code,
        if res is Ok {
            &&& post.pc == pre.pc + 1
            &&& post.reg == write_reg(pre.reg, inst.r1, load_value(inst.opcode, out))
            &&& res == Ok::<bool, VMError>(false)
        } else {
            post.pc == pre.pc && post.reg == pre.reg && res == Err::<bool, VMError>(
                VMError::HostFault,
            )
        },
    ensures
        step_rel(pre, post, res),
{
    reveal(step_rel);
}

/// An environment call that the host answered with `ret`.
proof fn lemma_step_ecall<E: Env>(
    pre: Machine<E>,
    post: Machine<E>,
    inst: Instruction,
    res: Result<bool, VMError>,
    ret: Option<i32>,
)
    requires
        fetched(pre.code, pre.pc) == Ok::<Instruction, VMError>(inst),
        inst.opcode is ecall,
        pre.host.ecall_spec(inst.imm as i32, reg_val(pre.reg, inst.r3), &post.host, ret),
        post.code == pre.code,
        match ret {
            Some(v) => {
                &&& post.pc == pre.pc + 1
                &&& post.reg == write_reg(pre.reg, inst.r1, v)
                &&& res == Ok::<bool, VMError>(false)
            },
            None => {
                &&& post.pc == pre.pc
                &&& post.reg == pre.reg
                &&& res == Err::<bool, VMError>(VMError::HostFault)
            },
        },
    ensures
        step_rel(pre, post, res),
{
    reveal(step_rel);
}

/// The machine. It borrows the image that it runs and owns its host.
pub struct VM<'prog, E: Env> {
    env: E,
    pc: usize,
    reg: [i32; 8],
    prog: Option<&'prog [u8]>,
}

impl<'prog, E: Env> View for VM<'prog, E> {
    type V = Machine<E>;

    closed spec fn view(&self) -> Machine<E> {
        Machine {
            pc: self.pc as nat,
            reg: self.reg@,
            code: match self.prog {
                Some(p) => Some(p@),
                None => None,
            },
            host: self.env,
        }
    }
}

impl<'prog, E: Env> VM<'prog, E> {
    /// A machine on `env` with cleared registers and no image.
    pub fn new(env: E) -> (vm: Self)
        ensures
            vm@ == (Machine { pc: 0, reg: zero_regs(), code: None, host: env }),
    {
        let vm = VM { env, pc: 0, reg: [0;8], prog: None };
        assert(vm.reg@ =~= zero_regs());
        vm
    }

    /// Clears the program counter and the registers, forgets the image and
    /// resets the host.
    pub fn reset(&mut self)
        ensures
            final(self)@.pc == 0,
            final(self)@.reg == zero_regs(),
            final(self)@.code is None,
            old(self)@.host.reset_spec(&final(self)@.host),
    {
        self.rewind();
        self.reg = [0;8];
        self.prog = None;
        self.env.reset();
        assert(self.reg@ =~= zero_regs());
    }

    /// Sets the program counter to 0 and touches nothing else.
    pub fn rewind(&mut self)
        ensures
            final(self)@ == (Machine { pc: 0, ..old(self)@ }),
    {
        self.pc = 0;
    }

    /// The host, to inspect or to change.
    pub fn get_env(&mut self) -> (env: &mut E)
        ensures
            *env == old(self)@.host,
            final(self)@ == (Machine { host: *final(env), ..old(self)@ }),
    {
        &mut self.env
    }

    /// The register file, to inspect or to change.
    pub fn get_reg(&mut self) -> (reg: &mut [i32; 8])
        ensures
            reg@ == old(self)@.reg,
            final(self)@ == (Machine { reg: final(reg)@, ..old(self)@ }),
    {
        &mut self.reg
    }

    /// The value of register `r`.
    pub fn reg(&self, r: Reg) -> (val: i32)
        ensures
            val == reg_val(self@.reg, r),
    {
        self.reg[r.index()]
    }

    /// The index of the next instruction.
    pub fn pc(&self) -> (pc: usize)
        ensures
            pc == self@.pc,
    {
        self.pc
    }

    /// The host, to look at.
    pub fn env(&self) -> (env: &E)
        ensures
            *env == self@.host,
    {
        &self.env
    }

    /// The program counter, to inspect or to change.
    pub fn get_pc(&mut self) -> (pc: &mut usize)
        ensures
            *pc == old(self)@.pc,
            final(self)@ == (Machine { pc: *final(pc) as nat, ..old(self)@ }),
    {
        &mut self.pc
    }

    /// Checks `prog`, resets the machine, hands the data segment to the host
    /// and installs the instructions.
    pub fn load(&mut self, prog: &'prog [u8]) -> (res: Result<(), VMError>)
        ensures
            load_rel(old(self)@, prog@, final(self)@, res),
    {
        if prog.len() < 4 || prog[0] != 0xaf || prog[1] != 0xaf {
            return Err(VMError::InvalidProg);
        }
        let ram_end = read_u16(&prog[2..4]) as usize + 4;
        if ram_end > prog.len() || (prog.len() - ram_end) % 4 != 0 {
            return Err(VMError::InvalidProg);
        }
        self.reset();
        let ghost fresh = self.env;
        if ram_end > 4 {
            match self.env.mem_set(0, &prog[4..ram_end]) {
                Ok(_) => {},
                Err(_) => {
                    return Err(VMError::HostFault);
                },
            }
        }
        self.prog = Some(&prog[ram_end..prog.len()]);
        assert(old(self)@.host.reset_spec(&fresh));
        Ok(())
    }

    /// The instruction at the program counter.
    pub fn get_active_instruction(&self) -> (res: Result<Instruction, VMError>)
        ensures
            res == fetched(self@.code, self@.pc),
            res matches Ok(inst) ==> inst.opcode is halt || self@.pc < usize::MAX,
    {
        let prog = match self.prog {
            Some(prog) => prog,
            None => {
                return Err(VMError::EmptyProg);
            },
        };
        if self.pc >= prog.len() / 4 {
            return Ok(Instruction::new(Opcode::halt, Reg::zero, Reg::zero, Reg::zero, 0));
        }
        let offset = self.pc * 4;
        let word = read_u32(&prog[offset..offset + 4]);
        match Instruction::parse(word) {
            Ok(inst) => Ok(inst),
            Err(_) => Err(VMError::InvalidProg),
        }
    }

    /// Sets the program counter to the value of register `r` plus `offset`.
    pub fn jump(&mut self, r: Reg, offset: i16)
        ensures
            final(self)@ == (Machine {
                pc: branch_target(reg_val(old(self)@.reg, r), offset),
                ..old(self)@
            }),
    {
        let base = self.reg[r.index()];
        let sum: i64 = base as i64 + offset as i64 + 0x1_0000_0000;
        let target: u64 = (sum as u64) % 0x1_0000_0000;
        self.pc = target as usize;
    }

    /// The value that a computing instruction leaves in `r1`; 0 for any other
    /// instruction.
    pub fn compute(&self, inst: Instruction) -> (val: i32)
        ensures
            val == computed(inst, self@.reg),
    {
        let a = self.reg[inst.r2.index()];
        let b = self.reg[inst.r3.index()];
        let imm = inst.imm as i32;
        match inst.opcode {
            Opcode::addi => add32(a, imm),
            Opcode::ori => a | imm,
            Opcode::xori => a ^ imm,
            Opcode::andi => a & imm,
            Opcode::slli => a << shift_of(imm),
            Opcode::srli => a >> shift_of(imm),
            Opcode::add => add32(a, b),
            Opcode::and => a & b,
            Opcode::mul => mul32(a, b),
            Opcode::muli => mul32(a, imm),
            Opcode::or => a | b,
            Opcode::sub => sub32(a, b),
            Opcode::xor => a ^ b,
            Opcode::slt => if a < b {
                1
            } else {
                0
            },
            Opcode::sltu => if to_u32(a) < to_u32(b) {
                1
            } else {
                0
            },
            Opcode::sltiu => if to_u32(a) < to_u32(imm) {
                1
            } else {
                0
            },
            Opcode::srl => to_i32(to_u32(a) >> shift_of(b)),
            Opcode::sll => a << shift_of(b),
            Opcode::sra => a >> shift_of(b),
            Opcode::lui => (self.reg[inst.r1.index()] & 0xffff) | (imm << 16u32),
            Opcode::la => add32(b, imm),
            _ => 0,
        }
    }

    /// Whether the conditional branch `inst` is taken; `false` for any other
    /// instruction.
    pub fn branches(&self, inst: Instruction) -> (taken: bool)
        ensures
            taken == branch_taken(
                inst.opcode,
                reg_val(self@.reg, inst.r1),
                reg_val(self@.reg, inst.r2),
            ),
    {
        let a = self.reg[inst.r1.index()];
        let b = self.reg[inst.r2.index()];
        match inst.opcode {
            Opcode::beq => a == b,
            Opcode::bne => a != b,
            Opcode::bge => a >= b,
            Opcode::bgeu => to_u32(a) >= to_u32(b),
            Opcode::blt => a < b,
            Opcode::bltu => to_u32(a) < to_u32(b),
            _ => false,
        }
    }

    /// Hands the bytes of the store `inst` to the host.
    fn store(&mut self, inst: Instruction) -> (res: Result<(), VMError>)
        requires
            is_store(inst.opcode),
        ensures
            old(self)@.host.mem_set_spec(
                mem_addr(reg_val(old(self)@.reg, inst.r3), inst.imm),
                store_bytes(inst.opcode, reg_val(old(self)@.reg, inst.r1)),
                &final(self)@.host,
                res is Ok,
            ),
            final(self)@ == (Machine { host: final(self)@.host, ..old(self)@ }),
            res matches Err(e) ==> e == VMError::HostFault,
    {
        let addr = address(self.reg[inst.r3.index()], inst.imm);
        let val = self.reg[inst.r1.index()];
        let res = match inst.opcode {
            Opcode::sb => {
                let buf = [low_byte(val)];
                assert(buf@ =~= store_bytes(Opcode::sb, val));
                self.env.mem_set(addr, &buf)
            },
            Opcode::sh => {
                let buf = half_bytes(val);
                self.env.mem_set(addr, &buf)
            },
            _ => {
                let buf = word_bytes(val);
                self.env.mem_set(addr, &buf)
            },
        };
        match res {
            Ok(_) => Ok(()),
            Err(_) => Err(VMError::HostFault),
        }
    }

    /// Asks the host for the bytes of the load `inst` and makes the register
    /// value of them.
    fn fetch(&self, inst: Instruction) -> (res: Result<i32, VMError>)
        requires
            is_load(inst.opcode),
        ensures
            exists|out: Seq<u8>|
                {
                    &&& out.len() == load_len(inst.opcode)
                    &&& #[trigger] self@.host.mem_fetch_spec(
                        mem_addr(reg_val(self@.reg, inst.r3), inst.imm),
                        zero_bytes(load_len(inst.opcode)),
                        out,
                        res is Ok,
                    )
                    &&& res matches Ok(val) ==> val == load_value(inst.opcode, out)
                },
            res matches Err(e) ==> e == VMError::HostFault,
    {
        let addr = address(self.reg[inst.r3.index()], inst.imm);
        let ghost out: Seq<u8>;
        let res = match inst.opcode {
            Opcode::lb | Opcode::lbu => {
                let mut buf = [0u8];
                assert(buf@ =~= zero_bytes(1));
                let got = self.env.mem_fetch(addr, &mut buf);
                proof {
                    out = buf@;
                }
                let byte = buf[0];
                match got {
                    Ok(_) => match inst.opcode {
                        Opcode::lb => if byte >= 0x80 {
                            Ok(byte as i32 - 0x100)
                        } else {
                            Ok(byte as i32)
                        },
                        _ => Ok(byte as i32),
                    },
                    Err(_) => Err(VMError::HostFault),
                }
            },
            Opcode::lh | Opcode::lhu => {
                let mut buf = [0u8, 0u8];
                assert(buf@ =~= zero_bytes(2));
                let got = self.env.mem_fetch(addr, &mut buf);
                proof {
                    out = buf@;
                }
                match got {
                    Ok(_) => match inst.opcode {
                        Opcode::lh => Ok(read_i16(&buf) as i32),
                        _ => Ok(read_u16(&buf) as i32),
                    },
                    Err(_) => Err(VMError::HostFault),
                }
            },
            _ => {
                let mut buf = [0u8, 0u8, 0u8, 0u8];
                assert(buf@ =~= zero_bytes(4));
                let got = self.env.mem_fetch(addr, &mut buf);
                proof {
                    out = buf@;
                }
                match got {
                    Ok(_) => Ok(read_i32(&buf)),
                    Err(_) => Err(VMError::HostFault),
                }
            },
        };
        assert(out.len() == load_len(inst.opcode));
        assert(self@.host.mem_fetch_spec(
            mem_addr(reg_val(self@.reg, inst.r3), inst.imm),
            zero_bytes(load_len(inst.opcode)),
            out,
            res is Ok,
        ));
        assert(res matches Ok(val) ==> val == load_value(inst.opcode, out));
        res
    }

    /// Moves on by one instruction and writes `val`, if there is one, to
    /// `r1`. A write to register 0 is dropped.
    fn commit(&mut self, r1: Reg, val: Option<i32>)
        requires
            old(self)@.pc < usize::MAX,
        ensures
            final(self)@ == (Machine {
                pc: old(self)@.pc + 1,
                reg: match val {
                    Some(v) => write_reg(old(self)@.reg, r1, v),
                    None => old(self)@.reg,
                },
                ..old(self)@
            }),
    {
        self.pc += 1;
        let r = r1.index();
        if let Some(v) = val {
            if r > 0 {
                self.reg[r] = v;
            }
        }
    }

    /// Decodes and executes the instruction at the program counter. `Ok(true)`
    /// says that the machine has halted, `Ok(false)` that it runs on.
    pub fn step(&mut self) -> (res: Result<bool, VMError>)
        ensures
            step_rel(old(self)@, final(self)@, res),
    {
        let ghost pre = self@;
        let inst = match self.get_active_instruction() {
            Ok(inst) => inst,
            Err(err) => {
                proof {
                    lemma_step_still(pre, Err::<bool, VMError>(err));
                }
                return Err(err);
            },
        };
        match inst.opcode {
            Opcode::halt => {
                proof {
                    lemma_step_still(pre, Ok::<bool, VMError>(true));
                }
                Ok(true)
            },
            Opcode::ecall => {
                let got = self.env.ecall(inst.imm as i32, self.reg[inst.r3.index()]);
                match got {
                    Ok(val) => {
                        self.commit(inst.r1, Some(val));
                        proof {
                            lemma_step_ecall(
                                pre,
                                self@,
                                inst,
                                Ok::<bool, VMError>(false),
                                Some(val),
                            );
                        }
                        Ok(false)
                    },
                    Err(_) => {
                        proof {
                            lemma_step_ecall(
                                pre,
                                self@,
                                inst,
                                Err::<bool, VMError>(VMError::HostFault),
                                None,
                            );
                        }
                        Err(VMError::HostFault)
                    },
                }
            },
            Opcode::jal => {
                let next: u64 = (self.pc as u64 + 1) % 0x1_0000_0000;
                self.reg[1] = to_i32(next as u32);
                self.jump(inst.r3, inst.imm);
                proof {
                    lemma_step_jal(pre, self@, inst);
                }
                Ok(false)
            },
            Opcode::beq
            | Opcode::bne
            | Opcode::bge
            | Opcode::bgeu
            | Opcode::blt
            | Opcode::bltu => {
                if self.branches(inst) {
                    self.jump(inst.r3, inst.imm);
                } else {
                    self.commit(inst.r1, None);
                }
                proof {
                    lemma_step_plain(pre, self@, inst);
                }
                Ok(false)
            },
            Opcode::sb | Opcode::sh | Opcode::sw => {
                match self.store(inst) {
                    Ok(_) => {
                        self.commit(inst.r1, None);
                        proof {
                            lemma_step_store(pre, self@, inst, Ok::<bool, VMError>(false));
                        }
                        Ok(false)
                    },
                    Err(err) => {
                        proof {
                            lemma_step_store(pre, self@, inst, Err::<bool, VMError>(err));
                        }
                        Err(err)
                    },
                }
            },
            Opcode::lb | Opcode::lbu | Opcode::lh | Opcode::lhu | Opcode::lw => {
                let got = self.fetch(inst);
                let ghost out = choose|out: Seq<u8>|
                    {
                        &&& out.len() == load_len(inst.opcode)
                        &&& #[trigger] pre.host.mem_fetch_spec(
                            mem_addr(reg_val(pre.reg, inst.r3), inst.imm),
                            zero_bytes(load_len(inst.opcode)),
                            out,
                            got is Ok,
                        )
                        &&& got matches Ok(val) ==> val == load_value(inst.opcode, out)
                    };
                match got {
                    Ok(val) => {
                        self.commit(inst.r1, Some(val));
                        proof {
                            lemma_step_load(pre, self@, inst, Ok::<bool, VMError>(false), out);
                        }
                        Ok(false)
                    },
                    Err(err) => {
                        proof {
                            lemma_step_load(pre, self@, inst, Err::<bool, VMError>(err), out);
                        }
                        Err(err)
                    },
                }
            },
            _ => {
                let val = self.compute(inst);
                self.commit(inst.r1, Some(val));
                proof {
                    lemma_step_plain(pre, self@, inst);
                }
                Ok(false)
            },
        }
    }

    /// Steps until the machine halts or a step fails, but no more than
    /// `limit` times: a program that has not halted by then is given up with
    /// `StepLimit`.
    pub fn spin_for(&mut self, limit: u64) -> (res: Result<(), VMError>)
        ensures
            spin_within(old(self)@, final(self)@, res, limit as nat),
    {
        let ghost mut trace = seq![self@];
        let mut steps: u64 = 0;
        while steps < limit
            invariant
                steps <= limit,
                trace.len() == steps + 1,
                trace[0] == old(self)@,
                trace.last() == self@,
                is_run(trace),
            decreases limit - steps,
        {
            let ghost last = self@;
            match self.step() {
                Ok(true) => {
                    return Ok(());
                },
                Err(err) => {
                    proof {
                        lemma_step_errors(last, self@, err);
                    }
                    return Err(err);
                },
                _ => {},
            }
            proof {
                trace = trace.push(self@);
            }
            steps += 1;
        }
        Err(VMError::StepLimit)
    }

    /// Steps until the machine halts or a step fails. A program that has not
    /// halted after [`STEP_LIMIT`] steps is given up with `StepLimit`.
    pub fn spin(&mut self) -> (res: Result<(), VMError>)
        ensures
            spin_rel(old(self)@, final(self)@, res),
    {
        self.spin_for(STEP_LIMIT)
    }

    /// Runs the image once more from its first instruction: `rewind`, then
    /// `spin`.
    pub fn respin(&mut self) -> (res: Result<(), VMError>)
        ensures
            spin_rel((Machine { pc: 0, ..old(self)@ }), final(self)@, res),
    {
        self.rewind();
        self.spin()
    }
}

/// Register 0 is never written: after any step, whatever its instruction and
/// however it ends, register 0 holds what it held before. The other
/// registers are still eight.
pub proof fn lemma_register_zero_kept<E: Env>(
    pre: Machine<E>,
    post: Machine<E>,
    res: Result<bool, VMError>,
)
    requires
        step_rel(pre, post, res),
        pre.reg.len() == 8,
    ensures
        post.reg.len() == 8,
        post.reg[0] == pre.reg[0],
{
    reveal(step_rel);
}

/// An instruction whose destination is register 0 leaves every register as
/// it was, unless it is `jal`, which writes `ra`.
pub proof fn lemma_zero_destination<E: Env>(
    pre: Machine<E>,
    post: Machine<E>,
    res: Result<bool, VMError>,
    inst: Instruction,
)
    requires
        step_rel(pre, post, res),
        fetched(pre.code, pre.pc) == Ok::<Instruction, VMError>(inst),
        inst.r1 is zero,
        !(inst.opcode is jal),
    ensures
        post.reg == pre.reg,
{
    reveal(step_rel);
}

/// A step that runs on and is neither a branch nor `jal` moves the program
/// counter on by exactly one.
pub proof fn lemma_pc_advances<E: Env>(pre: Machine<E>, post: Machine<E>, inst: Instruction)
    requires
        step_rel(pre, post, Ok::<bool, VMError>(false)),
        fetched(pre.code, pre.pc) == Ok::<Instruction, VMError>(inst),
        !is_branch(inst.opcode),
        !(inst.opcode is jal),
    ensures
        post.pc == pre.pc + 1,
{
    reveal(step_rel);
}

/// A conditional branch never fails and touches neither a register nor the
/// host. Taken, it sets the program counter to the base register plus the
/// immediate; not taken, it moves on by one.
pub proof fn lemma_branch<E: Env>(
    pre: Machine<E>,
    post: Machine<E>,
    res: Result<bool, VMError>,
    inst: Instruction,
)
    requires
        step_rel(pre, post, res),
        fetched(pre.code, pre.pc) == Ok::<Instruction, VMError>(inst),
        is_branch(inst.opcode),
    ensures
        res == Ok::<bool, VMError>(false),
        post.reg == pre.reg,
        post.host == pre.host,
        post.code == pre.code,
        branch_taken(inst.opcode, reg_val(pre.reg, inst.r1), reg_val(pre.reg, inst.r2))
            ==> post.pc == branch_target(reg_val(pre.reg, inst.r3), inst.imm),
        !branch_taken(inst.opcode, reg_val(pre.reg, inst.r1), reg_val(pre.reg, inst.r2))
            ==> post.pc == pre.pc + 1,
{
    reveal(step_rel);
}

/// `jal` writes the index of the next instruction to `ra` and nothing else,
/// and then jumps to the base register plus the immediate; a base register
/// `ra` is read after it is written.
pub proof fn lemma_jal<E: Env>(
    pre: Machine<E>,
    post: Machine<E>,
    res: Result<bool, VMError>,
    inst: Instruction,
)
    requires
        step_rel(pre, post, res),
        fetched(pre.code, pre.pc) == Ok::<Instruction, VMError>(inst),
        inst.opcode is jal,
    ensures
        res == Ok::<bool, VMError>(false),
        post.reg == pre.reg.update(1, wrap32(pre.pc as int + 1)),
        post.pc == branch_target(reg_val(post.reg, inst.r3), inst.imm),
        post.host == pre.host,
        post.code == pre.code,
{
    reveal(step_rel);
}

/// A branch target is the sum of base and immediate where that sum is an
/// index of 32 bits, and the sum plus 2^32 where it is negative.
pub proof fn lemma_branch_target(base: i32, imm: i16)
    ensures
        0 <= base + imm < 0x1_0000_0000 ==> branch_target(base, imm) == base + imm,
        base + imm < 0 ==> branch_target(base, imm) == base + imm + 0x1_0000_0000,
{
}

/// `lb` and `lh` extend the sign: a byte or a half whose top bit is set
/// becomes the negative number with the same two's-complement bits. `lbu`
/// and `lhu` give the byte or the half itself, which is not negative.
pub proof fn lemma_sign_extension(bytes: Seq<u8>)
    requires
        bytes.len() >= 2,
    ensures
        bytes[0] >= 0x80 ==> load_value(Opcode::lb, bytes) == bytes[0] - 0x100,
        bytes[0] < 0x80 ==> load_value(Opcode::lb, bytes) == bytes[0],
        load_value(Opcode::lbu, bytes) == bytes[0],
        bytes[0] >= 0x80 ==> load_value(Opcode::lh, bytes) == be16(bytes) - 0x1_0000,
        bytes[0] < 0x80 ==> load_value(Opcode::lh, bytes) == be16(bytes),
        load_value(Opcode::lhu, bytes) == be16(bytes),
        bytes[0] >= 0x80 <==> load_value(Opcode::lb, bytes) < 0,
        bytes[0] >= 0x80 <==> load_value(Opcode::lh, bytes) < 0,
        load_value(Opcode::lbu, bytes) >= 0,
        load_value(Opcode::lhu, bytes) >= 0,
{
}

/// Memory is big-endian: the first byte that `sw` stores is the most
/// significant byte of the register, so `lbu` of what `sw` stored reads the
/// top eight bits. What `sw`, `sh` and `sb` store, `lw`, `lh` and `lb` read
/// back as the register, its low half and its low byte, sign extended.
pub proof fn lemma_store_then_load(v: i32)
    ensures
        load_value(Opcode::lbu, store_bytes(Opcode::sw, v)) == unsigned32(v) / 0x100_0000,
        load_value(Opcode::lw, store_bytes(Opcode::sw, v)) == v,
        load_value(Opcode::lh, store_bytes(Opcode::sh, v)) == signed16(v as int),
        load_value(Opcode::lhu, store_bytes(Opcode::sh, v)) == v as int % 0x1_0000,
        load_value(Opcode::lbu, store_bytes(Opcode::sb, v)) == v as int % 0x100,
        store_bytes(Opcode::sb, v).len() == load_len(Opcode::lb),
        store_bytes(Opcode::sh, v).len() == load_len(Opcode::lh),
        store_bytes(Opcode::sw, v).len() == load_len(Opcode::lw),
{
    let x = v as int;
    lemma_be32_low(x);
    lemma_be16_low(x);
    assert(x % 0x1_0000_0000 == unsigned32(v));
    assert(be32_bytes(unsigned32(v))[0] as int == unsigned32(v) / 0x100_0000);
}

} // verus!
