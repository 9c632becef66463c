//! Tracing: a host that is nothing but a block of memory, and a stepper that
//! runs an image on it a number of times, one instruction at a call, so that
//! a driver can show the machine between the steps.

use crate::compiler::{assembled, gathered, lemma_image_round_trip};
use crate::isa::{Instruction, Opcode};
use crate::parser::ExpView;
use crate::vm::{
    address, data_len, fetched, image_code, image_data, is_load, is_store, lemma_store_then_load,
    load_len, mem_addr, reg_val, step_rel, store_bytes, stored, unsigned32, valid_image,
    zero_bytes, zero_regs, Env, Machine, VMError, VM,
};
use crate::Error;
use vstd::prelude::*;

verus! {

/// Addresses from here on are not memory: a store there is dropped and a
/// fetch there leaves the buffer as it was.
pub const MAPPED: u16 = 0x1000;

/// The tracing host: memory from address 0 up, as long as was asked for.
pub struct Environment {
    /// Whether the driver is to show each access to memory.
    pub trace_memory: bool,
    /// The memory.
    pub ram: Vec<u8>,
}

impl Environment {
    /// A host with `ram_size` bytes of memory, all zero.
    pub fn new(ram_size: u16, trace_memory: bool) -> (env: Self)
        ensures
            env.trace_memory == trace_memory,
            env.ram@ == zero_bytes(ram_size as nat),
    {
        Environment { trace_memory, ram: zeroed(ram_size as usize) }
    }
}

/// `len` zero bytes.
fn zeroed(len: usize) -> (bytes: Vec<u8>)
    ensures
        bytes@ == zero_bytes(len as nat),
{
    let mut bytes: Vec<u8> = Vec::new();
    let mut i: usize = 0;
    while i < len
        invariant
            i <= len,
            bytes@ == zero_bytes(i as nat),
        decreases len - i,
    {
        bytes.push(0);
        i += 1;
        assert(bytes@ =~= zero_bytes(i as nat));
    }
    bytes
}

/// Memory `ram` with `val` written over it from `addr` on.
pub open spec fn overwritten(ram: Seq<u8>, addr: int, val: Seq<u8>) -> Seq<u8> {
    Seq::new(
        ram.len(),
        |i: int|
            if addr <= i < addr + val.len() {
                val[i - addr]
            } else {
                ram[i]
            },
    )
}

impl Env for Environment {
    type Error = ();

    /// A reset zeroes the memory and keeps its length.
    open spec fn reset_spec(&self, post: &Self) -> bool {
        &&& post.trace_memory == self.trace_memory
        &&& post.ram@ == zero_bytes(self.ram@.len())
    }

    /// A store that fits the memory is written; one that does not fails and
    /// writes nothing; one to a mapped address succeeds and writes nothing.
    open spec fn mem_set_spec(&self, addr: u16, val: Seq<u8>, post: &Self, ok: bool) -> bool {
        &&& post.trace_memory == self.trace_memory
        &&& ok == (addr >= MAPPED || addr + val.len() <= self.ram@.len())
        &&& post.ram@ == if addr < MAPPED && ok {
            overwritten(self.ram@, addr as int, val)
        } else {
            self.ram@
        }
    }

    /// A fetch that fits the memory fills the buffer; one that does not
    /// fails; one from a mapped address succeeds. The last two leave the
    /// buffer as it was.
    open spec fn mem_fetch_spec(&self, addr: u16, buf: Seq<u8>, out: Seq<u8>, ok: bool) -> bool {
        &&& ok == (addr >= MAPPED || addr + buf.len() <= self.ram@.len())
        &&& out == if addr < MAPPED && ok {
            self.ram@.subrange(addr as int, addr + buf.len())
        } else {
            buf
        }
    }

    /// An environment call does nothing and answers 0.
    open spec fn ecall_spec(&self, ecall: i32, param: i32, post: &Self, ret: Option<i32>) -> bool {
        *post == *self && ret == Some(0i32)
    }

    fn reset(&mut self) {
        self.ram = zeroed(self.ram.len());
    }

    fn mem_set(&mut self, addr: u16, val: &[u8]) -> (res: Result<(), Self::Error>) {
        let offset = addr as usize;
        if addr >= MAPPED {
            return Ok(());
        }
        if val.len() > self.ram.len() || offset > self.ram.len() - val.len() {
            return Err(());
        }
        let mut i: usize = 0;
        while i < val.len()
            invariant
                i <= val.len(),
                offset + val.len() <= self.ram.len(),
                self.trace_memory == old(self).trace_memory,
                self.ram@ == overwritten(old(self).ram@, offset as int, val@.take(i as int)),
            decreases val.len() - i,
        {
            self.ram[offset + i] = val[i];
            i += 1;
            assert(self.ram@ =~= overwritten(old(self).ram@, offset as int, val@.take(i as int)));
        }
        assert(val@.take(val.len() as int) =~= val@);
        Ok(())
    }

    fn mem_fetch(&self, addr: u16, buf: &mut [u8]) -> (res: Result<(), Self::Error>) {
        let offset = addr as usize;
        if addr >= MAPPED {
            return Ok(());
        }
        if buf.len() > self.ram.len() || offset > self.ram.len() - buf.len() {
            return Err(());
        }
        let len = buf.len();
        let mut i: usize = 0;
        while i < len
            invariant
                i <= len,
                len == buf@.len(),
                len == old(buf)@.len(),
                offset + len <= self.ram.len(),
                forall|j: int| 0 <= j < i ==> buf@[j] == self.ram@[offset + j],
            decreases len - i,
        {
            buf[i] = self.ram[offset + i];
            i += 1;
        }
        assert(buf@ =~= self.ram@.subrange(addr as int, addr + len));
        Ok(())
    }

    fn ecall(&mut self, ecall: i32, param: i32) -> (res: Result<i32, Self::Error>) {
        Ok(0)
    }
}

/// What the next step will ask of the host.
#[derive(Debug, PartialEq, Eq)]
pub enum Access {
    /// Nothing.
    Quiet,
    /// A fetch of so many bytes from an address.
    Fetch(u16, usize),
    /// A store of bytes to an address.
    Store(u16, Vec<u8>),
    /// An environment call with its number and its parameter.
    Ecall(i32, i32),
}

/// What one call of `advance` did.
#[derive(Debug, Clone, Copy, PartialEq, Eq, Structural)]
pub enum Progress {
    /// Nothing: no spin is left.
    Idle,
    /// One instruction.
    Stepped,
    /// One instruction, and with it the quota of instructions is used up.
    Quota,
    /// The program halted. One spin is used up and the machine is rewound.
    Halted,
}

/// A trace as the contracts see it.
pub ghost struct TraceView {
    /// The machine.
    pub vm: Machine<Environment>,
    /// The quota of instructions over all spins, if there is one.
    pub max_ops: Option<u32>,
    /// The number of runs that are still to be made.
    pub spins: u16,
    /// The number of instructions executed so far. It stops counting at
    /// `u32::MAX`.
    pub ops: u32,
}

/// A stepper that runs an image `spins` times on a tracing host.
pub struct Trace<'input> {
    vm: VM<'input, Environment>,
    max_ops: Option<u32>,
    spins: u16,
    ops: u32,
}

impl<'input> View for Trace<'input> {
    type V = TraceView;

    closed spec fn view(&self) -> TraceView {
        TraceView { vm: self.vm@, max_ops: self.max_ops, spins: self.spins, ops: self.ops }
    }
}

/// One call of `advance`, from `pre` to `post` with the result `res`.
///
/// With no spin left nothing happens. Otherwise the machine makes one step.
/// A failed step is passed on. A halt uses up a spin and rewinds the
/// machine. Any other step is counted, and the result says whether the quota
/// is now used up.
pub open spec fn advance_rel(
    pre: TraceView,
    post: TraceView,
    res: Result<Progress, VMError>,
) -> bool {
    if pre.spins == 0 {
        post == pre && res == Ok::<Progress, VMError>(Progress::Idle)
    } else {
        match res {
            Err(e) => {
                &&& step_rel(pre.vm, post.vm, Err::<bool, VMError>(e))
                &&& post == (TraceView { vm: post.vm, ..pre })
            },
            Ok(Progress::Halted) => {
                &&& step_rel(pre.vm, pre.vm, Ok::<bool, VMError>(true))
                &&& post == (TraceView {
                    vm: Machine { pc: 0, ..pre.vm },
                    spins: (pre.spins - 1) as u16,
                    ..pre
                })
            },
            Ok(progress) => {
                &&& step_rel(pre.vm, post.vm, Ok::<bool, VMError>(false))
                &&& post == (TraceView {
                    vm: post.vm,
                    ops: if pre.ops < u32::MAX {
                        (pre.ops + 1) as u32
                    } else {
                        pre.ops
                    },
                    ..pre
                })
                &&& progress == if post.max_ops matches Some(max) && post.ops >= max {
                    Progress::Quota
                } else {
                    Progress::Stepped
                }
            },
        }
    }
}

/// A halting step changes nothing.
proof fn lemma_halt_keeps<E: Env>(pre: Machine<E>, post: Machine<E>)
    requires
        step_rel(pre, post, Ok::<bool, VMError>(true)),
    ensures
        post == pre,
{
    reveal(step_rel);
}

impl<'input> Trace<'input> {
    /// A trace of `bytecode` on a host with `ram_size` bytes of memory.
    ///
    /// It fails with `InvalidProg` on an image that is not valid, and with
    /// `HostFault` on a data segment that is longer than the memory.
    pub fn new(
        spins: u16,
        max_ops: Option<u32>,
        ram_size: u16,
        trace_memory: bool,
        bytecode: &'input [u8],
    ) -> (res: Result<Self, VMError>)
        ensures
            match res {
                Ok(trace) => {
                    &&& valid_image(bytecode@)
                    &&& data_len(bytecode@) <= ram_size
                    &&& trace@.spins == spins
                    &&& trace@.max_ops == max_ops
                    &&& trace@.ops == 0
                    &&& trace@.vm.pc == 0
                    &&& trace@.vm.reg == zero_regs()
                    &&& trace@.vm.code == Some(image_code(bytecode@))
                    &&& trace@.vm.host.trace_memory == trace_memory
                    &&& trace@.vm.host.ram@ == overwritten(
                        zero_bytes(ram_size as nat),
                        0,
                        image_data(bytecode@),
                    )
                },
                Err(e) => if valid_image(bytecode@) {
                    e == VMError::HostFault && data_len(bytecode@) > ram_size
                } else {
                    e == VMError::InvalidProg
                },
            },
    {
        let mut vm = VM::new(Environment::new(ram_size, trace_memory));
        match vm.load(bytecode) {
            Ok(_) => {},
            Err(err) => {
                return Err(err);
            },
        }
        assert(vm@.host.ram@ =~= overwritten(
            zero_bytes(ram_size as nat),
            0,
            image_data(bytecode@),
        ));
        Ok(Trace { vm, spins, max_ops, ops: 0 })
    }

    /// The number of runs that are still to be made.
    pub fn spins(&self) -> (spins: u16)
        ensures
            spins == self@.spins,
    {
        self.spins
    }

    /// The number of instructions executed so far.
    pub fn ops(&self) -> (ops: u32)
        ensures
            ops == self@.ops,
    {
        self.ops
    }

    /// The machine, to look at.
    pub fn vm(&self) -> (vm: &VM<'input, Environment>)
        ensures
            vm@ == self@.vm,
    {
        &self.vm
    }

    /// What the next step will ask of the host.
    pub fn access(&self) -> (access: Access)
        ensures
            match fetched(self@.vm.code, self@.vm.pc) {
                Err(_) => access is Quiet,
                Ok(inst) => {
                    let addr = mem_addr(reg_val(self@.vm.reg, inst.r3), inst.imm);
                    if is_load(inst.opcode) {
                        access matches Access::Fetch(a, len) && a == addr && len == load_len(
                            inst.opcode,
                        )
                    } else if is_store(inst.opcode) {
                        access matches Access::Store(a, bytes) && a == addr && bytes@ == store_bytes(
                            inst.opcode,
                            reg_val(self@.vm.reg, inst.r1),
                        )
                    } else if inst.opcode is ecall {
                        access == Access::Ecall(inst.imm as i32, reg_val(self@.vm.reg, inst.r3))
                    } else {
                        access is Quiet
                    }
                },
            },
    {
        let inst = match self.vm.get_active_instruction() {
            Ok(inst) => inst,
            Err(_) => {
                return Access::Quiet;
            },
        };
        let addr = address(self.vm.reg(inst.r3), inst.imm);
        match inst.opcode {
            Opcode::lb | Opcode::lbu => Access::Fetch(addr, 1),
            Opcode::lh | Opcode::lhu => Access::Fetch(addr, 2),
            Opcode::lw => Access::Fetch(addr, 4),
            Opcode::sb | Opcode::sh | Opcode::sw => Access::Store(
                addr,
                stored(inst.opcode, self.vm.reg(inst.r1)),
            ),
            Opcode::ecall => Access::Ecall(inst.imm as i32, self.vm.reg(inst.r3)),
            _ => Access::Quiet,
        }
    }

    /// Makes one step of the trace.
    pub fn advance(&mut self) -> (res: Result<Progress, VMError>)
        ensures
            advance_rel(old(self)@, final(self)@, res),
    {
        if self.spins == 0 {
            return Ok(Progress::Idle);
        }
        let ghost before = self.vm@;
        match self.vm.step() {
            Ok(true) => {
                proof {
                    lemma_halt_keeps(before, self.vm@);
                }
                self.spins -= 1;
                self.vm.rewind();
                Ok(Progress::Halted)
            },
            Ok(false) => {
                if self.ops < u32::MAX {
                    self.ops += 1;
                }
                if let Some(max_ops) = self.max_ops {
                    if self.ops >= max_ops {
                        return Ok(Progress::Quota);
                    }
                }
                Ok(Progress::Stepped)
            },
            Err(err) => Err(err),
        }
    }
}

/// On the tracing host a loaded image's data segment is in memory from
/// address 0 on, byte for byte, and the rest of the memory is zero.
pub proof fn lemma_data_installed(ram_size: nat, data: Seq<u8>)
    requires
        data.len() <= ram_size,
    ensures
        overwritten(zero_bytes(ram_size), 0, data).subrange(0, data.len() as int) == data,
        overwritten(zero_bytes(ram_size), 0, data).subrange(data.len() as int, ram_size as int)
            == zero_bytes((ram_size - data.len()) as nat),
{
    let ram = overwritten(zero_bytes(ram_size), 0, data);
    assert(ram.subrange(0, data.len() as int) =~= data);
    assert(ram.subrange(data.len() as int, ram_size as int) =~= zero_bytes(
        (ram_size - data.len()) as nat,
    ));
}

/// On the tracing host a fetch reads what a store wrote: after `val` is
/// stored at an address where it fits, a fetch of as many bytes from that
/// address gives `val`.
pub proof fn lemma_fetch_after_set(
    pre: Environment,
    post: Environment,
    addr: u16,
    val: Seq<u8>,
    buf: Seq<u8>,
    out: Seq<u8>,
)
    requires
        addr < MAPPED,
        addr + val.len() <= pre.ram@.len(),
        buf.len() == val.len(),
        pre.mem_set_spec(addr, val, &post, true),
        post.mem_fetch_spec(addr, buf, out, true),
    ensures
        out == val,
{
    assert(out =~= val);
}

/// An assembled program that is loaded on the tracing host leaves the host's
/// memory holding the assembled data segment from address 0 on, byte for
/// byte.
///
/// This holds of a program with at least one instruction whose data segment
/// fits the memory and is shorter than 2^16 bytes.
pub proof fn lemma_assembled_data_loaded(
    exprs: Seq<ExpView>,
    files: Seq<(Seq<char>, Seq<u8>)>,
    image: Seq<u8>,
    ram_size: nat,
)
    requires
        assembled(exprs, files) == Ok::<Seq<u8>, Error>(image),
        gathered(exprs, files, exprs.len()).code.len() > 0,
        gathered(exprs, files, exprs.len()).data.len() < 0x1_0000,
        gathered(exprs, files, exprs.len()).data.len() <= ram_size,
    ensures
        valid_image(image),
        data_len(image) <= ram_size,
        overwritten(zero_bytes(ram_size), 0, image_data(image)).subrange(
            0,
            gathered(exprs, files, exprs.len()).data.len() as int,
        ) == gathered(exprs, files, exprs.len()).data,
{
    lemma_image_round_trip(exprs, files, image);
    lemma_data_installed(ram_size, image_data(image));
}

/// On the tracing host memory is big-endian as the machine sees it: a `sw`
/// that succeeds, followed by a `lbu` from the same base and offset, leaves
/// in the destination of the `lbu` the top eight bits of the register that
/// the `sw` stored.
pub proof fn lemma_word_then_byte(
    start: Machine<Environment>,
    middle: Machine<Environment>,
    loaded: Machine<Environment>,
    res: Result<bool, VMError>,
    sw: Instruction,
    lbu: Instruction,
)
    requires
        start.reg.len() == 8,
        fetched(start.code, start.pc) == Ok::<Instruction, VMError>(sw),
        sw.opcode is sw,
        step_rel(start, middle, Ok::<bool, VMError>(false)),
        fetched(middle.code, middle.pc) == Ok::<Instruction, VMError>(lbu),
        lbu.opcode is lbu,
        lbu.r3 == sw.r3,
        lbu.imm == sw.imm,
        !(lbu.r1 is zero),
        mem_addr(reg_val(start.reg, sw.r3), sw.imm) < MAPPED,
        step_rel(middle, loaded, res),
    ensures
        res == Ok::<bool, VMError>(false),
        reg_val(loaded.reg, lbu.r1) == unsigned32(reg_val(start.reg, sw.r1)) / 0x100_0000,
{
    reveal(step_rel);
    let v = reg_val(start.reg, sw.r1);
    let addr = mem_addr(reg_val(start.reg, sw.r3), sw.imm);
    let bytes = store_bytes(Opcode::sw, v);
    lemma_store_then_load(v);
    assert(bytes.len() == 4);
    assert(middle.host.ram@ == overwritten(start.host.ram@, addr as int, bytes));
    assert(middle.host.ram@.subrange(addr as int, addr + 1) =~= seq![bytes[0]]);
}

} // verus!
