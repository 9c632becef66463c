//! The host of an LED strip: a kilobyte of memory, a frame of three bytes for
//! each LED that is mapped at [`FRAME`], a prescaler, and an environment call
//! that turns a colour given by hue, saturation and value into the green, red
//! and blue that the strip takes.

use crate::debug::overwritten;
use crate::vm::{
    data_len, image_code, image_data, spin_rel, to_u32, unsigned32, valid_image, zero_bytes,
    zero_regs, Env, Machine, VMError, VM,
};
use vstd::prelude::*;

verus! {

/// The number of bytes of memory.
pub const RAM_BYTES: usize = 1024;

/// The number of bytes of a frame: three for each of the strip's 300 LEDs.
pub const FRAME_BYTES: usize = 900;

/// The address at which the frame is mapped.
pub const FRAME: u16 = 0x1000;

/// Why the host refused an access.
#[derive(Debug, Clone, Copy, PartialEq, Eq, Structural)]
pub enum StripError {
    /// The access reaches past the end of the memory or of the frame.
    MemoryOverread,
}

/// The host.
pub struct Environment {
    /// The refreshes that were passed over since the last frame.
    pub ops: u32,
    /// The prescaler: so many refreshes are passed over between two frames.
    pub psc: u32,
    /// The memory.
    pub ram: [u8; 1024],
    /// The frame.
    pub led_ram: [u8; 900],
}

/// The tint of a hue within its sixth of the colour wheel, from 0 to 252.
pub open spec fn tint(hue: u8) -> int {
    (hue as int * 2 % 85) * 3
}

/// The green, red and blue of a colour given by hue, saturation and value.
///
/// The hue picks one of six sectors of the colour wheel; in each, one
/// component is the value, one is the value dimmed by the saturation, and one
/// lies between them, by how far the hue is into the sector.
pub open spec fn grb(hue: u8, sat: u8, val: u8) -> (int, int, int) {
    let f = tint(hue);
    let p = val as int * (255 - sat) / 255;
    let q = val as int * (255 - (sat as int * f) / 255) / 255;
    let t = val as int * (255 - (sat as int * (255 - f)) / 255) / 255;
    let v = val as int;
    if hue <= 42 {
        (t, v, p)
    } else if hue <= 84 {
        (v, q, p)
    } else if hue <= 127 {
        (v, p, t)
    } else if hue <= 169 {
        (q, p, v)
    } else if hue <= 212 {
        (p, t, v)
    } else if hue <= 254 {
        (p, v, q)
    } else {
        (t, v, p)
    }
}

/// The three components are bytes.
pub proof fn lemma_grb_bytes(hue: u8, sat: u8, val: u8)
    ensures
        0 <= grb(hue, sat, val).0 <= 255,
        0 <= grb(hue, sat, val).1 <= 255,
        0 <= grb(hue, sat, val).2 <= 255,
{
    let f = tint(hue);
    let s = sat as int;
    let v = val as int;
    assert(0 <= f <= 252);
    assert(0 <= s * f <= 255 * 252) by (nonlinear_arith)
        requires
            0 <= s <= 255,
            0 <= f <= 252,
    ;
    assert(0 <= s * (255 - f) <= 255 * 255) by (nonlinear_arith)
        requires
            0 <= s <= 255,
            0 <= f <= 252,
    ;
    lemma_dimmed(v, 255 - s);
    lemma_dimmed(v, 255 - (s * f) / 255);
    lemma_dimmed(v, 255 - (s * (255 - f)) / 255);
}

/// A byte times a factor of at most 255, over 255, is a byte.
proof fn lemma_dimmed(v: int, k: int)
    requires
        0 <= v <= 255,
        0 <= k <= 255,
    ensures
        0 <= v * k <= 255 * 255,
        0 <= v * k / 255 <= 255,
{
    assert(0 <= v * k <= 255 * 255) by (nonlinear_arith)
        requires
            0 <= v <= 255,
            0 <= k <= 255,
    ;
}

/// Replaces the hue, saturation and value in the first three bytes of `buf`
/// by the green, red and blue of that colour.
pub fn hsv2grb(buf: &mut [u8])
    requires
        old(buf)@.len() >= 3,
    ensures
        final(buf)@.len() == old(buf)@.len(),
        final(buf)@[0] == grb(old(buf)@[0], old(buf)@[1], old(buf)@[2]).0,
        final(buf)@[1] == grb(old(buf)@[0], old(buf)@[1], old(buf)@[2]).1,
        final(buf)@[2] == grb(old(buf)@[0], old(buf)@[1], old(buf)@[2]).2,
        forall|i: int| 3 <= i < final(buf)@.len() ==> final(buf)@[i] == old(buf)@[i],
{
    let hue = buf[0];
    let sat = buf[1] as u16;
    let val = buf[2] as u16;
    proof {
        lemma_grb_bytes(hue, buf@[1], buf@[2]);
        let f = tint(hue);
        let s = sat as int;
        assert(0 <= s * f <= 255 * 252) by (nonlinear_arith)
            requires
                0 <= s <= 255,
                0 <= f <= 252,
        ;
        assert(0 <= s * (255 - f) <= 255 * 255) by (nonlinear_arith)
            requires
                0 <= s <= 255,
                0 <= f <= 252,
        ;
        lemma_dimmed(val as int, 255 - s);
        lemma_dimmed(val as int, 255 - (s * f) / 255);
        lemma_dimmed(val as int, 255 - (s * (255 - f)) / 255);
    }
    let f: u16 = (hue as u16 * 2 % 85) * 3;
    let p: u16 = val * (255 - sat) / 255;
    let q: u16 = val * (255 - (sat * f) / 255) / 255;
    let t: u16 = val * (255 - (sat * (255 - f)) / 255) / 255;
    let (g, r, b) = if hue <= 42 {
        (t, val, p)
    } else if hue <= 84 {
        (val, q, p)
    } else if hue <= 127 {
        (val, p, t)
    } else if hue <= 169 {
        (q, p, val)
    } else if hue <= 212 {
        (p, t, val)
    } else if hue <= 254 {
        (p, val, q)
    } else {
        (t, val, p)
    };
    buf[0] = g as u8;
    buf[1] = r as u8;
    buf[2] = b as u8;
}

/// Memory that is all zero.
fn blank() -> (ram: [u8; 1024])
    ensures
        ram@ == zero_bytes(1024),
{
    let ram = [0u8;1024];
    proof {
        vstd::array::axiom_spec_array_fill_for_copy_type::<u8, 1024>(0u8);
    }
    assert(ram@ =~= zero_bytes(1024));
    ram
}

/// A frame in which no LED is lit.
fn dark() -> (frame: [u8; 900])
    ensures
        frame@ == zero_bytes(900),
{
    let frame = [0u8;900];
    proof {
        vstd::array::axiom_spec_array_fill_for_copy_type::<u8, 900>(0u8);
    }
    assert(frame@ =~= zero_bytes(900));
    frame
}

impl Environment {
    /// A host with zeroed memory, a dark frame and no prescaler.
    pub fn new() -> (env: Self)
        ensures
            env.ops == 0,
            env.psc == 0,
            env.ram@ == zero_bytes(1024),
            env.led_ram@ == zero_bytes(900),
    {
        Environment { ops: 0, psc: 0, ram: blank(), led_ram: dark() }
    }

    /// Whether a frame is due. While the prescaler says to pass over this
    /// refresh it is counted and none is due; otherwise the count starts
    /// again.
    pub fn due(&mut self) -> (due: bool)
        ensures
            due == !(old(self).psc > 0 && old(self).ops < old(self).psc),
            final(self).psc == old(self).psc,
            final(self).ram == old(self).ram,
            final(self).led_ram == old(self).led_ram,
            final(self).ops == if due {
                0
            } else {
                (old(self).ops + 1) as u32
            },
    {
        if self.psc > 0 && self.ops < self.psc {
            self.ops += 1;
            return false;
        }
        self.ops = 0;
        true
    }
}

/// Copies `val` into `mem` from `offset` on.
fn copy_in(mem: &mut [u8], offset: usize, val: &[u8])
    requires
        offset + val@.len() <= old(mem)@.len(),
    ensures
        final(mem)@ == overwritten(old(mem)@, offset as int, val@),
{
    let size = mem.len();
    let mut i: usize = 0;
    assert(mem@ =~= overwritten(old(mem)@, offset as int, val@.take(0)));
    while i < val.len()
        invariant
            i <= val.len(),
            mem@.len() == size,
            mem@.len() == old(mem)@.len(),
            offset + val@.len() <= mem@.len(),
            mem@ == overwritten(old(mem)@, offset as int, val@.take(i as int)),
        decreases val.len() - i,
    {
        mem[offset + i] = val[i];
        i += 1;
        assert(mem@ =~= overwritten(old(mem)@, offset as int, val@.take(i as int)));
    }
    assert(val@.take(val.len() as int) =~= val@);
}

/// Fills `buf` from `mem`, from `offset` on.
fn copy_out(mem: &[u8], offset: usize, buf: &mut [u8])
    requires
        offset + old(buf)@.len() <= mem@.len(),
    ensures
        final(buf)@ == mem@.subrange(offset as int, offset + old(buf)@.len()),
{
    let len = buf.len();
    let size = mem.len();
    let mut i: usize = 0;
    while i < len
        invariant
            i <= len,
            len == buf@.len(),
            len == old(buf)@.len(),
            size == mem@.len(),
            offset + len <= mem@.len(),
            forall|j: int| 0 <= j < i ==> buf@[j] == mem@[offset + j],
        decreases len - i,
    {
        buf[i] = mem[offset + i];
        i += 1;
    }
    assert(buf@ =~= mem@.subrange(offset as int, offset + len));
}

/// Whether an access of `len` bytes at `addr` lies within the frame or within
/// the memory.
pub open spec fn in_range(addr: u16, len: nat) -> bool {
    if addr >= FRAME {
        addr - FRAME + len <= FRAME_BYTES
    } else {
        addr + len <= RAM_BYTES
    }
}

impl Env for Environment {
    type Error = StripError;

    /// A reset zeroes the memory and darkens the frame.
    open spec fn reset_spec(&self, post: &Self) -> bool {
        &&& post.ops == self.ops
        &&& post.psc == self.psc
        &&& post.ram@ == zero_bytes(RAM_BYTES as nat)
        &&& post.led_ram@ == zero_bytes(FRAME_BYTES as nat)
    }

    /// A store goes to the frame from [`FRAME`] on and to the memory below.
    /// One that reaches past the end fails and writes nothing.
    open spec fn mem_set_spec(&self, addr: u16, val: Seq<u8>, post: &Self, ok: bool) -> bool {
        &&& ok == in_range(addr, val.len())
        &&& post.ops == self.ops
        &&& post.psc == self.psc
        &&& post.ram@ == if ok && addr < FRAME {
            overwritten(self.ram@, addr as int, val)
        } else {
            self.ram@
        }
        &&& post.led_ram@ == if ok && addr >= FRAME {
            overwritten(self.led_ram@, addr - FRAME, val)
        } else {
            self.led_ram@
        }
    }

    /// A fetch reads the frame from [`FRAME`] on and the memory below. One
    /// that reaches past the end fails and leaves the buffer as it was.
    open spec fn mem_fetch_spec(&self, addr: u16, buf: Seq<u8>, out: Seq<u8>, ok: bool) -> bool {
        &&& ok == in_range(addr, buf.len())
        &&& out == if !ok {
            buf
        } else if addr >= FRAME {
            self.led_ram@.subrange(addr - FRAME, addr - FRAME + buf.len())
        } else {
            self.ram@.subrange(addr as int, addr + buf.len())
        }
    }

    /// Call 0 sets the prescaler to the parameter. Call 1 takes the
    /// parameter for the address of an LED in the frame and turns its three
    /// bytes from hue, saturation and value into green, red and blue; it
    /// fails on an address whose three bytes do not lie within the frame.
    /// Any other call does nothing. A call that succeeds answers 0.
    open spec fn ecall_spec(&self, ecall: i32, param: i32, post: &Self, ret: Option<i32>) -> bool {
        let at = param - FRAME;
        if ecall == 0 {
            &&& ret == Some(0i32)
            &&& post.psc == unsigned32(param)
            &&& post.ops == self.ops
            &&& post.ram == self.ram
            &&& post.led_ram == self.led_ram
        } else if ecall == 1 && 0 <= at && at + 3 <= FRAME_BYTES {
            let c = grb(self.led_ram@[at], self.led_ram@[at + 1], self.led_ram@[at + 2]);
            &&& ret == Some(0i32)
            &&& post.psc == self.psc
            &&& post.ops == self.ops
            &&& post.ram == self.ram
            &&& post.led_ram@ == overwritten(
                self.led_ram@,
                at,
                seq![c.0 as u8, c.1 as u8, c.2 as u8],
            )
        } else if ecall == 1 {
            ret is None && *post == *self
        } else {
            ret == Some(0i32) && *post == *self
        }
    }

    fn reset(&mut self) {
        self.ram = blank();
        self.led_ram = dark();
    }

    fn mem_set(&mut self, addr: u16, val: &[u8]) -> (res: Result<(), Self::Error>) {
        if addr >= FRAME {
            let offset = (addr - FRAME) as usize;
            if val.len() > FRAME_BYTES || offset > FRAME_BYTES - val.len() {
                return Err(StripError::MemoryOverread);
            }
            copy_in(&mut self.led_ram, offset, val);
            return Ok(());
        }
        let offset = addr as usize;
        if val.len() > RAM_BYTES || offset > RAM_BYTES - val.len() {
            return Err(StripError::MemoryOverread);
        }
        copy_in(&mut self.ram, offset, val);
        Ok(())
    }

    fn mem_fetch(&self, addr: u16, buf: &mut [u8]) -> (res: Result<(), Self::Error>) {
        if addr >= FRAME {
            let offset = (addr - FRAME) as usize;
            if buf.len() > FRAME_BYTES || offset > FRAME_BYTES - buf.len() {
                return Err(StripError::MemoryOverread);
            }
            copy_out(&self.led_ram, offset, buf);
            return Ok(());
        }
        let offset = addr as usize;
        if buf.len() > RAM_BYTES || offset > RAM_BYTES - buf.len() {
            return Err(StripError::MemoryOverread);
        }
        copy_out(&self.ram, offset, buf);
        Ok(())
    }

    fn ecall(&mut self, ecall: i32, param: i32) -> (res: Result<i32, Self::Error>) {
        if ecall == 0 {
            self.psc = to_u32(param);
        } else if ecall == 1 {
            if param < 0x1000 || param > 0x1000 + 897 {
                return Err(StripError::MemoryOverread);
            }
            let offset = (param - 0x1000) as usize;
            let mut led = [self.led_ram[offset], self.led_ram[offset + 1], self.led_ram[offset + 2]];
            proof {
                lemma_grb_bytes(led@[0], led@[1], led@[2]);
            }
            hsv2grb(&mut led);
            copy_in(&mut self.led_ram, offset, &led);
            assert(led@ =~= seq![led@[0], led@[1], led@[2]]);
        }
        Ok(0)
    }
}

/// The machine at the start of a frame: rewound, and with the count of the
/// ticks that were passed over back at zero.
pub open spec fn restarted(m: Machine<Environment>) -> Machine<Environment> {
    Machine { pc: 0, host: Environment { ops: 0, ..m.host }, ..m }
}

/// An LED strip: a machine on the strip's host, with the image of an
/// animation loaded.
pub struct LedStrip<'prog> {
    vm: VM<'prog, Environment>,
}

impl<'prog> View for LedStrip<'prog> {
    type V = Machine<Environment>;

    closed spec fn view(&self) -> Machine<Environment> {
        self.vm@
    }
}

impl<'prog> LedStrip<'prog> {
    /// A strip that runs `image`. It fails with `InvalidProg` on an image
    /// that is not valid, and with `HostFault` on a data segment that is
    /// longer than the memory.
    pub fn new(image: &'prog [u8]) -> (res: Result<Self, VMError>)
        ensures
            match res {
                Ok(strip) => {
                    &&& valid_image(image@)
                    &&& data_len(image@) <= RAM_BYTES
                    &&& strip@.pc == 0
                    &&& strip@.reg == zero_regs()
                    &&& strip@.code == Some(image_code(image@))
                    &&& strip@.host.ops == 0
                    &&& strip@.host.psc == 0
                    &&& strip@.host.led_ram@ == zero_bytes(FRAME_BYTES as nat)
                    &&& strip@.host.ram@ == overwritten(zero_bytes(RAM_BYTES as nat), 0, image_data(image@))
                },
                Err(e) => if valid_image(image@) {
                    e == VMError::HostFault && data_len(image@) > RAM_BYTES
                } else {
                    e == VMError::InvalidProg
                },
            },
    {
        let mut vm = VM::new(Environment::new());
        match vm.load(image) {
            Ok(_) => {
                assert(vm@.host.ram@ =~= overwritten(zero_bytes(RAM_BYTES as nat), 0, image_data(image@)));
                Ok(LedStrip { vm })
            },
            Err(err) => Err(err),
        }
    }

    /// Handles one tick of the refresh timer. While the prescaler says to
    /// pass over this tick it is counted and `false` is returned. Otherwise
    /// the animation runs once from its first instruction, however that run
    /// ends, and `true` is returned: the frame is to be sent to the strip.
    pub fn refresh(&mut self) -> (rendered: bool)
        ensures
            rendered == !(old(self)@.host.psc > 0 && old(self)@.host.ops < old(self)@.host.psc),
            !rendered ==> final(self)@ == (Machine {
                host: Environment { ops: (old(self)@.host.ops + 1) as u32, ..old(self)@.host },
                ..old(self)@
            }),
            rendered ==> exists|res: Result<(), VMError>| #[trigger]
                spin_rel(restarted(old(self)@), final(self)@, res),
    {
        let env = self.vm.get_env();
        if !env.due() {
            return false;
        }
        let res = self.vm.respin();
        assert(spin_rel(restarted(old(self)@), self@, res));
        true
    }

    /// The frame: green, red and blue for each LED.
    pub fn frame(&self) -> (frame: &[u8; 900])
        ensures
            frame@ == self@.host.led_ram@,
    {
        &self.vm.env().led_ram
    }
}

} // verus!
