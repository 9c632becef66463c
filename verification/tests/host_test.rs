use strip_shared::compiler::compile;
use strip_shared::debug::{Access, Environment, Progress, Trace};
use strip_shared::led_strip::{hsv2grb, LedStrip, StripError};
use strip_shared::parser::parse;
use strip_shared::vm::{Env, VMError};

fn assemble(code: &str) -> Vec<u8> {
  compile(&parse(code).unwrap()).unwrap()
}

#[test]
fn the_tracing_host_is_a_block_of_memory() {
  let mut env = Environment::new(8, true);
  assert!(env.trace_memory);
  assert_eq!(env.ram, vec![0; 8]);
  assert_eq!(env.mem_set(2, &[1, 2, 3]), Ok(()));
  assert_eq!(env.mem_set(7, &[9]), Ok(()));
  assert_eq!(env.mem_set(8, &[]), Ok(()));
  assert_eq!(env.ram, vec![0, 0, 1, 2, 3, 0, 0, 9]);
  let mut buf = [0xee; 4];
  assert_eq!(env.mem_fetch(1, &mut buf), Ok(()));
  assert_eq!(buf, [0, 1, 2, 3]);
  assert_eq!(env.ecall(7, 8), Ok(0));
  env.reset();
  assert_eq!(env.ram, vec![0; 8]);
  assert!(env.trace_memory);
}

#[test]
fn the_tracing_host_refuses_what_does_not_fit() {
  let mut env = Environment::new(8, false);
  assert_eq!(env.mem_set(6, &[1, 2, 3]), Err(()));
  assert_eq!(env.mem_set(8, &[1]), Err(()));
  assert_eq!(env.mem_set(0xfff, &[1]), Err(()));
  assert_eq!(env.ram, vec![0; 8]);
  let mut buf = [0xee; 4];
  assert_eq!(env.mem_fetch(5, &mut buf), Err(()));
  assert_eq!(buf, [0xee; 4]);
  let mut long = [0xee; 9];
  assert_eq!(env.mem_fetch(0, &mut long), Err(()));
}

#[test]
fn the_tracing_host_drops_what_goes_to_mapped_addresses() {
  let mut env = Environment::new(8, false);
  assert_eq!(env.mem_set(0x1000, &[1, 2, 3]), Ok(()));
  assert_eq!(env.mem_set(0xffff, &[1, 2, 3]), Ok(()));
  assert_eq!(env.ram, vec![0; 8]);
  let mut buf = [0xee; 4];
  assert_eq!(env.mem_fetch(0x1000, &mut buf), Ok(()));
  assert_eq!(buf, [0xee; 4]);
}

#[test]
fn a_trace_loads_its_image() {
  let image = assemble(".byte 1 2 3\nnop");
  let trace = Trace::new(2, Some(5), 4, true, &image).unwrap();
  assert_eq!(trace.spins(), 2);
  assert_eq!(trace.ops(), 0);
  assert_eq!(trace.vm().pc(), 0);
  assert_eq!(trace.vm().env().ram, vec![1, 2, 3, 0]);
  assert!(trace.vm().env().trace_memory);
  assert!(matches!(Trace::new(1, None, 2, false, &image), Err(VMError::HostFault)));
  assert!(matches!(Trace::new(1, None, 2, false, &image[1..]), Err(VMError::InvalidProg)));
  assert!(matches!(Trace::new(1, None, 3, false, &image), Ok(_)));
}

#[test]
fn a_trace_counts_steps_and_spins() {
  let image = assemble("inc s0\ninc s0");
  let mut trace = Trace::new(2, None, 0, false, &image).unwrap();
  assert_eq!(trace.advance(), Ok(Progress::Stepped));
  assert_eq!(trace.advance(), Ok(Progress::Stepped));
  assert_eq!((trace.ops(), trace.spins(), trace.vm().pc()), (2, 2, 2));
  assert_eq!(trace.advance(), Ok(Progress::Halted));
  assert_eq!((trace.ops(), trace.spins(), trace.vm().pc()), (2, 1, 0));
  assert_eq!(trace.advance(), Ok(Progress::Stepped));
  assert_eq!(trace.advance(), Ok(Progress::Stepped));
  assert_eq!(trace.advance(), Ok(Progress::Halted));
  assert_eq!((trace.ops(), trace.spins(), trace.vm().pc()), (4, 0, 0));
  assert_eq!(trace.advance(), Ok(Progress::Idle));
  assert_eq!(trace.advance(), Ok(Progress::Idle));
  assert_eq!((trace.ops(), trace.spins(), trace.vm().pc()), (4, 0, 0));
  assert_eq!(trace.vm().reg(strip_shared::Reg::s0), 4);
}

#[test]
fn a_trace_says_when_its_quota_is_used_up() {
  let image = assemble("inc s0\ninc s0");
  let mut trace = Trace::new(9, Some(3), 0, false, &image).unwrap();
  assert_eq!(trace.advance(), Ok(Progress::Stepped));
  assert_eq!(trace.advance(), Ok(Progress::Stepped));
  assert_eq!(trace.advance(), Ok(Progress::Halted));
  assert_eq!(trace.advance(), Ok(Progress::Quota));
  assert_eq!((trace.ops(), trace.spins()), (3, 8));
  assert_eq!(trace.advance(), Ok(Progress::Quota));
  assert_eq!(trace.ops(), 4);
  let mut trace = Trace::new(1, Some(0), 0, false, &image).unwrap();
  assert_eq!(trace.advance(), Ok(Progress::Quota));
}

#[test]
fn a_trace_passes_a_failure_on() {
  let image = assemble("nop\nlb s0 9");
  let mut trace = Trace::new(1, None, 4, false, &image).unwrap();
  assert_eq!(trace.advance(), Ok(Progress::Stepped));
  assert_eq!(trace.advance(), Err(VMError::HostFault));
  assert_eq!((trace.ops(), trace.spins(), trace.vm().pc()), (1, 1, 1));
}

#[test]
fn a_trace_tells_what_the_next_step_asks_of_the_host() {
  let image = assemble("li s0 0x1234\nsh s0 -1\nsw s0 2\nlb s1 2\nlhu s1 6\nlw s1 4\necall s1 7(s0)");
  let mut trace = Trace::new(1, None, 8, false, &image).unwrap();
  let mut seen = vec![];
  for _ in 0..8 {
    seen.push(trace.access());
    trace.advance().unwrap();
  }
  assert_eq!(
    seen,
    vec![
      Access::Quiet,
      Access::Store(0xffff, vec![0x12, 0x34]),
      Access::Store(2, vec![0, 0, 0x12, 0x34]),
      Access::Fetch(2, 1),
      Access::Fetch(6, 2),
      Access::Fetch(4, 4),
      Access::Ecall(7, 0x1234),
      Access::Quiet,
    ]
  );
}

#[test]
fn colours_turn_from_hsv_to_grb() {
  let turn = |h: u8, s: u8, v: u8| {
    let mut buf = [h, s, v, 0xee];
    hsv2grb(&mut buf);
    assert_eq!(buf[3], 0xee);
    [buf[0], buf[1], buf[2]]
  };
  assert_eq!(turn(0, 255, 255), [0, 255, 0]);
  assert_eq!(turn(85, 255, 255), [255, 0, 0]);
  assert_eq!(turn(170, 255, 255), [0, 0, 255]);
  assert_eq!(turn(255, 255, 255), [0, 255, 0]);
  assert_eq!(turn(100, 200, 150), [150, 32, 74]);
  assert_eq!(turn(42, 255, 255), [252, 255, 0]);
  assert_eq!(turn(43, 255, 255), [255, 252, 0]);
  assert_eq!(turn(127, 255, 255), [255, 0, 252]);
  assert_eq!(turn(128, 255, 255), [252, 0, 255]);
  assert_eq!(turn(212, 255, 255), [0, 252, 255]);
  assert_eq!(turn(213, 255, 255), [0, 255, 252]);
  assert_eq!(turn(254, 255, 255), [0, 255, 6]);
  assert_eq!(turn(77, 0, 9), [9, 9, 9]);
  assert_eq!(turn(77, 255, 0), [0, 0, 0]);
}

#[test]
fn the_strip_host_has_memory_and_a_frame() {
  let mut env = strip_shared::led_strip::Environment::new();
  assert_eq!(env.mem_set(1021, &[1, 2, 3]), Ok(()));
  assert_eq!(env.mem_set(1022, &[1, 2, 3]), Err(StripError::MemoryOverread));
  assert_eq!(env.mem_set(0x1000 + 897, &[4, 5, 6]), Ok(()));
  assert_eq!(env.mem_set(0x1000 + 898, &[4, 5, 6]), Err(StripError::MemoryOverread));
  assert_eq!(env.mem_set(0xfff, &[1]), Err(StripError::MemoryOverread));
  assert_eq!(&env.ram[1020..], &[0, 1, 2, 3]);
  assert_eq!(&env.led_ram[896..], &[0, 4, 5, 6]);
  let mut buf = [0xee; 2];
  assert_eq!(env.mem_fetch(1022, &mut buf), Ok(()));
  assert_eq!(buf, [2, 3]);
  assert_eq!(env.mem_fetch(0x1000 + 898, &mut buf), Ok(()));
  assert_eq!(buf, [5, 6]);
  assert_eq!(env.mem_fetch(1023, &mut buf), Err(StripError::MemoryOverread));
  assert_eq!(env.mem_fetch(0x1000 + 899, &mut buf), Err(StripError::MemoryOverread));
  assert_eq!(buf, [5, 6]);
  env.reset();
  assert!(env.ram.iter().all(|b| *b == 0));
  assert!(env.led_ram.iter().all(|b| *b == 0));
}

#[test]
fn the_strip_host_answers_two_calls() {
  let mut env = strip_shared::led_strip::Environment::new();
  assert_eq!(env.ecall(0, 3), Ok(0));
  assert_eq!(env.psc, 3);
  assert_eq!(env.ecall(0, -1), Ok(0));
  assert_eq!(env.psc, u32::MAX);
  env.mem_set(0x1000 + 6, &[100, 200, 150]).unwrap();
  assert_eq!(env.ecall(1, 0x1000 + 6), Ok(0));
  assert_eq!(&env.led_ram[5..10], &[0, 150, 32, 74, 0]);
  assert_eq!(env.ecall(1, 0x1000 + 897), Ok(0));
  assert_eq!(env.ecall(1, 0x1000 + 898), Err(StripError::MemoryOverread));
  assert_eq!(env.ecall(1, 0xfff), Err(StripError::MemoryOverread));
  assert_eq!(env.ecall(1, -1), Err(StripError::MemoryOverread));
  assert_eq!(env.ecall(2, 5), Ok(0));
  assert_eq!(env.ecall(-1, 5), Ok(0));
  assert_eq!(env.psc, u32::MAX);
  assert_eq!(&env.led_ram[5..10], &[0, 150, 32, 74, 0]);
}

#[test]
fn the_prescaler_passes_over_refreshes() {
  let mut env = strip_shared::led_strip::Environment::new();
  assert!(env.due());
  assert!(env.due());
  env.psc = 2;
  assert!(!env.due());
  assert!(!env.due());
  assert_eq!(env.ops, 2);
  assert!(env.due());
  assert_eq!(env.ops, 0);
  assert!(!env.due());
}

#[test]
fn a_strip_renders_a_frame_when_one_is_due() {
  let image = assemble(
    ".byte 100 200 150\n.equ FRAME 0x1000\nli s0 2\necall zero 0(s0)\nlw s1 0\nsw s1 FRAME\nli s2 FRAME\necall zero 1(s2)",
  );
  let mut strip = LedStrip::new(&image).unwrap();
  assert!(strip.frame().iter().all(|b| *b == 0));
  assert!(strip.refresh());
  assert_eq!(&strip.frame()[..4], &[150, 32, 74, 0]);
  assert!(!strip.refresh());
  assert!(!strip.refresh());
  assert!(strip.refresh());
  assert_eq!(&strip.frame()[..4], &[150, 32, 74, 0]);
  assert!(matches!(LedStrip::new(&image[1..]), Err(VMError::InvalidProg)));
  let large = assemble(".zero 1025\nnop");
  assert!(matches!(LedStrip::new(&large), Err(VMError::HostFault)));
}
