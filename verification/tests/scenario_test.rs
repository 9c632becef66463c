use strip_shared::compiler::compile;
use strip_shared::debug::Environment;
use strip_shared::parser::parse;
use strip_shared::vm::{VMError, VM};
use strip_shared::{CompilerError, Error};

/// Assembles `code`, runs it once on eight bytes of memory and gives the
/// program counter, the registers and the memory.
fn spin(code: &str) -> (usize, [i32; 8], Vec<u8>) {
  let image = compile(&parse(code).unwrap()).unwrap();
  let mut vm = VM::new(Environment::new(8, false));
  vm.load(&image).unwrap();
  vm.respin().unwrap();
  (*vm.get_pc(), *vm.get_reg(), vm.get_env().ram.clone())
}

#[test]
fn adding_registers_and_immediates() {
  let (pc, reg, _) = spin("li s0 1; add s1 s0 s0; addi s2 s1 1");
  assert_eq!(pc, 3);
  assert_eq!((reg[2], reg[3], reg[4]), (1, 2, 3));
}

#[test]
fn storing_a_byte_and_loading_it_signed_and_unsigned() {
  let (_, reg, ram) = spin("li s0 0xaf; sb s0 2; lbu s1 2; lb s2 2");
  assert_eq!((reg[3], reg[4]), (175, -81));
  assert_eq!(ram, vec![0, 0, 0xaf, 0, 0, 0, 0, 0]);
}

#[test]
fn laying_out_data_and_using_a_constant() {
  let code = ".byte 0xff; .zero 1; .half 0xfefe; .word 0xfafbfcfd; .equ FOO 42; li s0 FOO";
  let image = compile(&parse(code).unwrap()).unwrap();
  assert_eq!(&image[..12], &[0xaf, 0xaf, 0, 8, 0xff, 0x00, 0xfe, 0xfe, 0xfa, 0xfb, 0xfc, 0xfd]);
  let (_, reg, ram) = spin(code);
  assert_eq!(reg[2], 42);
  assert_eq!(ram, vec![0xff, 0x00, 0xfe, 0xfe, 0xfa, 0xfb, 0xfc, 0xfd]);
}

#[test]
fn branching_over_an_instruction() {
  let (pc, reg, _) = spin("beq s0 s0 2(pc); li s1 42");
  assert_eq!(reg[3], 0);
  assert_eq!(pc, 2);
}

#[test]
fn shifting_right_keeps_the_sign() {
  let (_, reg, _) = spin("li s0 0b100000000; srli s1 s0 8; li s2 -32; srli s3 s2 3");
  assert_eq!((reg[3], reg[5]), (1, -4));
}

#[test]
fn multiplying() {
  let (_, reg, _) = spin("li s0 100; li s1 500; mul s0 s0 s1");
  assert_eq!(reg[2], 50000);
}

#[test]
fn an_undefined_label_is_refused() {
  let exprs = parse("beq s0 s0 nowhere").unwrap();
  assert_eq!(compile(&exprs), Err(Error::CompilerError(CompilerError::AliasNotFound)));
  let exprs = parse("here: jal there").unwrap();
  assert_eq!(compile(&exprs), Err(Error::CompilerError(CompilerError::AliasNotFound)));
}

#[test]
fn an_image_without_the_magic_is_refused() {
  let mut image = compile(&parse("nop").unwrap()).unwrap();
  let mut vm = VM::new(Environment::new(8, false));
  assert_eq!(vm.load(&image), Ok(()));
  image[1] = 0xae;
  let mut vm = VM::new(Environment::new(8, false));
  assert_eq!(vm.load(&image), Err(VMError::InvalidProg));
  image[1] = 0xaf;
  image[0] = 0;
  let mut vm = VM::new(Environment::new(8, false));
  assert_eq!(vm.load(&image), Err(VMError::InvalidProg));
}

#[test]
fn what_is_assembled_is_what_is_loaded() {
  let code = ".string \"data!\"\nstart: .half 0x0102\nli s0 start\nlhu s1 (s0)\nhalt";
  let exprs = parse(code).unwrap();
  let image = compile(&exprs).unwrap();
  let mut vm = VM::new(Environment::new(16, false));
  vm.load(&image).unwrap();
  assert_eq!(&vm.get_env().ram[..7], b"data!\x01\x02");
  assert_eq!(&vm.get_env().ram[7..], &[0; 9]);
  vm.respin().unwrap();
  assert_eq!(vm.get_reg()[2], 5);
  assert_eq!(vm.get_reg()[3], 0x0102);
  assert_eq!(*vm.get_pc(), 2);
}

#[test]
fn a_loop_counts_down() {
  let (pc, reg, _) = spin(
    "li s0 5\nloop:\n  add s1 s1 s0\n  dec s0\n  bne s0 zero loop\njal end\nli s1 -1\nend:",
  );
  assert_eq!(reg, [0, 5, 0, 15, 0, 0, 0, 0]);
  assert_eq!(pc, 6);
}
