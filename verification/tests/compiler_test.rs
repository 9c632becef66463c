use strip_shared::compiler::{compile, compile_with, includes, Include};
use strip_shared::parser::{Directive, Exp, Immediate, RegLink, Word};
use strip_shared::{CompilerError, Error, Instruction, Opcode, Reg};

fn reg(r: Reg) -> RegLink<'static> {
  RegLink::Direct(r)
}

fn li<'a>(r: Reg, imm: Immediate<'a>) -> Exp<'a> {
  Exp::Word(Word::new(Opcode::addi, reg(r), RegLink::zero(), RegLink::zero(), Some(imm)))
}

fn words(image: &[u8], data: usize) -> Vec<Instruction> {
  image[4 + data..]
    .chunks(4)
    .map(|w| Instruction::parse(u32::from_be_bytes([w[0], w[1], w[2], w[3]])).unwrap())
    .collect()
}

#[test]
fn a_program_without_instructions_gives_no_bytes() {
  assert_eq!(compile(&[]), Ok(vec![]));
  let exprs = [
    Exp::Comment("nothing"),
    Exp::Label("start"),
    Exp::Directive(Directive::Byte(vec![1, 2, 3])),
    Exp::Directive(Directive::Constant("X", 1)),
  ];
  assert_eq!(compile(&exprs), Ok(vec![]));
}

#[test]
fn the_image_is_header_data_and_words() {
  let exprs = [
    Exp::Directive(Directive::Byte(vec![1, 2])),
    li(Reg::s0, Immediate::absolute(5, None)),
    Exp::Word(Word::new(Opcode::add, reg(Reg::s1), reg(Reg::s0), reg(Reg::s0), None)),
  ];
  let image = compile(&exprs).unwrap();
  let first = Instruction::new(Opcode::addi, Reg::s0, Reg::zero, Reg::zero, 5).build();
  let second = Instruction::new(Opcode::add, Reg::s1, Reg::s0, Reg::s0, 0).build();
  let mut expected = vec![0xaf, 0xaf, 0, 2, 1, 2];
  expected.extend_from_slice(&first.to_be_bytes());
  expected.extend_from_slice(&second.to_be_bytes());
  assert_eq!(image, expected);
  assert_eq!(&image[6..10], &[0x00, 0x05, 0x01, 0x21]);
}

#[test]
fn the_header_holds_the_data_length_high_byte_first() {
  let exprs = [
    Exp::Directive(Directive::Zero(258)),
    Exp::Word(Word::new(Opcode::halt, reg(Reg::zero), reg(Reg::zero), reg(Reg::zero), None)),
  ];
  let image = compile(&exprs).unwrap();
  assert_eq!(&image[..4], &[0xaf, 0xaf, 1, 2]);
  assert_eq!(image.len(), 4 + 258 + 4);
}

#[test]
fn directives_lay_out_the_data_segment() {
  let exprs = [
    Exp::Directive(Directive::Byte(vec![0xff])),
    Exp::Directive(Directive::Zero(2)),
    Exp::Directive(Directive::Zero(-5)),
    Exp::Directive(Directive::Zero(0)),
    Exp::Directive(Directive::Half(vec![0x0102, 0xfffe])),
    Exp::Directive(Directive::Word(vec![0x0a0b0c0d, 1])),
    Exp::Word(Word::new(Opcode::halt, reg(Reg::zero), reg(Reg::zero), reg(Reg::zero), None)),
    Exp::Directive(Directive::Byte(vec![7])),
  ];
  let image = compile(&exprs).unwrap();
  assert_eq!(
    &image[4..20],
    &[0xff, 0, 0, 1, 2, 0xff, 0xfe, 0x0a, 0x0b, 0x0c, 0x0d, 0, 0, 0, 1, 7]
  );
  assert_eq!(&image[..4], &[0xaf, 0xaf, 0, 16]);
  assert_eq!(&image[20..], &[0, 0, 0, 0]);
}

#[test]
fn a_label_names_data_before_the_first_instruction_and_code_after_it() {
  let exprs = [
    Exp::Label("top"),
    Exp::Directive(Directive::Zero(3)),
    Exp::Label("data"),
    li(Reg::s0, Immediate::absolute(0, Some("data"))),
    Exp::Directive(Directive::Zero(5)),
    li(Reg::s1, Immediate::absolute(0, Some("code"))),
    Exp::Label("code"),
    li(Reg::s2, Immediate::absolute(10, Some("top"))),
    li(Reg::s3, Immediate::absolute(-1, Some("code"))),
  ];
  let image = compile(&exprs).unwrap();
  let imms: Vec<i16> = words(&image, 8).iter().map(|inst| inst.imm).collect();
  assert_eq!(imms, vec![3, 2, 10, 1]);
}

#[test]
fn pc_is_the_index_of_the_instruction() {
  let exprs = [
    li(Reg::s0, Immediate::absolute(0, Some("pc"))),
    li(Reg::s0, Immediate::absolute(2, Some("pc"))),
    Exp::Directive(Directive::Constant("pc", 100)),
    li(Reg::s0, Immediate::absolute(-5, Some("pc"))),
  ];
  let image = compile(&exprs).unwrap();
  let imms: Vec<i16> = words(&image, 0).iter().map(|inst| inst.imm).collect();
  assert_eq!(imms, vec![0, 3, -3]);
}

#[test]
fn a_constant_goes_before_a_label_and_a_later_binding_before_an_earlier() {
  let exprs = [
    Exp::Directive(Directive::Zero(9)),
    Exp::Label("X"),
    Exp::Label("Y"),
    Exp::Directive(Directive::Constant("X", 40)),
    Exp::Directive(Directive::Constant("X", 42)),
    li(Reg::s0, Immediate::absolute(0, Some("X"))),
    li(Reg::s0, Immediate::absolute(0, Some("Y"))),
    Exp::Label("Y"),
    Exp::Directive(Directive::Constant("Z", -1)),
    li(Reg::s0, Immediate::absolute(1, Some("Z"))),
  ];
  let image = compile(&exprs).unwrap();
  let imms: Vec<i16> = words(&image, 9).iter().map(|inst| inst.imm).collect();
  assert_eq!(imms, vec![42, 2, 0]);
}

#[test]
fn symbol_arithmetic_wraps_in_sixteen_bits() {
  let exprs = [
    Exp::Directive(Directive::Constant("BIG", 32767)),
    Exp::Directive(Directive::Constant("LOW", -32768)),
    li(Reg::s0, Immediate::absolute(1, Some("BIG"))),
    li(Reg::s0, Immediate::absolute(-1, Some("LOW"))),
    li(Reg::s0, Immediate::absolute(32767, Some("BIG"))),
  ];
  let image = compile(&exprs).unwrap();
  let imms: Vec<i16> = words(&image, 0).iter().map(|inst| inst.imm).collect();
  assert_eq!(imms, vec![-32768, 32767, -2]);
}

#[test]
fn an_alias_stands_for_its_register() {
  let exprs = [
    Exp::Directive(Directive::Alias("counter", Reg::s3)),
    Exp::Directive(Directive::Alias("base", Reg::s5)),
    Exp::Word(Word::new(
      Opcode::add,
      RegLink::Alias("counter"),
      RegLink::Alias("base"),
      RegLink::Alias("counter"),
      None,
    )),
    Exp::Word(Word::new(
      Opcode::lw,
      RegLink::Alias("counter"),
      RegLink::zero(),
      RegLink::zero(),
      Some(Immediate::relative(RegLink::Alias("base"), 4, None)),
    )),
    Exp::Directive(Directive::Alias("late", Reg::ra)),
    Exp::Word(Word::new(Opcode::add, RegLink::Alias("late"), reg(Reg::s0), reg(Reg::s0), None)),
  ];
  let image = compile(&exprs).unwrap();
  assert_eq!(
    words(&image, 0),
    vec![
      Instruction::new(Opcode::add, Reg::s3, Reg::s5, Reg::s3, 0),
      Instruction::new(Opcode::lw, Reg::s3, Reg::zero, Reg::s5, 4),
      Instruction::new(Opcode::add, Reg::ra, Reg::s0, Reg::s0, 0),
    ]
  );
}

#[test]
fn the_base_of_an_address_takes_the_third_slot() {
  let exprs = [
    Exp::Word(Word::new(
      Opcode::beq,
      reg(Reg::s0),
      reg(Reg::s1),
      reg(Reg::s5),
      Some(Immediate::relative(reg(Reg::s2), 7, None)),
    )),
    Exp::Word(Word::new(Opcode::beq, reg(Reg::s0), reg(Reg::s1), reg(Reg::s5), None)),
    Exp::Word(Word::with_plain(Opcode::beq, reg(Reg::s0), reg(Reg::s1), reg(Reg::s5), -9)),
    Exp::Word(Word::with_plain(Opcode::add, reg(Reg::s0), reg(Reg::s1), reg(Reg::s5), 11)),
  ];
  let image = compile(&exprs).unwrap();
  assert_eq!(
    words(&image, 0),
    vec![
      Instruction::new(Opcode::beq, Reg::s0, Reg::s1, Reg::s2, 7),
      Instruction::new(Opcode::beq, Reg::s0, Reg::s1, Reg::s5, 0),
      Instruction::new(Opcode::beq, Reg::s0, Reg::s1, Reg::s5, -9),
      Instruction::new(Opcode::add, Reg::s0, Reg::s1, Reg::s5, 11),
    ]
  );
}

#[test]
fn a_name_that_is_not_defined_fails_the_program() {
  let missing = Err(Error::CompilerError(CompilerError::AliasNotFound));
  let exprs = [li(Reg::s0, Immediate::absolute(0, Some("nowhere")))];
  assert_eq!(compile(&exprs), missing);
  let exprs = [
    li(Reg::s0, Immediate::absolute(0, None)),
    Exp::Word(Word::new(Opcode::add, RegLink::Alias("x"), reg(Reg::s0), reg(Reg::s0), None)),
  ];
  assert_eq!(compile(&exprs), missing);
  let exprs =
    [Exp::Word(Word::new(Opcode::add, reg(Reg::s0), RegLink::Alias("x"), reg(Reg::s0), None))];
  assert_eq!(compile(&exprs), missing);
  let exprs =
    [Exp::Word(Word::new(Opcode::add, reg(Reg::s0), reg(Reg::s0), RegLink::Alias("x"), None))];
  assert_eq!(compile(&exprs), missing);
  let exprs = [Exp::Word(Word::new(
    Opcode::lb,
    reg(Reg::s0),
    reg(Reg::s0),
    reg(Reg::s0),
    Some(Immediate::relative(RegLink::Alias("x"), 0, None)),
  ))];
  assert_eq!(compile(&exprs), missing);
  let exprs = [
    Exp::Directive(Directive::Alias("FOO", Reg::s1)),
    li(Reg::s0, Immediate::absolute(0, Some("FOO"))),
  ];
  assert_eq!(compile(&exprs), missing);
  let exprs = [
    Exp::Directive(Directive::Constant("x", 1)),
    Exp::Word(Word::new(Opcode::add, RegLink::Alias("x"), reg(Reg::s0), reg(Reg::s0), None)),
  ];
  assert_eq!(compile(&exprs), missing);
}

#[test]
fn the_third_slot_is_not_looked_at_behind_an_address() {
  let exprs = [Exp::Word(Word::new(
    Opcode::lb,
    reg(Reg::s0),
    reg(Reg::s0),
    RegLink::Alias("nobody"),
    Some(Immediate::absolute(3, None)),
  ))];
  let image = compile(&exprs).unwrap();
  assert_eq!(words(&image, 0), vec![Instruction::new(Opcode::lb, Reg::s0, Reg::zero, Reg::zero, 3)]);
}

#[test]
fn an_included_file_goes_into_the_data_segment() {
  let exprs = [
    Exp::Directive(Directive::Byte(vec![1])),
    Exp::Directive(Directive::IncBin("b.bin")),
    Exp::Directive(Directive::IncBin("a.bin")),
    Exp::Label("end"),
    li(Reg::s0, Immediate::absolute(0, Some("end"))),
  ];
  let files = [
    Include { path: "a.bin", data: vec![0xa0, 0xa1] },
    Include { path: "b.bin", data: vec![0xb0] },
    Include { path: "a.bin", data: vec![0xff] },
  ];
  let image = compile_with(&exprs, &files).unwrap();
  assert_eq!(&image[..8], &[0xaf, 0xaf, 0, 4, 1, 0xb0, 0xa0, 0xa1]);
  assert_eq!(words(&image, 4)[0].imm, 4);
  assert_eq!(includes(&exprs), vec!["b.bin", "a.bin"]);
  assert_eq!(includes(&exprs[3..]), Vec::<&str>::new());
}

#[test]
fn a_file_that_is_not_at_hand_fails_the_program() {
  let failed = Err(Error::CompilerError(CompilerError::FileReadFailed));
  let exprs = [Exp::Directive(Directive::IncBin("a.bin"))];
  assert_eq!(compile(&exprs), failed);
  let exprs = [
    li(Reg::s0, Immediate::absolute(0, Some("nowhere"))),
    Exp::Directive(Directive::IncBin("a.bin")),
  ];
  assert_eq!(compile(&exprs), failed);
  let files = [Include { path: "b.bin", data: vec![] }];
  assert_eq!(compile_with(&exprs, &files), failed);
  let files = [Include { path: "a.bin", data: vec![] }];
  assert_eq!(
    compile_with(&exprs, &files),
    Err(Error::CompilerError(CompilerError::AliasNotFound))
  );
}
