//! The assembler: from a program's expressions to the image that the machine
//! loads.
//!
//! It goes over the expressions twice. The first pass lays out the data
//! segment, collects the instructions and fills three tables: constants,
//! register aliases and labels. The second pass resolves each instruction
//! against the tables and writes its word. [`assembled`] says what comes out.

use crate::endian::{be16_bytes, be32_bytes, wrap16, write_u16, write_u32};
use crate::isa::{lemma_parse_build, Instruction, Reg};
use crate::parser::{
    program_view, Directive, DirectiveView, Exp, ExpView, RegLink, RegRef, Word, WordView,
};
use crate::text::str_eq;
use crate::vm::{data_len, fetched, image_code, image_data, valid_image, VMError};
use crate::{CompilerError, Error};
use vstd::prelude::*;

verus! {

/// A file that the caller has read for the assembler: the path that an
/// `IncBin` directive names, and the file's contents.
pub struct Include<'a> {
    pub path: &'a str,
    pub data: Vec<u8>,
}

/// The path and the contents of each file, in order.
pub open spec fn includes_view(files: Seq<Include>) -> Seq<(Seq<char>, Seq<u8>)> {
    Seq::new(files.len(), |i: int| (files[i].path@, files[i].data@))
}

/// The contents of the first file from index `from` on whose path is `path`.
pub open spec fn included_from(files: Seq<(Seq<char>, Seq<u8>)>, path: Seq<char>, from: int) -> Option<
    Seq<u8>,
>
    decreases files.len() - from,
{
    if from < 0 || from >= files.len() {
        None
    } else if files[from].0 == path {
        Some(files[from].1)
    } else {
        included_from(files, path, from + 1)
    }
}

/// The contents of the first file whose path is `path`, if there is one.
pub open spec fn included(files: Seq<(Seq<char>, Seq<u8>)>, path: Seq<char>) -> Option<Seq<u8>> {
    included_from(files, path, 0)
}

/// The numbers of `xs`, two bytes each, high byte first.
pub open spec fn half_data(xs: Seq<u16>) -> Seq<u8>
    decreases xs.len(),
{
    if xs.len() == 0 {
        Seq::empty()
    } else {
        half_data(xs.drop_last()) + be16_bytes(xs.last() as int)
    }
}

/// The numbers of `xs`, four bytes each, high byte first.
pub open spec fn word_data(xs: Seq<u32>) -> Seq<u8>
    decreases xs.len(),
{
    if xs.len() == 0 {
        Seq::empty()
    } else {
        word_data(xs.drop_last()) + be32_bytes(xs.last() as int)
    }
}

/// `n` zero bytes; none for a negative `n`.
pub open spec fn zero_data(n: int) -> Seq<u8> {
    Seq::new(
        if n < 0 {
            0
        } else {
            n as nat
        },
        |i: int| 0u8,
    )
}

/// The three tables of names.
pub ghost struct Tables {
    /// The constants.
    pub consts: Map<Seq<char>, i16>,
    /// The register aliases.
    pub aliases: Map<Seq<char>, Reg>,
    /// The labels.
    pub labels: Map<Seq<char>, i16>,
}

/// What the first pass has found.
pub ghost struct Gathered {
    /// The data segment.
    pub data: Seq<u8>,
    /// The instructions, in order.
    pub code: Seq<WordView>,
    /// The tables.
    pub names: Tables,
}

/// The bytes that the directive adds to the data segment. A file that was
/// not supplied adds none.
pub open spec fn directive_data(dir: DirectiveView, files: Seq<(Seq<char>, Seq<u8>)>) -> Seq<u8> {
    match dir {
        DirectiveView::Zero(size) => zero_data(size as int),
        DirectiveView::Byte(data) => data,
        DirectiveView::Half(data) => half_data(data),
        DirectiveView::Word(data) => word_data(data),
        DirectiveView::IncBin(path) => match included(files, path) {
            Some(data) => data,
            None => Seq::empty(),
        },
        _ => Seq::empty(),
    }
}

/// The first pass on one expression.
///
/// A label names the length of the data segment while no instruction has
/// been seen, and the number of instructions from then on. A name that is
/// bound twice in one table keeps the later binding.
pub open spec fn gather_one(st: Gathered, e: ExpView, files: Seq<(Seq<char>, Seq<u8>)>) -> Gathered {
    match e {
        ExpView::Comment(_) => st,
        ExpView::Label(name) => Gathered {
            names: Tables {
                labels: st.names.labels.insert(
                    name,
                    wrap16(
                        if st.code.len() > 0 {
                            st.code.len() as int
                        } else {
                            st.data.len() as int
                        },
                    ),
                ),
                ..st.names
            },
            ..st
        },
        ExpView::Word(word) => Gathered { code: st.code.push(word), ..st },
        ExpView::Directive(dir) => match dir {
            DirectiveView::Constant(name, val) => Gathered {
                names: Tables { consts: st.names.consts.insert(name, val), ..st.names },
                ..st
            },
            DirectiveView::Alias(name, reg) => Gathered {
                names: Tables { aliases: st.names.aliases.insert(name, reg), ..st.names },
                ..st
            },
            _ => Gathered { data: st.data + directive_data(dir, files), ..st },
        },
    }
}

/// The first pass on the first `n` expressions.
pub open spec fn gathered(exprs: Seq<ExpView>, files: Seq<(Seq<char>, Seq<u8>)>, n: nat) -> Gathered
    decreases n,
{
    if n == 0 {
        Gathered {
            data: Seq::empty(),
            code: Seq::empty(),
            names: Tables { consts: Map::empty(), aliases: Map::empty(), labels: Map::empty() },
        }
    } else {
        gather_one(gathered(exprs, files, (n - 1) as nat), exprs[n - 1], files)
    }
}

/// Whether the expression includes a file that was not supplied.
pub open spec fn lacks_file(e: ExpView, files: Seq<(Seq<char>, Seq<u8>)>) -> bool {
    e matches ExpView::Directive(DirectiveView::IncBin(path)) && included(files, path) is None
}

/// The register that an operand names, if it names one.
pub open spec fn resolved_reg(aliases: Map<Seq<char>, Reg>, r: RegRef) -> Option<Reg> {
    match r {
        RegRef::Direct(reg) => Some(reg),
        RegRef::Alias(name) => if aliases.contains_key(name) {
            Some(aliases[name])
        } else {
            None
        },
    }
}

/// The value of a symbol in the instruction at index `pc`: the index itself
/// for `pc`, else the constant of that name, else the label of that name.
pub open spec fn symbol_value(names: Tables, pc: int, ident: Seq<char>) -> Option<i16> {
    if ident == "pc"@ {
        Some(wrap16(pc))
    } else if names.consts.contains_key(ident) {
        Some(names.consts[ident])
    } else if names.labels.contains_key(ident) {
        Some(names.labels[ident])
    } else {
        None
    }
}

/// The immediate of the instruction at index `pc`: the offset of its address
/// operand plus the value of the operand's symbol, modulo 2^16; the plain
/// immediate where there is no address operand.
pub open spec fn resolved_imm(names: Tables, pc: int, w: WordView) -> Option<i16> {
    match w.imm {
        None => Some(w.plain),
        Some(addr) => match addr.ident {
            None => Some(addr.val),
            Some(ident) => match symbol_value(names, pc, ident) {
                Some(v) => Some(wrap16(addr.val + v)),
                None => None,
            },
        },
    }
}

/// The operand that gives the instruction its `r3`: the base of the address
/// operand where there is one.
pub open spec fn base_ref(w: WordView) -> RegRef {
    match w.imm {
        Some(addr) => addr.reg,
        None => w.r3,
    }
}

/// The instruction that the second pass makes of the source instruction at
/// index `pc`, if every name in it resolves.
pub open spec fn emitted(names: Tables, pc: int, w: WordView) -> Option<Instruction> {
    match (
        resolved_imm(names, pc, w),
        resolved_reg(names.aliases, w.r1),
        resolved_reg(names.aliases, w.r2),
        resolved_reg(names.aliases, base_ref(w)),
    ) {
        (Some(imm), Some(r1), Some(r2), Some(r3)) => Some(
            Instruction { opcode: w.opcode, r1, r2, r3, imm },
        ),
        _ => None,
    }
}

/// The words of the first `n` instructions, four bytes each, high byte
/// first.
pub open spec fn code_bytes(st: Gathered, n: nat) -> Seq<u8>
    decreases n,
{
    if n == 0 {
        Seq::empty()
    } else {
        code_bytes(st, (n - 1) as nat) + be32_bytes(
            emitted(st.names, n - 1, st.code[n - 1])->Some_0.spec_build(),
        )
    }
}

/// The image of a program.
///
/// A program that includes a file that was not supplied fails with
/// `FileReadFailed`. A program without instructions gives no bytes at all.
/// A program in which a name does not resolve fails with `AliasNotFound`.
/// Any other program gives the magic bytes, the length of the data segment
/// modulo 2^16, the data segment and the instruction words.
pub open spec fn assembled(exprs: Seq<ExpView>, files: Seq<(Seq<char>, Seq<u8>)>) -> Result<
    Seq<u8>,
    Error,
> {
    let st = gathered(exprs, files, exprs.len());
    if exists|i: int| 0 <= i < exprs.len() && lacks_file(#[trigger] exprs[i], files) {
        Err(Error::CompilerError(CompilerError::FileReadFailed))
    } else if st.code.len() == 0 {
        Ok(Seq::empty())
    } else if exists|pc: int|
        0 <= pc < st.code.len() && (#[trigger] emitted(st.names, pc, st.code[pc])) is None {
        Err(Error::CompilerError(CompilerError::AliasNotFound))
    } else {
        Ok(
            seq![0xafu8, 0xafu8] + be16_bytes(st.data.len() as int) + st.data + code_bytes(
                st,
                st.code.len(),
            ),
        )
    }
}

/// The table that a list of bindings stands for: a later binding of a name
/// replaces an earlier one.
pub open spec fn bound<V>(entries: Seq<(&str, V)>) -> Map<Seq<char>, V>
    decreases entries.len(),
{
    if entries.len() == 0 {
        Map::empty()
    } else {
        bound(entries.drop_last()).insert(entries.last().0@, entries.last().1)
    }
}

/// The value that `table` binds `name` to.
fn lookup<V: Copy>(table: &Vec<(&str, V)>, name: &str) -> (found: Option<V>)
    ensures
        found == if bound(table@).contains_key(name@) {
            Some(bound(table@)[name@])
        } else {
            None::<V>
        },
{
    let mut i = table.len();
    assert(table@.take(i as int) =~= table@);
    while i > 0
        invariant
            i <= table.len(),
            bound(table@).contains_key(name@) == bound(table@.take(i as int)).contains_key(name@),
            bound(table@).contains_key(name@) ==> bound(table@)[name@] == bound(
                table@.take(i as int),
            )[name@],
        decreases i,
    {
        let ghost prefix = table@.take(i as int);
        assert(prefix.drop_last() =~= table@.take(i - 1));
        i -= 1;
        if str_eq(table[i].0, name) {
            return Some(table[i].1);
        }
    }
    assert(table@.take(0).len() == 0);
    None
}

/// Binds `name` to `val` in `table`.
fn bind<'a, V>(table: &mut Vec<(&'a str, V)>, name: &'a str, val: V)
    ensures
        bound(final(table)@) == bound(old(table)@).insert(name@, val),
{
    table.push((name, val));
    assert(table@.drop_last() =~= old(table)@);
}

/// The low sixteen bits of `n`, as a signed number.
fn low16(n: usize) -> (r: i16)
    ensures
        r == wrap16(n as int),
{
    let u = n % 0x1_0000;
    if u >= 0x8000 {
        (u as i32 - 0x1_0000) as i16
    } else {
        u as i16
    }
}

/// The sum of `a` and `b`, modulo 2^16.
fn add16(a: i16, b: i16) -> (r: i16)
    ensures
        r == wrap16(a + b),
{
    a.wrapping_add(b)
}

/// The contents of the first of `files` whose path is `path`.
fn find_file<'f>(files: &'f [Include], path: &str) -> (found: Option<&'f Vec<u8>>)
    ensures
        match found {
            Some(data) => included(includes_view(files@), path@) == Some(data@),
            None => included(includes_view(files@), path@) is None,
        },
{
    let mut i: usize = 0;
    while i < files.len()
        invariant
            i <= files.len(),
            included(includes_view(files@), path@) == included_from(
                includes_view(files@),
                path@,
                i as int,
            ),
        decreases files.len() - i,
    {
        if str_eq(files[i].path, path) {
            return Some(&files[i].data);
        }
        i += 1;
    }
    None
}

/// Appends `n` zero bytes to `mem`.
fn push_zeros(mem: &mut Vec<u8>, n: i16)
    ensures
        final(mem)@ == old(mem)@ + zero_data(n as int),
{
    let mut i: i16 = 0;
    while i < n
        invariant
            0 <= i,
            i <= n || i == 0,
            mem@ == old(mem)@ + zero_data(i as int),
        decreases n - i,
    {
        mem.push(0);
        i += 1;
        assert(mem@ =~= old(mem)@ + zero_data(i as int));
    }
    assert(mem@ =~= old(mem)@ + zero_data(n as int));
}

/// Appends `data` to `mem`.
fn push_bytes(mem: &mut Vec<u8>, data: &[u8])
    ensures
        final(mem)@ == old(mem)@ + data@,
{
    let mut i: usize = 0;
    while i < data.len()
        invariant
            i <= data.len(),
            mem@ == old(mem)@ + data@.take(i as int),
        decreases data.len() - i,
    {
        mem.push(data[i]);
        i += 1;
        assert(mem@ =~= old(mem)@ + data@.take(i as int));
    }
    assert(data@.take(data.len() as int) =~= data@);
}

/// Appends each number of `data` to `mem`, high byte first.
fn push_halves(mem: &mut Vec<u8>, data: &[u16])
    ensures
        final(mem)@ == old(mem)@ + half_data(data@),
{
    let mut buf = [0u8, 0u8];
    let mut i: usize = 0;
    assert(mem@ =~= old(mem)@ + half_data(data@.take(0)));
    while i < data.len()
        invariant
            i <= data.len(),
            mem@ == old(mem)@ + half_data(data@.take(i as int)),
        decreases data.len() - i,
    {
        write_u16(&mut buf, data[i]);
        mem.push(buf[0]);
        mem.push(buf[1]);
        i += 1;
        proof {
            let next = data@.take(i as int);
            assert(next.drop_last() =~= data@.take(i - 1));
            assert(mem@ =~= old(mem)@ + half_data(next));
        }
    }
    assert(data@.take(data.len() as int) =~= data@);
}

/// Appends the four bytes of `n` to `mem`, high byte first.
fn push_word(mem: &mut Vec<u8>, n: u32)
    ensures
        final(mem)@ == old(mem)@ + be32_bytes(n as int),
{
    let mut buf = [0u8, 0u8, 0u8, 0u8];
    write_u32(&mut buf, n);
    mem.push(buf[0]);
    mem.push(buf[1]);
    mem.push(buf[2]);
    mem.push(buf[3]);
    assert(mem@ =~= old(mem)@ + be32_bytes(n as int));
}

/// Appends each number of `data` to `mem`, high byte first.
fn push_words(mem: &mut Vec<u8>, data: &[u32])
    ensures
        final(mem)@ == old(mem)@ + word_data(data@),
{
    let mut i: usize = 0;
    assert(mem@ =~= old(mem)@ + word_data(data@.take(0)));
    while i < data.len()
        invariant
            i <= data.len(),
            mem@ == old(mem)@ + word_data(data@.take(i as int)),
        decreases data.len() - i,
    {
        push_word(mem, data[i]);
        i += 1;
        proof {
            let next = data@.take(i as int);
            assert(next.drop_last() =~= data@.take(i - 1));
            assert(mem@ =~= old(mem)@ + word_data(next));
        }
    }
    assert(data@.take(data.len() as int) =~= data@);
}

/// The tables as the assembler keeps them: lists of bindings.
struct Symbols<'a> {
    consts: Vec<(&'a str, i16)>,
    aliases: Vec<(&'a str, Reg)>,
    labels: Vec<(&'a str, i16)>,
}

impl<'a> View for Symbols<'a> {
    type V = Tables;

    closed spec fn view(&self) -> Tables {
        Tables {
            consts: bound(self.consts@),
            aliases: bound(self.aliases@),
            labels: bound(self.labels@),
        }
    }
}

/// The views of a list of instructions.
spec fn words_view(words: Seq<&Word>) -> Seq<WordView> {
    Seq::new(words.len(), |i: int| words[i]@)
}

/// The register that `link` names.
fn resolve_reg(symbols: &Symbols, link: &RegLink) -> (res: Option<Reg>)
    ensures
        res == resolved_reg(symbols@.aliases, link@),
{
    match link {
        RegLink::Direct(reg) => Some(*reg),
        RegLink::Alias(ident) => lookup(&symbols.aliases, ident),
    }
}

/// The value of the symbol `ident` in the instruction at index `pc`.
fn resolve_symbol(symbols: &Symbols, pc: usize, ident: &str) -> (res: Option<i16>)
    ensures
        res == symbol_value(symbols@, pc as int, ident@),
{
    if str_eq(ident, "pc") {
        Some(low16(pc))
    } else {
        match lookup(&symbols.consts, ident) {
            Some(val) => Some(val),
            None => lookup(&symbols.labels, ident),
        }
    }
}

/// The instruction that the source instruction `word` at index `pc` stands
/// for.
fn emit(symbols: &Symbols, pc: usize, word: &Word) -> (res: Option<Instruction>)
    ensures
        res == emitted(symbols@, pc as int, word@),
{
    let (base, imm) = match &word.imm {
        Some(addr) => {
            let val = match addr.ident {
                Some(ident) => match resolve_symbol(symbols, pc, ident) {
                    Some(offset) => add16(addr.val, offset),
                    None => {
                        return None;
                    },
                },
                None => addr.val,
            };
            (&addr.reg, val)
        },
        None => (&word.r3, word.plain),
    };
    let r1 = match resolve_reg(symbols, &word.r1) {
        Some(reg) => reg,
        None => {
            return None;
        },
    };
    let r2 = match resolve_reg(symbols, &word.r2) {
        Some(reg) => reg,
        None => {
            return None;
        },
    };
    let r3 = match resolve_reg(symbols, base) {
        Some(reg) => reg,
        None => {
            return None;
        },
    };
    Some(Instruction::new(word.opcode, r1, r2, r3, imm))
}

/// Assembles `exprs`. `files` holds the contents of the files that the
/// program includes; an `IncBin` directive takes the first whose path is the
/// directive's.
pub fn compile_with(exprs: &[Exp], files: &[Include]) -> (res: Result<Vec<u8>, Error>)
    ensures
        match res {
            Ok(image) => assembled(program_view(exprs@), includes_view(files@)) == Ok::<
                Seq<u8>,
                Error,
            >(image@),
            Err(e) => assembled(program_view(exprs@), includes_view(files@)) == Err::<
                Seq<u8>,
                Error,
            >(e),
        },
{
    let ghost pv = program_view(exprs@);
    let ghost fv = includes_view(files@);
    let mut symbols = Symbols { consts: Vec::new(), aliases: Vec::new(), labels: Vec::new() };
    let mut words: Vec<&Word> = Vec::new();
    let mut mem: Vec<u8> = Vec::new();

    assert(words_view(words@) =~= Seq::<WordView>::empty());
    let mut i: usize = 0;
    while i < exprs.len()
        invariant
            i <= exprs.len(),
            pv == program_view(exprs@),
            fv == includes_view(files@),
            gathered(pv, fv, i as nat) == (Gathered {
                data: mem@,
                code: words_view(words@),
                names: symbols@,
            }),
            forall|j: int| 0 <= j < i ==> !lacks_file(#[trigger] pv[j], fv),
        decreases exprs.len() - i,
    {
        let ghost st = gathered(pv, fv, i as nat);
        let ghost old_words = words@;
        assert(pv[i as int] == exprs@[i as int]@);
        match &exprs[i] {
            Exp::Comment(_) => {},
            Exp::Label(label) => {
                let offset = if words.len() > 0 {
                    words.len()
                } else {
                    mem.len()
                };
                bind(&mut symbols.labels, label, low16(offset));
            },
            Exp::Word(word) => {
                words.push(word);
                assert(words_view(words@) =~= words_view(old_words).push(word@));
            },
            Exp::Directive(dir) => {
                match dir {
                    Directive::Constant(ident, val) => {
                        bind(&mut symbols.consts, ident, *val);
                    },
                    Directive::Alias(ident, reg) => {
                        bind(&mut symbols.aliases, ident, *reg);
                    },
                    Directive::Zero(size) => {
                        push_zeros(&mut mem, *size);
                    },
                    Directive::Byte(data) => {
                        push_bytes(&mut mem, data.as_slice());
                    },
                    Directive::Half(data) => {
                        push_halves(&mut mem, data.as_slice());
                    },
                    Directive::Word(data) => {
                        push_words(&mut mem, data.as_slice());
                    },
                    Directive::IncBin(path) => {
                        match find_file(files, path) {
                            Some(data) => {
                                push_bytes(&mut mem, data.as_slice());
                            },
                            None => {
                                assert(lacks_file(pv[i as int], fv));
                                return Err(Error::CompilerError(CompilerError::FileReadFailed));
                            },
                        }
                    },
                }
            },
        }
        i += 1;
    }

    let ghost st = gathered(pv, fv, pv.len());
    if words.len() == 0 {
        let empty: Vec<u8> = Vec::new();
        return Ok(empty);
    }
    let mut prog: Vec<u8> = Vec::new();
    prog.push(0xaf);
    prog.push(0xaf);
    let mut buf = [0u8, 0u8];
    write_u16(&mut buf, (mem.len() % 0x1_0000) as u16);
    prog.push(buf[0]);
    prog.push(buf[1]);
    push_bytes(&mut prog, mem.as_slice());
    let ghost head = seq![0xafu8, 0xafu8] + be16_bytes(st.data.len() as int) + st.data;
    proof {
        crate::endian::lemma_be16_low(mem@.len() as int);
        assert(prog@ =~= head + code_bytes(st, 0));
    }

    let mut pc: usize = 0;
    while pc < words.len()
        invariant
            pc <= words.len(),
            pv == program_view(exprs@),
            fv == includes_view(files@),
            st == gathered(pv, fv, pv.len()),
            forall|j: int| 0 <= j < pv.len() ==> !lacks_file(#[trigger] pv[j], fv),
            st.code == words_view(words@),
            st.names == symbols@,
            prog@ == head + code_bytes(st, pc as nat),
            forall|j: int| 0 <= j < pc ==> (#[trigger] emitted(st.names, j, st.code[j])) is Some,
        decreases words.len() - pc,
    {
        match emit(&symbols, pc, words[pc]) {
            Some(inst) => {
                push_word(&mut prog, inst.build());
            },
            None => {
                assert(emitted(st.names, pc as int, st.code[pc as int]) is None);
                return Err(Error::CompilerError(CompilerError::AliasNotFound));
            },
        }
        pc += 1;
        assert(prog@ =~= head + code_bytes(st, pc as nat));
    }
    Ok(prog)
}

/// Assembles `exprs` with no files at hand: a program that includes a file
/// fails with `FileReadFailed`.
pub fn compile(exprs: &[Exp]) -> (res: Result<Vec<u8>, Error>)
    ensures
        match res {
            Ok(image) => assembled(program_view(exprs@), Seq::empty()) == Ok::<Seq<u8>, Error>(
                image@,
            ),
            Err(e) => assembled(program_view(exprs@), Seq::empty()) == Err::<Seq<u8>, Error>(e),
        },
{
    let files: [Include; 0] = [];
    assert(includes_view(files@) =~= Seq::empty());
    compile_with(exprs, files.as_slice())
}

/// The paths that the first `n` expressions include, in order.
pub open spec fn include_paths(exprs: Seq<ExpView>, n: nat) -> Seq<Seq<char>>
    decreases n,
{
    if n == 0 {
        Seq::empty()
    } else {
        let before = include_paths(exprs, (n - 1) as nat);
        match exprs[n - 1] {
            ExpView::Directive(DirectiveView::IncBin(path)) => before.push(path),
            _ => before,
        }
    }
}

/// The paths of the files that `exprs` includes, in the order of the
/// program: what to read before `compile_with` is called.
pub fn includes<'a>(exprs: &[Exp<'a>]) -> (paths: Vec<&'a str>)
    ensures
        paths@.len() == include_paths(program_view(exprs@), exprs@.len()).len(),
        forall|j: int|
            0 <= j < paths@.len() ==> (#[trigger] paths@[j])@ == include_paths(
                program_view(exprs@),
                exprs@.len(),
            )[j],
{
    let ghost pv = program_view(exprs@);
    let mut paths: Vec<&'a str> = Vec::new();
    let mut i: usize = 0;
    while i < exprs.len()
        invariant
            i <= exprs.len(),
            pv == program_view(exprs@),
            paths@.len() == include_paths(pv, i as nat).len(),
            forall|j: int|
                0 <= j < paths@.len() ==> (#[trigger] paths@[j])@ == include_paths(pv, i as nat)[j],
        decreases exprs.len() - i,
    {
        assert(pv[i as int] == exprs@[i as int]@);
        match &exprs[i] {
            Exp::Directive(Directive::IncBin(path)) => {
                paths.push(*path);
            },
            _ => {},
        }
        i += 1;
    }
    paths
}

/// Each instruction takes four bytes.
pub proof fn lemma_code_bytes_len(st: Gathered, n: nat)
    ensures
        code_bytes(st, n).len() == 4 * n,
    decreases n,
{
    if n > 0 {
        lemma_code_bytes_len(st, (n - 1) as nat);
    }
}

/// The four bytes at index `pc` of the instruction words are the word of the
/// instruction at index `pc`.
pub proof fn lemma_code_bytes_at(st: Gathered, n: nat, pc: int)
    requires
        0 <= pc < n,
    ensures
        code_bytes(st, n).subrange(4 * pc, 4 * pc + 4) == be32_bytes(
            emitted(st.names, pc, st.code[pc])->Some_0.spec_build(),
        ),
    decreases n,
{
    let before = code_bytes(st, (n - 1) as nat);
    let last = be32_bytes(emitted(st.names, n - 1, st.code[n - 1])->Some_0.spec_build());
    lemma_code_bytes_len(st, (n - 1) as nat);
    if pc == n - 1 {
        assert((before + last).subrange(4 * pc, 4 * pc + 4) =~= last);
    } else {
        lemma_code_bytes_at(st, (n - 1) as nat, pc);
        assert((before + last).subrange(4 * pc, 4 * pc + 4) =~= before.subrange(
            4 * pc,
            4 * pc + 4,
        ));
    }
}

/// An assembled image is a valid image, and its parts are what the assembler
/// gathered: the data segment byte for byte, and the instruction words.
///
/// This holds of a program with at least one instruction whose data segment
/// is shorter than 2^16 bytes. A longer data segment does not fit the
/// header's two bytes: the header then holds its length modulo 2^16.
pub proof fn lemma_image_round_trip(
    exprs: Seq<ExpView>,
    files: Seq<(Seq<char>, Seq<u8>)>,
    image: Seq<u8>,
)
    requires
        assembled(exprs, files) == Ok::<Seq<u8>, Error>(image),
        gathered(exprs, files, exprs.len()).code.len() > 0,
        gathered(exprs, files, exprs.len()).data.len() < 0x1_0000,
    ensures
        valid_image(image),
        image_data(image) == gathered(exprs, files, exprs.len()).data,
        image_code(image) == code_bytes(
            gathered(exprs, files, exprs.len()),
            gathered(exprs, files, exprs.len()).code.len(),
        ),
{
    let st = gathered(exprs, files, exprs.len());
    let code = code_bytes(st, st.code.len());
    let len = st.data.len() as int;
    lemma_code_bytes_len(st, st.code.len());
    crate::endian::lemma_be16_low(len);
    assert(image =~= seq![0xafu8, 0xafu8] + be16_bytes(len) + st.data + code);
    assert(image.subrange(2, 4) =~= be16_bytes(len));
    assert(data_len(image) == len);
    assert(image_data(image) =~= st.data);
    assert(image_code(image) =~= code);
}

/// The machine reads from an assembled image the instructions that the
/// assembler wrote: at each index it fetches the instruction emitted there,
/// with the register slots that its format does not use set to register 0.
pub proof fn lemma_image_fetch(
    exprs: Seq<ExpView>,
    files: Seq<(Seq<char>, Seq<u8>)>,
    image: Seq<u8>,
    pc: nat,
)
    requires
        assembled(exprs, files) == Ok::<Seq<u8>, Error>(image),
        pc < gathered(exprs, files, exprs.len()).code.len(),
        gathered(exprs, files, exprs.len()).data.len() < 0x1_0000,
    ensures
        ({
            let st = gathered(exprs, files, exprs.len());
            &&& emitted(st.names, pc as int, st.code[pc as int]) is Some
            &&& fetched(Some(image_code(image)), pc) == Ok::<Instruction, VMError>(
                emitted(st.names, pc as int, st.code[pc as int])->Some_0.canonical(),
            )
        }),
{
    let st = gathered(exprs, files, exprs.len());
    let n = st.code.len();
    lemma_image_round_trip(exprs, files, image);
    lemma_code_bytes_len(st, n);
    lemma_code_bytes_at(st, n, pc as int);
    assert(emitted(st.names, pc as int, st.code[pc as int]) is Some);
    let inst = emitted(st.names, pc as int, st.code[pc as int])->Some_0;
    lemma_parse_build(inst);
    crate::endian::lemma_be32_round_trip(inst.spec_build());
    assert(image_code(image).subrange(pc as int * 4, pc as int * 4 + 4) == be32_bytes(
        inst.spec_build(),
    ));
}

} // verus!
