//! The syntax tree that the assembler consumes, and the parser that makes it
//! of assembly text.
//!
//! Names in the tree are slices of the text. The contracts speak of a tree by
//! its view, in which a name is its sequence of characters.
//!
//! # The text
//!
//! A program is ASCII text. Spaces, tabs, line breaks, commas and semicolons
//! separate its tokens and mean nothing else. A `#` starts a comment that runs
//! to the end of the line. The expressions follow one another:
//!
//! ```text
//! name:                     a label
//! .equ NAME 42              a constant
//! .alias NAME s0            an alias for a register
//! .byte 1 0x02 -3           bytes; .half and .word alike, high byte first
//! .zero 16                  so many zero bytes
//! .string "text"            the bytes of the text
//! .incbin "path"            the bytes of a file
//! add s0 s1 s2              an instruction
//! ```
//!
//! A number is decimal, or hexadecimal behind `0x`, or binary behind `0b`, and
//! may have a minus sign. A register is `zero`, `ra` or `s0` to `s5`; any
//! other name where a register is due is an alias. An address is a number, a
//! symbol, or either with a register in brackets behind it: `8`, `buf`,
//! `8(s1)`, `buf(s1)`; a symbol may also stand in the brackets behind a
//! number, as in `2(pc)`, and then adds to it. [`mnemonic`] lists the
//! instructions and [`parsed`] says exactly what a text spells.

use crate::endian::wrap16;
use crate::isa::{Opcode, Reg};
use crate::text::str_eq;
use crate::Error;
use vstd::prelude::*;
use vstd::string::StrSliceExecFns;

verus! {

/// A register operand as the contracts see it.
pub ghost enum RegRef {
    /// A name that an alias directive binds to a register.
    Alias(Seq<char>),
    /// The register itself.
    Direct(Reg),
}

/// An address operand as the contracts see it.
pub ghost struct Address {
    /// The base register.
    pub reg: RegRef,
    /// The offset.
    pub val: i16,
    /// The symbol whose value is added to the offset, if there is one.
    pub ident: Option<Seq<char>>,
}

/// An instruction of the source text as the contracts see it.
pub ghost struct WordView {
    pub opcode: Opcode,
    pub r1: RegRef,
    pub r2: RegRef,
    pub r3: RegRef,
    pub imm: Option<Address>,
    pub plain: i16,
}

/// A directive as the contracts see it.
pub ghost enum DirectiveView {
    Constant(Seq<char>, i16),
    Alias(Seq<char>, Reg),
    Byte(Seq<u8>),
    Half(Seq<u16>),
    Word(Seq<u32>),
    IncBin(Seq<char>),
    Zero(i16),
}

/// An expression as the contracts see it.
pub ghost enum ExpView {
    Word(WordView),
    Label(Seq<char>),
    Comment(Seq<char>),
    Directive(DirectiveView),
}

/// A register operand: a register, or the name of an alias for one.
#[derive(Debug, Clone, Copy, PartialEq, Eq)]
pub enum RegLink<'a> {
    Alias(&'a str),
    Direct(Reg),
}

impl<'a> View for RegLink<'a> {
    type V = RegRef;

    open spec fn view(&self) -> RegRef {
        match *self {
            RegLink::Alias(name) => RegRef::Alias(name@),
            RegLink::Direct(reg) => RegRef::Direct(reg),
        }
    }
}

impl<'a> RegLink<'a> {
    /// Register 0.
    pub fn zero() -> (link: Self)
        ensures
            link@ == RegRef::Direct(Reg::zero),
    {
        RegLink::Direct(Reg::zero)
    }
}

/// An address operand: a base register, an offset and, optionally, a symbol
/// whose value the assembler adds to the offset. The symbol is `pc`, a
/// constant or a label.
#[derive(Debug, PartialEq, Eq)]
pub struct Immediate<'a> {
    pub reg: RegLink<'a>,
    pub val: i16,
    pub ident: Option<&'a str>,
}

impl<'a> View for Immediate<'a> {
    type V = Address;

    open spec fn view(&self) -> Address {
        Address {
            reg: self.reg@,
            val: self.val,
            ident: match self.ident {
                Some(name) => Some(name@),
                None => None,
            },
        }
    }
}

impl<'a> Immediate<'a> {
    /// An address relative to the register `reg`.
    pub fn relative(reg: RegLink<'a>, val: i16, ident: Option<&'a str>) -> (imm: Self)
        ensures
            imm.reg == reg,
            imm.val == val,
            imm.ident == ident,
    {
        Immediate { reg, val, ident }
    }

    /// An address with register 0 for its base.
    pub fn absolute(val: i16, ident: Option<&'a str>) -> (imm: Self)
        ensures
            imm.reg@ == RegRef::Direct(Reg::zero),
            imm.val == val,
            imm.ident == ident,
    {
        Immediate { reg: RegLink::zero(), val, ident }
    }
}

/// An instruction of the source text. Its immediate comes from the address
/// operand `imm` where there is one, and is `plain` where there is none.
#[derive(Debug, PartialEq, Eq)]
pub struct Word<'a> {
    pub opcode: Opcode,
    pub r1: RegLink<'a>,
    pub r2: RegLink<'a>,
    pub r3: RegLink<'a>,
    pub imm: Option<Immediate<'a>>,
    pub plain: i16,
}

impl<'a> View for Word<'a> {
    type V = WordView;

    open spec fn view(&self) -> WordView {
        WordView {
            opcode: self.opcode,
            r1: self.r1@,
            r2: self.r2@,
            r3: self.r3@,
            imm: match self.imm {
                Some(imm) => Some(imm@),
                None => None,
            },
            plain: self.plain,
        }
    }
}

impl<'a> Word<'a> {
    /// An instruction with the given operands and the plain immediate 0.
    pub fn new(
        opcode: Opcode,
        r1: RegLink<'a>,
        r2: RegLink<'a>,
        r3: RegLink<'a>,
        imm: Option<Immediate<'a>>,
    ) -> (word: Self)
        ensures
            word.opcode == opcode,
            word.r1 == r1,
            word.r2 == r2,
            word.r3 == r3,
            word.imm == imm,
            word.plain == 0,
    {
        Word { opcode, r1, r2, r3, imm, plain: 0 }
    }

    /// An instruction on three registers with the plain immediate `plain` and
    /// no address operand.
    pub fn with_plain(
        opcode: Opcode,
        r1: RegLink<'a>,
        r2: RegLink<'a>,
        r3: RegLink<'a>,
        plain: i16,
    ) -> (word: Self)
        ensures
            word.opcode == opcode,
            word.r1 == r1,
            word.r2 == r2,
            word.r3 == r3,
            word.imm is None,
            word.plain == plain,
    {
        Word { opcode, r1, r2, r3, imm: None, plain }
    }
}

/// A directive: a constant, a register alias, or bytes for the data segment.
#[derive(Debug, PartialEq, Eq)]
pub enum Directive<'a> {
    /// Binds a name to a number.
    Constant(&'a str, i16),
    /// Binds a name to a register.
    Alias(&'a str, Reg),
    /// The bytes themselves.
    Byte(Vec<u8>),
    /// Numbers of sixteen bits, each stored high byte first.
    Half(Vec<u16>),
    /// Numbers of thirty-two bits, each stored high byte first.
    Word(Vec<u32>),
    /// The contents of the file at a path.
    IncBin(&'a str),
    /// That many zero bytes; none where the number is negative.
    Zero(i16),
}

impl<'a> View for Directive<'a> {
    type V = DirectiveView;

    open spec fn view(&self) -> DirectiveView {
        match *self {
            Directive::Constant(name, val) => DirectiveView::Constant(name@, val),
            Directive::Alias(name, reg) => DirectiveView::Alias(name@, reg),
            Directive::Byte(data) => DirectiveView::Byte(data@),
            Directive::Half(data) => DirectiveView::Half(data@),
            Directive::Word(data) => DirectiveView::Word(data@),
            Directive::IncBin(path) => DirectiveView::IncBin(path@),
            Directive::Zero(size) => DirectiveView::Zero(size),
        }
    }
}

/// One expression of a program.
#[derive(Debug, PartialEq, Eq)]
pub enum Exp<'a> {
    /// An instruction.
    Word(Word<'a>),
    /// A name for the next address: of the data segment before the first
    /// instruction, of the code from then on.
    Label(&'a str),
    /// A comment; the assembler passes over it.
    Comment(&'a str),
    /// A directive.
    Directive(Directive<'a>),
}

impl<'a> View for Exp<'a> {
    type V = ExpView;

    open spec fn view(&self) -> ExpView {
        match *self {
            Exp::Word(word) => ExpView::Word(word@),
            Exp::Label(name) => ExpView::Label(name@),
            Exp::Comment(text) => ExpView::Comment(text@),
            Exp::Directive(dir) => ExpView::Directive(dir@),
        }
    }
}

/// A program: its expressions in the order of the text.
pub type Exprs<'a> = Vec<Exp<'a>>;

/// The views of the expressions of a program, in order.
pub open spec fn program_view(exprs: Seq<Exp>) -> Seq<ExpView> {
    Seq::new(exprs.len(), |i: int| exprs[i]@)
}

/// The byte of the character at index `i`. The parser reads ASCII text only,
/// so a character is its byte.
pub open spec fn byte_at(text: Seq<char>, i: int) -> u8 {
    text[i] as u8
}

/// Whether `b` separates tokens: a space, a tab, a line break, a comma or a
/// semicolon.
pub open spec fn is_blank(b: u8) -> bool {
    b == 0x20 || b == 0x09 || b == 0x0a || b == 0x0d || b == 0x2c || b == 0x3b
}

/// Whether `b` is a token of its own: a bracket, a colon, a quote or the
/// comment sign.
pub open spec fn is_mark(b: u8) -> bool {
    b == 0x28 || b == 0x29 || b == 0x3a || b == 0x22 || b == 0x23
}

/// Whether `b` can stand in a name or a number: any printable byte that
/// neither separates tokens nor is one.
pub open spec fn is_atom_byte(b: u8) -> bool {
    0x20 < b < 0x7f && !is_blank(b) && !is_mark(b)
}

/// Whether a name can start with `b`: a letter or an underscore.
pub open spec fn is_name_start(b: u8) -> bool {
    0x41 <= b <= 0x5a || 0x61 <= b <= 0x7a || b == 0x5f
}

/// Whether a number starts with `b`: a digit or a minus sign.
pub open spec fn is_number_start(b: u8) -> bool {
    0x30 <= b <= 0x39 || b == 0x2d
}

/// The first index from `i` on that holds no separator.
pub open spec fn skip_blank(text: Seq<char>, i: int) -> int
    decreases text.len() - i,
{
    if 0 <= i < text.len() && is_blank(byte_at(text, i)) {
        skip_blank(text, i + 1)
    } else {
        i
    }
}

/// The end of the atom that starts at `i`: the first index from `i` on that
/// holds no atom byte.
pub open spec fn atom_end(text: Seq<char>, i: int) -> int
    decreases text.len() - i,
{
    if 0 <= i < text.len() && is_atom_byte(byte_at(text, i)) {
        atom_end(text, i + 1)
    } else {
        i
    }
}

/// The first index from `i` on that holds the byte `stop`, or the length of
/// the text.
pub open spec fn find_byte(text: Seq<char>, i: int, stop: u8) -> int
    decreases text.len() - i,
{
    if 0 <= i < text.len() && byte_at(text, i) != stop {
        find_byte(text, i + 1, stop)
    } else {
        i
    }
}

/// The value of the digit `b` in the given base: 2, 10 or 16.
pub open spec fn digit_value(b: u8, base: int) -> Option<int> {
    let v = if 0x30 <= b <= 0x39 {
        b - 0x30
    } else if 0x61 <= b <= 0x66 {
        b - 0x61 + 10
    } else if 0x41 <= b <= 0x46 {
        b - 0x41 + 10
    } else {
        16
    };
    if v < base {
        Some(v)
    } else {
        None
    }
}

/// The largest magnitude that a number in the text may have.
pub const NUMBER_MAX: u64 = 0xffff_ffff;

/// The value of the digits from `from` to `to`, if all are digits of the
/// base and the value is at most [`NUMBER_MAX`]. No digits are worth 0.
pub open spec fn digits(text: Seq<char>, from: int, to: int, base: int) -> Option<int>
    decreases to - from,
{
    if to <= from {
        Some(0)
    } else {
        match (digits(text, from, to - 1, base), digit_value(byte_at(text, to - 1), base)) {
            (Some(high), Some(d)) => if high * base + d <= NUMBER_MAX {
                Some(high * base + d)
            } else {
                None
            },
            _ => None,
        }
    }
}

/// The number that the atom from `from` to `to` spells: an optional minus
/// sign, an optional `0x` for hexadecimal or `0b` for binary, and at least
/// one digit.
pub open spec fn number(text: Seq<char>, from: int, to: int) -> Option<int> {
    let negative = from < to && byte_at(text, from) == 0x2d;
    let start = if negative {
        from + 1
    } else {
        from
    };
    let marked = start + 2 <= to && byte_at(text, start) == 0x30;
    let base: int = if marked && (byte_at(text, start + 1) == 0x78 || byte_at(text, start + 1)
        == 0x58) {
        16
    } else if marked && (byte_at(text, start + 1) == 0x62 || byte_at(text, start + 1) == 0x42) {
        2
    } else {
        10
    };
    let first = if base == 10 {
        start
    } else {
        start + 2
    };
    if first >= to {
        None
    } else {
        match digits(text, first, to, base) {
            Some(v) => Some(
                if negative {
                    -v
                } else {
                    v
                },
            ),
            None => None,
        }
    }
}

/// The text under the parser's hands: the string and its bytes.
struct Source<'a> {
    code: &'a str,
    bytes: &'a [u8],
}

impl<'a> Source<'a> {
    /// Whether the string is ASCII and `bytes` holds its characters.
    spec fn wf(&self) -> bool {
        &&& self.code.is_ascii()
        &&& self.bytes@.len() == self.code@.len()
        &&& forall|i: int|
            0 <= i < self.code@.len() ==> #[trigger] self.bytes@[i] == byte_at(self.code@, i)
    }

    /// The characters of the text.
    spec fn text(&self) -> Seq<char> {
        self.code@
    }

    /// The text `code`, if it is ASCII.
    fn new(code: &'a str) -> (src: Option<Self>)
        ensures
            src is Some <==> vstd::string::is_ascii(code),
            src matches Some(s) ==> s.wf() && s.text() == code@,
    {
        if !code.is_ascii() {
            return None;
        }
        let bytes = code.as_bytes();
        proof {
            vstd::string::is_ascii_spec_bytes(code);
        }
        Some(Source { code, bytes })
    }

    /// The number of characters.
    fn len(&self) -> (n: usize)
        requires
            self.wf(),
        ensures
            n == self.text().len(),
    {
        self.bytes.len()
    }

    /// The byte at index `i`.
    fn at(&self, i: usize) -> (b: u8)
        requires
            self.wf(),
            i < self.text().len(),
        ensures
            b == byte_at(self.text(), i as int),
    {
        self.bytes[i]
    }

    /// The characters from `from` to `to`.
    fn slice(&self, from: usize, to: usize) -> (name: &'a str)
        requires
            self.wf(),
            from <= to <= self.text().len(),
        ensures
            name@ == self.text().subrange(from as int, to as int),
    {
        self.code.substring_ascii(from, to)
    }

    /// The first index from `i` on that holds no separator.
    fn skip_blank(&self, i: usize) -> (j: usize)
        requires
            self.wf(),
            i <= self.text().len(),
        ensures
            j == skip_blank(self.text(), i as int),
            i <= j <= self.text().len(),
    {
        let mut j = i;
        while j < self.len() && blank(self.at(j))
            invariant
                self.wf(),
                i <= j <= self.text().len(),
                skip_blank(self.text(), i as int) == skip_blank(self.text(), j as int),
            decreases self.text().len() - j,
        {
            j += 1;
        }
        j
    }

    /// The end of the atom that starts at `i`.
    fn atom_end(&self, i: usize) -> (j: usize)
        requires
            self.wf(),
            i <= self.text().len(),
        ensures
            j == atom_end(self.text(), i as int),
            i <= j <= self.text().len(),
    {
        let mut j = i;
        while j < self.len() && atom_byte(self.at(j))
            invariant
                self.wf(),
                i <= j <= self.text().len(),
                atom_end(self.text(), i as int) == atom_end(self.text(), j as int),
            decreases self.text().len() - j,
        {
            j += 1;
        }
        j
    }

    /// The first index from `i` on that holds `stop`, or the length.
    fn find_byte(&self, i: usize, stop: u8) -> (j: usize)
        requires
            self.wf(),
            i <= self.text().len(),
        ensures
            j == find_byte(self.text(), i as int, stop),
            i <= j <= self.text().len(),
    {
        let mut j = i;
        while j < self.len() && self.at(j) != stop
            invariant
                self.wf(),
                i <= j <= self.text().len(),
                find_byte(self.text(), i as int, stop) == find_byte(self.text(), j as int, stop),
            decreases self.text().len() - j,
        {
            j += 1;
        }
        j
    }

    /// The value of the digits from `from` to `to`.
    fn digits(&self, from: usize, to: usize, base: u64) -> (res: Option<u64>)
        requires
            self.wf(),
            from <= to <= self.text().len(),
            base == 2 || base == 10 || base == 16,
        ensures
            res matches Some(v) ==> v <= NUMBER_MAX,
            match res {
                Some(v) => digits(self.text(), from as int, to as int, base as int) == Some(
                    v as int,
                ),
                None => digits(self.text(), from as int, to as int, base as int) is None,
            },
    {
        let mut acc: u64 = 0;
        let mut i = from;
        while i < to
            invariant
                self.wf(),
                from <= i <= to <= self.text().len(),
                base == 2 || base == 10 || base == 16,
                acc <= NUMBER_MAX,
                digits(self.text(), from as int, i as int, base as int) == Some(acc as int),
            decreases to - i,
        {
            let d = match digit(self.at(i), base) {
                Some(d) => d,
                None => {
                    proof {
                        lemma_digits_fail(self.text(), from as int, i as int + 1, to as int, base as int);
                    }
                    return None;
                },
            };
            assert(acc * base <= NUMBER_MAX * 16) by (nonlinear_arith)
                requires
                    acc <= NUMBER_MAX,
                    base <= 16,
            ;
            let next = acc * base + d;
            if next > NUMBER_MAX {
                proof {
                    lemma_digits_fail(self.text(), from as int, i as int + 1, to as int, base as int);
                }
                return None;
            }
            acc = next;
            i += 1;
        }
        Some(acc)
    }

    /// The number that the atom from `from` to `to` spells.
    fn number(&self, from: usize, to: usize) -> (res: Option<i64>)
        requires
            self.wf(),
            from <= to <= self.text().len(),
        ensures
            res matches Some(v) ==> -NUMBER_MAX <= v <= NUMBER_MAX,
            match res {
                Some(v) => number(self.text(), from as int, to as int) == Some(v as int),
                None => number(self.text(), from as int, to as int) is None,
            },
    {
        let negative = from < to && self.at(from) == 0x2d;
        let start = if negative {
            from + 1
        } else {
            from
        };
        let marked = to - start >= 2 && self.at(start) == 0x30;
        let base: u64 = if marked && (self.at(start + 1) == 0x78 || self.at(start + 1) == 0x58) {
            16
        } else if marked && (self.at(start + 1) == 0x62 || self.at(start + 1) == 0x42) {
            2
        } else {
            10
        };
        let first = if base == 10 {
            start
        } else {
            start + 2
        };
        if first >= to {
            return None;
        }
        match self.digits(first, to, base) {
            Some(v) => if negative {
                Some(-(v as i64))
            } else {
                Some(v as i64)
            },
            None => None,
        }
    }
}

/// Once a prefix of the digits has no value, the whole has none.
proof fn lemma_digits_fail(text: Seq<char>, from: int, mid: int, to: int, base: int)
    requires
        from <= mid <= to,
        digits(text, from, mid, base) is None,
    ensures
        digits(text, from, to, base) is None,
    decreases to - mid,
{
    if mid < to {
        lemma_digits_fail(text, from, mid, to - 1, base);
    }
}

/// Whether `b` separates tokens.
fn blank(b: u8) -> (r: bool)
    ensures
        r == is_blank(b),
{
    b == 0x20 || b == 0x09 || b == 0x0a || b == 0x0d || b == 0x2c || b == 0x3b
}

/// Whether `b` can stand in a name or a number.
fn atom_byte(b: u8) -> (r: bool)
    ensures
        r == is_atom_byte(b),
{
    0x20 < b && b < 0x7f && !blank(b) && !(b == 0x28 || b == 0x29 || b == 0x3a || b == 0x22 || b
        == 0x23)
}

/// Whether a name can start with `b`.
fn name_start(b: u8) -> (r: bool)
    ensures
        r == is_name_start(b),
{
    (0x41 <= b && b <= 0x5a) || (0x61 <= b && b <= 0x7a) || b == 0x5f
}

/// Whether a number starts with `b`.
fn number_start(b: u8) -> (r: bool)
    ensures
        r == is_number_start(b),
{
    (0x30 <= b && b <= 0x39) || b == 0x2d
}

/// The value of the digit `b` in the given base.
fn digit(b: u8, base: u64) -> (res: Option<u64>)
    requires
        base <= 16,
    ensures
        res matches Some(d) ==> d < base,
        match res {
            Some(d) => digit_value(b, base as int) == Some(d as int),
            None => digit_value(b, base as int) is None,
        },
{
    let v: u64 = if 0x30 <= b && b <= 0x39 {
        (b - 0x30) as u64
    } else if 0x61 <= b && b <= 0x66 {
        (b - 0x61 + 10) as u64
    } else if 0x41 <= b && b <= 0x46 {
        (b - 0x41 + 10) as u64
    } else {
        16
    };
    if v < base {
        Some(v)
    } else {
        None
    }
}

/// The register that is called `name`.
pub open spec fn reg_name(name: Seq<char>) -> Option<Reg> {
    if name == "zero"@ {
        Some(Reg::zero)
    } else if name == "ra"@ {
        Some(Reg::ra)
    } else if name == "s0"@ {
        Some(Reg::s0)
    } else if name == "s1"@ {
        Some(Reg::s1)
    } else if name == "s2"@ {
        Some(Reg::s2)
    } else if name == "s3"@ {
        Some(Reg::s3)
    } else if name == "s4"@ {
        Some(Reg::s4)
    } else if name == "s5"@ {
        Some(Reg::s5)
    } else {
        None
    }
}

/// The register operand that the atom from `a` to `e` spells: a register by
/// its name, or an alias by a name that is no register's.
pub open spec fn reg_ref(text: Seq<char>, a: int, e: int) -> Option<RegRef> {
    if e <= a {
        None
    } else {
        match reg_name(text.subrange(a, e)) {
            Some(reg) => Some(RegRef::Direct(reg)),
            None => if is_name_start(byte_at(text, a)) {
                Some(RegRef::Alias(text.subrange(a, e)))
            } else {
                None
            },
        }
    }
}

/// The register operand that follows index `i`, and where it ends.
pub open spec fn reg_operand(text: Seq<char>, i: int) -> Option<(RegRef, int)> {
    let a = skip_blank(text, i);
    let e = atom_end(text, a);
    match reg_ref(text, a, e) {
        Some(r) => Some((r, e)),
        None => None,
    }
}

/// An address with register 0 for its base.
pub open spec fn absolute(val: i16, ident: Option<Seq<char>>) -> Address {
    Address { reg: RegRef::Direct(Reg::zero), val, ident }
}

/// The bracketed name at index `p`, where a `(` stands, as the end of an
/// address with the offset `val`: a register's name makes that register the
/// base, any other name is a symbol.
pub open spec fn bracketed(text: Seq<char>, p: int, val: i16) -> Option<(Address, int)> {
    let e = atom_end(text, p + 1);
    if p + 1 < e < text.len() && byte_at(text, e) == 0x29 {
        let name = text.subrange(p + 1, e);
        match reg_name(name) {
            Some(reg) => Some((Address { reg: RegRef::Direct(reg), val, ident: None }, e + 1)),
            None => if is_name_start(byte_at(text, p + 1)) {
                Some((absolute(val, Some(name)), e + 1))
            } else {
                None
            },
        }
    } else {
        None
    }
}

/// The address operand that follows index `i`, and where it ends.
///
/// It is a number, a symbol, a number with a bracketed register or symbol
/// behind it, a symbol with a bracketed register behind it, or a bracketed
/// register or symbol alone. A number lies between -32768 and 65535 and
/// stands for its low sixteen bits.
pub open spec fn address_operand(text: Seq<char>, i: int) -> Option<(Address, int)> {
    let a = skip_blank(text, i);
    let e = atom_end(text, a);
    if a < 0 || a >= text.len() {
        None
    } else if byte_at(text, a) == 0x28 {
        bracketed(text, a, 0)
    } else if e <= a {
        None
    } else if is_number_start(byte_at(text, a)) {
        match number(text, a, e) {
            Some(v) => if -0x8000 <= v <= 0xffff {
                if e < text.len() && byte_at(text, e) == 0x28 {
                    bracketed(text, e, wrap16(v))
                } else {
                    Some((absolute(wrap16(v), None), e))
                }
            } else {
                None
            },
            None => None,
        }
    } else if is_name_start(byte_at(text, a)) {
        let name = text.subrange(a, e);
        if e < text.len() && byte_at(text, e) == 0x28 {
            let close = atom_end(text, e + 1);
            if close < text.len() && byte_at(text, close) == 0x29 {
                match reg_ref(text, e + 1, close) {
                    Some(reg) => Some((Address { reg, val: 0, ident: Some(name) }, close + 1)),
                    None => None,
                }
            } else {
                None
            }
        } else {
            Some((absolute(0, Some(name)), e))
        }
    } else {
        None
    }
}

/// The register that is called `name`.
fn reg_named(name: &str) -> (res: Option<Reg>)
    ensures
        res == reg_name(name@),
{
    if str_eq(name, "zero") {
        Some(Reg::zero)
    } else if str_eq(name, "ra") {
        Some(Reg::ra)
    } else if str_eq(name, "s0") {
        Some(Reg::s0)
    } else if str_eq(name, "s1") {
        Some(Reg::s1)
    } else if str_eq(name, "s2") {
        Some(Reg::s2)
    } else if str_eq(name, "s3") {
        Some(Reg::s3)
    } else if str_eq(name, "s4") {
        Some(Reg::s4)
    } else if str_eq(name, "s5") {
        Some(Reg::s5)
    } else {
        None
    }
}

/// The low sixteen bits of `v`, as a signed number.
fn low16(v: i64) -> (r: i16)
    requires
        -0x8000 <= v <= 0xffff,
    ensures
        r == wrap16(v as int),
{
    if v >= 0x8000 {
        (v - 0x1_0000) as i16
    } else {
        v as i16
    }
}

impl<'a> Source<'a> {
    /// The register operand that the atom from `a` to `e` spells.
    fn reg_ref(&self, a: usize, e: usize) -> (res: Option<RegLink<'a>>)
        requires
            self.wf(),
            a <= e <= self.text().len(),
        ensures
            match res {
                Some(link) => reg_ref(self.text(), a as int, e as int) == Some(link@),
                None => reg_ref(self.text(), a as int, e as int) is None,
            },
    {
        if e <= a {
            return None;
        }
        let name = self.slice(a, e);
        match reg_named(name) {
            Some(reg) => Some(RegLink::Direct(reg)),
            None => if name_start(self.at(a)) {
                Some(RegLink::Alias(name))
            } else {
                None
            },
        }
    }

    /// The register operand that follows index `i`, and where it ends.
    fn reg_operand(&self, i: usize) -> (res: Option<(RegLink<'a>, usize)>)
        requires
            self.wf(),
            i <= self.text().len(),
        ensures
            match res {
                Some((link, k)) => reg_operand(self.text(), i as int) == Some((link@, k as int))
                    && i < k <= self.text().len(),
                None => reg_operand(self.text(), i as int) is None,
            },
    {
        let a = self.skip_blank(i);
        let e = self.atom_end(a);
        match self.reg_ref(a, e) {
            Some(link) => Some((link, e)),
            None => None,
        }
    }

    /// The bracketed name at index `p` as the end of an address.
    fn bracketed(&self, p: usize, val: i16) -> (res: Option<(Immediate<'a>, usize)>)
        requires
            self.wf(),
            p < self.text().len(),
        ensures
            match res {
                Some((imm, k)) => bracketed(self.text(), p as int, val) == Some((imm@, k as int))
                    && p < k <= self.text().len(),
                None => bracketed(self.text(), p as int, val) is None,
            },
    {
        let n = self.len();
        let e = self.atom_end(p + 1);
        if !(p + 1 < e && e < n && self.at(e) == 0x29) {
            return None;
        }
        let name = self.slice(p + 1, e);
        match reg_named(name) {
            Some(reg) => Some((Immediate::relative(RegLink::Direct(reg), val, None), e + 1)),
            None => if name_start(self.at(p + 1)) {
                Some((Immediate::absolute(val, Some(name)), e + 1))
            } else {
                None
            },
        }
    }

    /// The address operand that follows index `i`, and where it ends.
    fn address_operand(&self, i: usize) -> (res: Option<(Immediate<'a>, usize)>)
        requires
            self.wf(),
            i <= self.text().len(),
        ensures
            match res {
                Some((imm, k)) => address_operand(self.text(), i as int) == Some(
                    (imm@, k as int),
                ) && i < k <= self.text().len(),
                None => address_operand(self.text(), i as int) is None,
            },
    {
        let a = self.skip_blank(i);
        let e = self.atom_end(a);
        if a >= self.len() {
            return None;
        }
        let first = self.at(a);
        if first == 0x28 {
            return self.bracketed(a, 0);
        }
        if e <= a {
            return None;
        }
        if number_start(first) {
            let v = match self.number(a, e) {
                Some(v) => v,
                None => {
                    return None;
                },
            };
            if v < -0x8000 || v > 0xffff {
                return None;
            }
            if e < self.len() && self.at(e) == 0x28 {
                self.bracketed(e, low16(v))
            } else {
                Some((Immediate::absolute(low16(v), None), e))
            }
        } else if name_start(first) {
            let name = self.slice(a, e);
            if e < self.len() && self.at(e) == 0x28 {
                let close = self.atom_end(e + 1);
                if !(close < self.len() && self.at(close) == 0x29) {
                    return None;
                }
                match self.reg_ref(e + 1, close) {
                    Some(reg) => Some((Immediate::relative(reg, 0, Some(name)), close + 1)),
                    None => None,
                }
            } else {
                Some((Immediate::absolute(0, Some(name)), e))
            }
        } else {
            None
        }
    }
}

/// How a mnemonic takes its operands, and what instruction it stands for.
#[derive(Debug, Clone, Copy, PartialEq, Eq)]
pub enum Form {
    /// No operands.
    Bare(Opcode),
    /// Three registers.
    Three(Opcode),
    /// Two registers and an address.
    Pair(Opcode),
    /// A register and an address.
    Single(Opcode),
    /// An address.
    Target(Opcode),
    /// `nop`: an `addi` on register 0.
    Nop,
    /// `inc` and `dec`: `addi` of the number to a register.
    Bump(i16),
    /// `seqz`: `sltiu` with 1.
    IsZero,
    /// Two registers `rd rs`, standing for the instruction on `rd rs zero`.
    Left(Opcode),
    /// Two registers `rd rs`, standing for the instruction on `rd zero rs`.
    Right(Opcode),
}

/// The form of the mnemonic `name`.
pub open spec fn mnemonic(name: Seq<char>) -> Option<Form> {
    if name == "halt"@ {
        Some(Form::Bare(Opcode::halt))
    } else if name == "nop"@ {
        Some(Form::Nop)
    } else if name == "ecall"@ {
        Some(Form::Single(Opcode::ecall))
    } else if name == "lb"@ {
        Some(Form::Single(Opcode::lb))
    } else if name == "lbu"@ {
        Some(Form::Single(Opcode::lbu))
    } else if name == "lh"@ {
        Some(Form::Single(Opcode::lh))
    } else if name == "lhu"@ {
        Some(Form::Single(Opcode::lhu))
    } else if name == "lw"@ {
        Some(Form::Single(Opcode::lw))
    } else if name == "la"@ {
        Some(Form::Single(Opcode::la))
    } else if name == "sb"@ {
        Some(Form::Single(Opcode::sb))
    } else if name == "sh"@ {
        Some(Form::Single(Opcode::sh))
    } else if name == "sw"@ {
        Some(Form::Single(Opcode::sw))
    } else if name == "lui"@ {
        Some(Form::Single(Opcode::lui))
    } else if name == "li"@ {
        Some(Form::Single(Opcode::addi))
    } else if name == "addi"@ {
        Some(Form::Pair(Opcode::addi))
    } else if name == "andi"@ {
        Some(Form::Pair(Opcode::andi))
    } else if name == "muli"@ {
        Some(Form::Pair(Opcode::muli))
    } else if name == "ori"@ {
        Some(Form::Pair(Opcode::ori))
    } else if name == "slli"@ {
        Some(Form::Pair(Opcode::slli))
    } else if name == "sltiu"@ {
        Some(Form::Pair(Opcode::sltiu))
    } else if name == "srli"@ {
        Some(Form::Pair(Opcode::srli))
    } else if name == "xori"@ {
        Some(Form::Pair(Opcode::xori))
    } else if name == "beq"@ {
        Some(Form::Pair(Opcode::beq))
    } else if name == "bne"@ {
        Some(Form::Pair(Opcode::bne))
    } else if name == "bge"@ {
        Some(Form::Pair(Opcode::bge))
    } else if name == "bgeu"@ {
        Some(Form::Pair(Opcode::bgeu))
    } else if name == "blt"@ {
        Some(Form::Pair(Opcode::blt))
    } else if name == "bltu"@ {
        Some(Form::Pair(Opcode::bltu))
    } else if name == "add"@ {
        Some(Form::Three(Opcode::add))
    } else if name == "and"@ {
        Some(Form::Three(Opcode::and))
    } else if name == "mul"@ {
        Some(Form::Three(Opcode::mul))
    } else if name == "or"@ {
        Some(Form::Three(Opcode::or))
    } else if name == "sll"@ {
        Some(Form::Three(Opcode::sll))
    } else if name == "slt"@ {
        Some(Form::Three(Opcode::slt))
    } else if name == "sltu"@ {
        Some(Form::Three(Opcode::sltu))
    } else if name == "sra"@ {
        Some(Form::Three(Opcode::sra))
    } else if name == "srl"@ {
        Some(Form::Three(Opcode::srl))
    } else if name == "sub"@ {
        Some(Form::Three(Opcode::sub))
    } else if name == "xor"@ {
        Some(Form::Three(Opcode::xor))
    } else if name == "jal"@ {
        Some(Form::Target(Opcode::jal))
    } else if name == "inc"@ {
        Some(Form::Bump(1i16))
    } else if name == "dec"@ {
        Some(Form::Bump(-1i16))
    } else if name == "seqz"@ {
        Some(Form::IsZero)
    } else if name == "snez"@ {
        Some(Form::Right(Opcode::sltu))
    } else if name == "sltz"@ {
        Some(Form::Left(Opcode::slt))
    } else if name == "sgtz"@ {
        Some(Form::Right(Opcode::slt))
    } else {
        None
    }
}

/// The form of the mnemonic `name`.
fn form_of(name: &str) -> (res: Option<Form>)
    ensures
        res == mnemonic(name@),
{
    if str_eq(name, "halt") {
        Some(Form::Bare(Opcode::halt))
    } else if str_eq(name, "nop") {
        Some(Form::Nop)
    } else if str_eq(name, "ecall") {
        Some(Form::Single(Opcode::ecall))
    } else if str_eq(name, "lb") {
        Some(Form::Single(Opcode::lb))
    } else if str_eq(name, "lbu") {
        Some(Form::Single(Opcode::lbu))
    } else if str_eq(name, "lh") {
        Some(Form::Single(Opcode::lh))
    } else if str_eq(name, "lhu") {
        Some(Form::Single(Opcode::lhu))
    } else if str_eq(name, "lw") {
        Some(Form::Single(Opcode::lw))
    } else if str_eq(name, "la") {
        Some(Form::Single(Opcode::la))
    } else if str_eq(name, "sb") {
        Some(Form::Single(Opcode::sb))
    } else if str_eq(name, "sh") {
        Some(Form::Single(Opcode::sh))
    } else if str_eq(name, "sw") {
        Some(Form::Single(Opcode::sw))
    } else if str_eq(name, "lui") {
        Some(Form::Single(Opcode::lui))
    } else if str_eq(name, "li") {
        Some(Form::Single(Opcode::addi))
    } else if str_eq(name, "addi") {
        Some(Form::Pair(Opcode::addi))
    } else if str_eq(name, "andi") {
        Some(Form::Pair(Opcode::andi))
    } else if str_eq(name, "muli") {
        Some(Form::Pair(Opcode::muli))
    } else if str_eq(name, "ori") {
        Some(Form::Pair(Opcode::ori))
    } else if str_eq(name, "slli") {
        Some(Form::Pair(Opcode::slli))
    } else if str_eq(name, "sltiu") {
        Some(Form::Pair(Opcode::sltiu))
    } else if str_eq(name, "srli") {
        Some(Form::Pair(Opcode::srli))
    } else if str_eq(name, "xori") {
        Some(Form::Pair(Opcode::xori))
    } else if str_eq(name, "beq") {
        Some(Form::Pair(Opcode::beq))
    } else if str_eq(name, "bne") {
        Some(Form::Pair(Opcode::bne))
    } else if str_eq(name, "bge") {
        Some(Form::Pair(Opcode::bge))
    } else if str_eq(name, "bgeu") {
        Some(Form::Pair(Opcode::bgeu))
    } else if str_eq(name, "blt") {
        Some(Form::Pair(Opcode::blt))
    } else if str_eq(name, "bltu") {
        Some(Form::Pair(Opcode::bltu))
    } else if str_eq(name, "add") {
        Some(Form::Three(Opcode::add))
    } else if str_eq(name, "and") {
        Some(Form::Three(Opcode::and))
    } else if str_eq(name, "mul") {
        Some(Form::Three(Opcode::mul))
    } else if str_eq(name, "or") {
        Some(Form::Three(Opcode::or))
    } else if str_eq(name, "sll") {
        Some(Form::Three(Opcode::sll))
    } else if str_eq(name, "slt") {
        Some(Form::Three(Opcode::slt))
    } else if str_eq(name, "sltu") {
        Some(Form::Three(Opcode::sltu))
    } else if str_eq(name, "sra") {
        Some(Form::Three(Opcode::sra))
    } else if str_eq(name, "srl") {
        Some(Form::Three(Opcode::srl))
    } else if str_eq(name, "sub") {
        Some(Form::Three(Opcode::sub))
    } else if str_eq(name, "xor") {
        Some(Form::Three(Opcode::xor))
    } else if str_eq(name, "jal") {
        Some(Form::Target(Opcode::jal))
    } else if str_eq(name, "inc") {
        Some(Form::Bump(1))
    } else if str_eq(name, "dec") {
        Some(Form::Bump(-1))
    } else if str_eq(name, "seqz") {
        Some(Form::IsZero)
    } else if str_eq(name, "snez") {
        Some(Form::Right(Opcode::sltu))
    } else if str_eq(name, "sltz") {
        Some(Form::Left(Opcode::slt))
    } else if str_eq(name, "sgtz") {
        Some(Form::Right(Opcode::slt))
    } else {
        None
    }
}

/// Register 0 as an operand.
pub open spec fn zero_ref() -> RegRef {
    RegRef::Direct(Reg::zero)
}

/// An instruction with the plain immediate 0.
pub open spec fn word_of(
    opcode: Opcode,
    r1: RegRef,
    r2: RegRef,
    r3: RegRef,
    imm: Option<Address>,
) -> WordView {
    WordView { opcode, r1, r2, r3, imm, plain: 0 }
}

/// The two register operands that follow index `i`, and where they end.
pub open spec fn two_regs(text: Seq<char>, i: int) -> Option<(RegRef, RegRef, int)> {
    match reg_operand(text, i) {
        Some((r1, a)) => match reg_operand(text, a) {
            Some((r2, b)) => Some((r1, r2, b)),
            None => None,
        },
        None => None,
    }
}

/// The instruction whose mnemonic has the form `form` and ends at index `i`,
/// and where the instruction ends.
pub open spec fn instruction(text: Seq<char>, i: int, form: Form) -> Option<(WordView, int)> {
    let z = zero_ref();
    match form {
        Form::Bare(op) => Some((word_of(op, z, z, z, None), i)),
        Form::Nop => Some((word_of(Opcode::addi, z, z, z, None), i)),
        Form::Three(op) => match two_regs(text, i) {
            Some((r1, r2, b)) => match reg_operand(text, b) {
                Some((r3, c)) => Some((word_of(op, r1, r2, r3, None), c)),
                None => None,
            },
            None => None,
        },
        Form::Pair(op) => match two_regs(text, i) {
            Some((r1, r2, b)) => match address_operand(text, b) {
                Some((addr, c)) => Some((word_of(op, r1, r2, z, Some(addr)), c)),
                None => None,
            },
            None => None,
        },
        Form::Single(op) => match reg_operand(text, i) {
            Some((r1, a)) => match address_operand(text, a) {
                Some((addr, c)) => Some((word_of(op, r1, z, z, Some(addr)), c)),
                None => None,
            },
            None => None,
        },
        Form::Target(op) => match address_operand(text, i) {
            Some((addr, c)) => Some((word_of(op, z, z, z, Some(addr)), c)),
            None => None,
        },
        Form::Bump(n) => match reg_operand(text, i) {
            Some((r, a)) => Some((word_of(Opcode::addi, r, r, z, Some(absolute(n, None))), a)),
            None => None,
        },
        Form::IsZero => match two_regs(text, i) {
            Some((rd, rs, b)) => Some(
                (word_of(Opcode::sltiu, rd, rs, z, Some(absolute(1, None))), b),
            ),
            None => None,
        },
        Form::Left(op) => match two_regs(text, i) {
            Some((rd, rs, b)) => Some((word_of(op, rd, rs, z, None), b)),
            None => None,
        },
        Form::Right(op) => match two_regs(text, i) {
            Some((rd, rs, b)) => Some((word_of(op, rd, z, rs, None), b)),
            None => None,
        },
    }
}

impl<'a> Source<'a> {
    /// The two register operands that follow index `i`.
    fn two_regs(&self, i: usize) -> (res: Option<(RegLink<'a>, RegLink<'a>, usize)>)
        requires
            self.wf(),
            i <= self.text().len(),
        ensures
            match res {
                Some((r1, r2, k)) => two_regs(self.text(), i as int) == Some(
                    (r1@, r2@, k as int),
                ) && i < k <= self.text().len(),
                None => two_regs(self.text(), i as int) is None,
            },
    {
        let (r1, a) = match self.reg_operand(i) {
            Some(found) => found,
            None => {
                return None;
            },
        };
        let (r2, b) = match self.reg_operand(a) {
            Some(found) => found,
            None => {
                return None;
            },
        };
        Some((r1, r2, b))
    }

    /// The instruction whose mnemonic has the form `form` and ends at `i`.
    fn instruction(&self, i: usize, form: Form) -> (res: Option<(Word<'a>, usize)>)
        requires
            self.wf(),
            i <= self.text().len(),
        ensures
            match res {
                Some((word, k)) => instruction(self.text(), i as int, form) == Some(
                    (word@, k as int),
                ) && i <= k <= self.text().len(),
                None => instruction(self.text(), i as int, form) is None,
            },
    {
        let z = RegLink::zero();
        match form {
            Form::Bare(op) => Some((Word::new(op, z, z, z, None), i)),
            Form::Nop => Some((Word::new(Opcode::addi, z, z, z, None), i)),
            Form::Three(op) => {
                let (r1, r2, b) = match self.two_regs(i) {
                    Some(found) => found,
                    None => {
                        return None;
                    },
                };
                match self.reg_operand(b) {
                    Some((r3, c)) => Some((Word::new(op, r1, r2, r3, None), c)),
                    None => None,
                }
            },
            Form::Pair(op) => {
                let (r1, r2, b) = match self.two_regs(i) {
                    Some(found) => found,
                    None => {
                        return None;
                    },
                };
                match self.address_operand(b) {
                    Some((addr, c)) => Some((Word::new(op, r1, r2, z, Some(addr)), c)),
                    None => None,
                }
            },
            Form::Single(op) => {
                let (r1, a) = match self.reg_operand(i) {
                    Some(found) => found,
                    None => {
                        return None;
                    },
                };
                match self.address_operand(a) {
                    Some((addr, c)) => Some((Word::new(op, r1, z, z, Some(addr)), c)),
                    None => None,
                }
            },
            Form::Target(op) => match self.address_operand(i) {
                Some((addr, c)) => Some((Word::new(op, z, z, z, Some(addr)), c)),
                None => None,
            },
            Form::Bump(n) => match self.reg_operand(i) {
                Some((r, a)) => Some(
                    (Word::new(Opcode::addi, r, r, z, Some(Immediate::absolute(n, None))), a),
                ),
                None => None,
            },
            Form::IsZero => match self.two_regs(i) {
                Some((rd, rs, b)) => Some(
                    (Word::new(Opcode::sltiu, rd, rs, z, Some(Immediate::absolute(1, None))), b),
                ),
                None => None,
            },
            Form::Left(op) => match self.two_regs(i) {
                Some((rd, rs, b)) => Some((Word::new(op, rd, rs, z, None), b)),
                None => None,
            },
            Form::Right(op) => match self.two_regs(i) {
                Some((rd, rs, b)) => Some((Word::new(op, rd, z, rs, None), b)),
                None => None,
            },
        }
    }
}

/// The name that follows index `i`, and where it ends.
pub open spec fn name_operand(text: Seq<char>, i: int) -> Option<(Seq<char>, int)> {
    let a = skip_blank(text, i);
    let e = atom_end(text, a);
    if 0 <= a < e && is_name_start(byte_at(text, a)) {
        Some((text.subrange(a, e), e))
    } else {
        None
    }
}

/// The number between `lo` and `hi` that follows index `i`, and where it
/// ends.
pub open spec fn number_operand(text: Seq<char>, i: int, lo: int, hi: int) -> Option<(int, int)> {
    let a = skip_blank(text, i);
    let e = atom_end(text, a);
    if 0 <= a < e && is_number_start(byte_at(text, a)) {
        match number(text, a, e) {
            Some(v) => if lo <= v <= hi {
                Some((v, e))
            } else {
                None
            },
            None => None,
        }
    } else {
        None
    }
}

/// The numbers between `lo` and `hi` that follow index `i`, as many as there
/// are, and where the last one ends. An atom that starts like a number and
/// is none, or is out of range, spoils the list.
pub open spec fn number_list(text: Seq<char>, i: int, lo: int, hi: int) -> Option<(Seq<int>, int)>
    decreases text.len() - i,
{
    let a = skip_blank(text, i);
    let e = atom_end(text, a);
    if 0 <= i <= a < e <= text.len() && is_number_start(byte_at(text, a)) {
        match number(text, a, e) {
            Some(v) => if lo <= v <= hi {
                match number_list(text, e, lo, hi) {
                    Some((rest, k)) => Some((seq![v] + rest, k)),
                    None => None,
                }
            } else {
                None
            },
            None => None,
        }
    } else {
        Some((Seq::empty(), i))
    }
}

/// The quoted string that follows index `i`: where its contents start and
/// where they end, at the closing quote.
pub open spec fn string_operand(text: Seq<char>, i: int) -> Option<(int, int)> {
    let a = skip_blank(text, i);
    let q = find_byte(text, a + 1, 0x22);
    if 0 <= a < text.len() && byte_at(text, a) == 0x22 && q < text.len() {
        Some((a + 1, q))
    } else {
        None
    }
}

/// The bytes of the characters from `from` to `to`.
pub open spec fn bytes_of(text: Seq<char>, from: int, to: int) -> Seq<u8> {
    Seq::new((to - from) as nat, |k: int| byte_at(text, from + k))
}

/// The low eight bits of each number.
pub open spec fn low_bytes(xs: Seq<int>) -> Seq<u8> {
    Seq::new(xs.len(), |k: int| (xs[k] % 0x100) as u8)
}

/// The low sixteen bits of each number.
pub open spec fn low_halves(xs: Seq<int>) -> Seq<u16> {
    Seq::new(xs.len(), |k: int| (xs[k] % 0x1_0000) as u16)
}

/// The low thirty-two bits of each number.
pub open spec fn low_words(xs: Seq<int>) -> Seq<u32> {
    Seq::new(xs.len(), |k: int| (xs[k] % 0x1_0000_0000) as u32)
}

/// The directive whose name is the atom from `a` to `e`, and where the
/// directive ends.
///
/// `.equ` takes a name and a number; `.alias` a name and a register; `.byte`,
/// `.half` and `.word` one number or more, each of which may also be written
/// as a negative number of that width; `.zero` a count; `.string` a quoted
/// string, whose bytes it stores as they are; `.incbin` a quoted path.
pub open spec fn directive(text: Seq<char>, a: int, e: int) -> Option<(DirectiveView, int)> {
    let name = text.subrange(a, e);
    if name == ".equ"@ {
        match name_operand(text, e) {
            Some((ident, k)) => match number_operand(text, k, -0x8000, 0xffff) {
                Some((v, end)) => Some((DirectiveView::Constant(ident, wrap16(v)), end)),
                None => None,
            },
            None => None,
        }
    } else if name == ".alias"@ {
        match name_operand(text, e) {
            Some((ident, k)) => match reg_operand(text, k) {
                Some((RegRef::Direct(reg), end)) => Some((DirectiveView::Alias(ident, reg), end)),
                _ => None,
            },
            None => None,
        }
    } else if name == ".byte"@ {
        match number_list(text, e, -0x80, 0xff) {
            Some((xs, end)) => if xs.len() > 0 {
                Some((DirectiveView::Byte(low_bytes(xs)), end))
            } else {
                None
            },
            None => None,
        }
    } else if name == ".half"@ {
        match number_list(text, e, -0x8000, 0xffff) {
            Some((xs, end)) => if xs.len() > 0 {
                Some((DirectiveView::Half(low_halves(xs)), end))
            } else {
                None
            },
            None => None,
        }
    } else if name == ".word"@ {
        match number_list(text, e, -0x8000_0000, 0xffff_ffff) {
            Some((xs, end)) => if xs.len() > 0 {
                Some((DirectiveView::Word(low_words(xs)), end))
            } else {
                None
            },
            None => None,
        }
    } else if name == ".zero"@ {
        match number_operand(text, e, -0x8000, 0x7fff) {
            Some((v, end)) => Some((DirectiveView::Zero(v as i16), end)),
            None => None,
        }
    } else if name == ".string"@ {
        match string_operand(text, e) {
            Some((from, to)) => Some((DirectiveView::Byte(bytes_of(text, from, to)), to + 1)),
            None => None,
        }
    } else if name == ".incbin"@ {
        match string_operand(text, e) {
            Some((from, to)) => Some((DirectiveView::IncBin(text.subrange(from, to)), to + 1)),
            None => None,
        }
    } else {
        None
    }
}

/// The expression that starts at index `a`, where something other than a
/// separator stands, and where the expression ends.
///
/// A `#` starts a comment that runs to the end of the line. A name with a
/// colon right behind it is a label. An atom that starts with a dot is a
/// directive. Any other atom is a mnemonic, with its operands behind it.
pub open spec fn statement(text: Seq<char>, a: int) -> Option<(ExpView, int)> {
    let e = atom_end(text, a);
    if a < 0 || a >= text.len() {
        None
    } else if byte_at(text, a) == 0x23 {
        let end = find_byte(text, a + 1, 0x0a);
        Some((ExpView::Comment(text.subrange(a + 1, end)), end))
    } else if e <= a {
        None
    } else if e < text.len() && byte_at(text, e) == 0x3a {
        if is_name_start(byte_at(text, a)) {
            Some((ExpView::Label(text.subrange(a, e)), e + 1))
        } else {
            None
        }
    } else if byte_at(text, a) == 0x2e {
        match directive(text, a, e) {
            Some((dir, end)) => Some((ExpView::Directive(dir), end)),
            None => None,
        }
    } else {
        match mnemonic(text.subrange(a, e)) {
            Some(form) => match instruction(text, e, form) {
                Some((word, end)) => Some((ExpView::Word(word), end)),
                None => None,
            },
            None => None,
        }
    }
}

/// The expressions of the text from index `i` on.
pub open spec fn program(text: Seq<char>, i: int) -> Option<Seq<ExpView>>
    decreases text.len() - i,
{
    let a = skip_blank(text, i);
    if a >= text.len() {
        Some(Seq::empty())
    } else {
        match statement(text, a) {
            Some((exp, end)) => if 0 <= i <= a < end <= text.len() {
                match program(text, end) {
                    Some(rest) => Some(seq![exp] + rest),
                    None => None,
                }
            } else {
                None
            },
            None => None,
        }
    }
}

/// The program that a text spells, if it spells one. A text that is not
/// ASCII spells none.
pub open spec fn parsed(text: Seq<char>) -> Option<Seq<ExpView>> {
    if vstd::utf8::is_ascii_chars(text) {
        program(text, 0)
    } else {
        None
    }
}

/// The numbers of `xs` as integers.
spec fn ints(xs: Seq<i64>) -> Seq<int> {
    Seq::new(xs.len(), |k: int| xs[k] as int)
}

/// A list with what follows it.
spec fn joined<T>(head: Seq<T>, tail: Option<(Seq<T>, int)>) -> Option<(Seq<T>, int)> {
    match tail {
        Some((rest, k)) => Some((head + rest, k)),
        None => None,
    }
}

/// The low eight bits of each number.
fn to_bytes(xs: &Vec<i64>) -> (out: Vec<u8>)
    requires
        forall|k: int| 0 <= k < xs@.len() ==> -0x80 <= #[trigger] xs@[k] <= 0xff,
    ensures
        out@ == low_bytes(ints(xs@)),
{
    let mut out: Vec<u8> = Vec::new();
    let mut i: usize = 0;
    while i < xs.len()
        invariant
            i <= xs.len(),
            forall|k: int| 0 <= k < xs@.len() ==> -0x80 <= #[trigger] xs@[k] <= 0xff,
            out@.len() == i,
            forall|k: int| 0 <= k < i ==> out@[k] == (xs@[k] as int % 0x100) as u8,
        decreases xs.len() - i,
    {
        let v = xs[i];
        out.push(((v + 0x100) % 0x100) as u8);
        i += 1;
    }
    assert(out@ =~= low_bytes(ints(xs@)));
    out
}

/// The low sixteen bits of each number.
fn to_halves(xs: &Vec<i64>) -> (out: Vec<u16>)
    requires
        forall|k: int| 0 <= k < xs@.len() ==> -0x8000 <= #[trigger] xs@[k] <= 0xffff,
    ensures
        out@ == low_halves(ints(xs@)),
{
    let mut out: Vec<u16> = Vec::new();
    let mut i: usize = 0;
    while i < xs.len()
        invariant
            i <= xs.len(),
            forall|k: int| 0 <= k < xs@.len() ==> -0x8000 <= #[trigger] xs@[k] <= 0xffff,
            out@.len() == i,
            forall|k: int| 0 <= k < i ==> out@[k] == (xs@[k] as int % 0x1_0000) as u16,
        decreases xs.len() - i,
    {
        let v = xs[i];
        out.push(((v + 0x1_0000) % 0x1_0000) as u16);
        i += 1;
    }
    assert(out@ =~= low_halves(ints(xs@)));
    out
}

/// The low thirty-two bits of each number.
fn to_words(xs: &Vec<i64>) -> (out: Vec<u32>)
    requires
        forall|k: int| 0 <= k < xs@.len() ==> -0x8000_0000 <= #[trigger] xs@[k] <= 0xffff_ffff,
    ensures
        out@ == low_words(ints(xs@)),
{
    let mut out: Vec<u32> = Vec::new();
    let mut i: usize = 0;
    while i < xs.len()
        invariant
            i <= xs.len(),
            forall|k: int| 0 <= k < xs@.len() ==> -0x8000_0000 <= #[trigger] xs@[k] <= 0xffff_ffff,
            out@.len() == i,
            forall|k: int| 0 <= k < i ==> out@[k] == (xs@[k] as int % 0x1_0000_0000) as u32,
        decreases xs.len() - i,
    {
        let v = xs[i];
        out.push(((v + 0x1_0000_0000) % 0x1_0000_0000) as u32);
        i += 1;
    }
    assert(out@ =~= low_words(ints(xs@)));
    out
}

impl<'a> Source<'a> {
    /// The name that follows index `i`.
    fn name_operand(&self, i: usize) -> (res: Option<(&'a str, usize)>)
        requires
            self.wf(),
            i <= self.text().len(),
        ensures
            match res {
                Some((name, k)) => name_operand(self.text(), i as int) == Some((name@, k as int))
                    && i < k <= self.text().len(),
                None => name_operand(self.text(), i as int) is None,
            },
    {
        let a = self.skip_blank(i);
        let e = self.atom_end(a);
        if a < e && name_start(self.at(a)) {
            Some((self.slice(a, e), e))
        } else {
            None
        }
    }

    /// The number between `lo` and `hi` that follows index `i`.
    fn number_operand(&self, i: usize, lo: i64, hi: i64) -> (res: Option<(i64, usize)>)
        requires
            self.wf(),
            i <= self.text().len(),
        ensures
            match res {
                Some((v, k)) => number_operand(self.text(), i as int, lo as int, hi as int)
                    == Some((v as int, k as int)) && i < k <= self.text().len() && lo <= v <= hi,
                None => number_operand(self.text(), i as int, lo as int, hi as int) is None,
            },
    {
        let a = self.skip_blank(i);
        let e = self.atom_end(a);
        if !(a < e && number_start(self.at(a))) {
            return None;
        }
        match self.number(a, e) {
            Some(v) => if lo <= v && v <= hi {
                Some((v, e))
            } else {
                None
            },
            None => None,
        }
    }

    /// The numbers between `lo` and `hi` that follow index `i`.
    fn number_list(&self, i: usize, lo: i64, hi: i64) -> (res: Option<(Vec<i64>, usize)>)
        requires
            self.wf(),
            i <= self.text().len(),
        ensures
            match res {
                Some((xs, k)) => {
                    &&& number_list(self.text(), i as int, lo as int, hi as int) == Some(
                        (ints(xs@), k as int),
                    )
                    &&& i <= k <= self.text().len()
                    &&& xs@.len() > 0 ==> i < k
                    &&& forall|j: int| 0 <= j < xs@.len() ==> lo <= #[trigger] xs@[j] <= hi
                },
                None => number_list(self.text(), i as int, lo as int, hi as int) is None,
            },
    {
        let ghost text = self.text();
        let mut xs: Vec<i64> = Vec::new();
        let mut k = i;
        assert(ints(xs@) =~= Seq::<int>::empty());
        loop
            invariant
                self.wf(),
                text == self.text(),
                i <= k <= text.len(),
                xs@.len() > 0 ==> i < k,
                forall|j: int| 0 <= j < xs@.len() ==> lo <= #[trigger] xs@[j] <= hi,
                number_list(text, i as int, lo as int, hi as int) == joined(
                    ints(xs@),
                    number_list(text, k as int, lo as int, hi as int),
                ),
            decreases text.len() - k,
        {
            let a = self.skip_blank(k);
            let e = self.atom_end(a);
            if !(a < e && number_start(self.at(a))) {
                assert(ints(xs@) + Seq::<int>::empty() =~= ints(xs@));
                return Some((xs, k));
            }
            let v = match self.number(a, e) {
                Some(v) => v,
                None => {
                    return None;
                },
            };
            if !(lo <= v && v <= hi) {
                return None;
            }
            let ghost before = ints(xs@);
            let ghost rest = number_list(text, e as int, lo as int, hi as int);
            xs.push(v);
            proof {
                assert(ints(xs@) =~= before + seq![v as int]);
                match rest {
                    Some((tail, end)) => {
                        assert(before + (seq![v as int] + tail) =~= ints(xs@) + tail);
                    },
                    None => {},
                }
            }
            k = e;
        }
    }

    /// The quoted string that follows index `i`.
    fn string_operand(&self, i: usize) -> (res: Option<(usize, usize)>)
        requires
            self.wf(),
            i <= self.text().len(),
        ensures
            match res {
                Some((from, to)) => string_operand(self.text(), i as int) == Some(
                    (from as int, to as int),
                ) && i < from <= to < self.text().len(),
                None => string_operand(self.text(), i as int) is None,
            },
    {
        let a = self.skip_blank(i);
        if !(a < self.len() && self.at(a) == 0x22) {
            return None;
        }
        let q = self.find_byte(a + 1, 0x22);
        if q < self.len() {
            Some((a + 1, q))
        } else {
            None
        }
    }

    /// The bytes of the characters from `from` to `to`.
    fn bytes_of(&self, from: usize, to: usize) -> (out: Vec<u8>)
        requires
            self.wf(),
            from <= to <= self.text().len(),
        ensures
            out@ == bytes_of(self.text(), from as int, to as int),
    {
        let out = vstd::slice::slice_to_vec(vstd::slice::slice_subrange(self.bytes, from, to));
        assert(out@ =~= bytes_of(self.text(), from as int, to as int));
        out
    }

    /// The directive whose name is the atom from `a` to `e`.
    fn directive(&self, a: usize, e: usize) -> (res: Option<(Directive<'a>, usize)>)
        requires
            self.wf(),
            a < e <= self.text().len(),
        ensures
            match res {
                Some((dir, k)) => directive(self.text(), a as int, e as int) == Some(
                    (dir@, k as int),
                ) && e < k <= self.text().len(),
                None => directive(self.text(), a as int, e as int) is None,
            },
    {
        let n = self.len();
        let name = self.slice(a, e);
        if str_eq(name, ".equ") {
            let (ident, k) = match self.name_operand(e) {
                Some(found) => found,
                None => {
                    return None;
                },
            };
            match self.number_operand(k, -0x8000, 0xffff) {
                Some((v, end)) => Some((Directive::Constant(ident, low16(v)), end)),
                None => None,
            }
        } else if str_eq(name, ".alias") {
            let (ident, k) = match self.name_operand(e) {
                Some(found) => found,
                None => {
                    return None;
                },
            };
            match self.reg_operand(k) {
                Some((RegLink::Direct(reg), end)) => Some((Directive::Alias(ident, reg), end)),
                _ => None,
            }
        } else if str_eq(name, ".byte") {
            match self.number_list(e, -0x80, 0xff) {
                Some((xs, end)) => if xs.len() > 0 {
                    Some((Directive::Byte(to_bytes(&xs)), end))
                } else {
                    None
                },
                None => None,
            }
        } else if str_eq(name, ".half") {
            match self.number_list(e, -0x8000, 0xffff) {
                Some((xs, end)) => if xs.len() > 0 {
                    Some((Directive::Half(to_halves(&xs)), end))
                } else {
                    None
                },
                None => None,
            }
        } else if str_eq(name, ".word") {
            match self.number_list(e, -0x8000_0000, 0xffff_ffff) {
                Some((xs, end)) => if xs.len() > 0 {
                    Some((Directive::Word(to_words(&xs)), end))
                } else {
                    None
                },
                None => None,
            }
        } else if str_eq(name, ".zero") {
            match self.number_operand(e, -0x8000, 0x7fff) {
                Some((v, end)) => Some((Directive::Zero(v as i16), end)),
                None => None,
            }
        } else if str_eq(name, ".string") {
            match self.string_operand(e) {
                Some((from, to)) => Some((Directive::Byte(self.bytes_of(from, to)), to + 1)),
                None => None,
            }
        } else if str_eq(name, ".incbin") {
            match self.string_operand(e) {
                Some((from, to)) => Some((Directive::IncBin(self.slice(from, to)), to + 1)),
                None => None,
            }
        } else {
            None
        }
    }

    /// The expression that starts at index `a`.
    fn statement(&self, a: usize) -> (res: Option<(Exp<'a>, usize)>)
        requires
            self.wf(),
            a < self.text().len(),
            !is_blank(byte_at(self.text(), a as int)),
        ensures
            match res {
                Some((exp, k)) => statement(self.text(), a as int) == Some((exp@, k as int)) && a
                    < k <= self.text().len(),
                None => statement(self.text(), a as int) is None,
            },
    {
        let n = self.len();
        let e = self.atom_end(a);
        let first = self.at(a);
        if first == 0x23 {
            let end = self.find_byte(a + 1, 0x0a);
            return Some((Exp::Comment(self.slice(a + 1, end)), end));
        }
        if e <= a {
            return None;
        }
        if e < n && self.at(e) == 0x3a {
            if name_start(first) {
                return Some((Exp::Label(self.slice(a, e)), e + 1));
            }
            return None;
        }
        if first == 0x2e {
            return match self.directive(a, e) {
                Some((dir, end)) => Some((Exp::Directive(dir), end)),
                None => None,
            };
        }
        match form_of(self.slice(a, e)) {
            Some(form) => match self.instruction(e, form) {
                Some((word, end)) => Some((Exp::Word(word), end)),
                None => None,
            },
            None => None,
        }
    }
}

/// A program with what follows it.
spec fn continued(head: Seq<ExpView>, tail: Option<Seq<ExpView>>) -> Option<Seq<ExpView>> {
    match tail {
        Some(rest) => Some(head + rest),
        None => None,
    }
}

/// Parses assembly text. It fails with `Error::ParseError` on a text that
/// spells no program.
pub fn parse<'a>(code: &'a str) -> (res: Result<Exprs<'a>, Error>)
    ensures
        match res {
            Ok(exprs) => parsed(code@) == Some(program_view(exprs@)),
            Err(e) => e == Error::ParseError && parsed(code@) is None,
        },
{
    let src = match Source::new(code) {
        Some(src) => src,
        None => {
            return Err(Error::ParseError);
        },
    };
    let ghost text = code@;
    let mut exprs: Vec<Exp<'a>> = Vec::new();
    let mut i: usize = 0;
    assert(program_view(exprs@) =~= Seq::<ExpView>::empty());
    loop
        invariant
            src.wf(),
            src.text() == text,
            text == code@,
            vstd::utf8::is_ascii_chars(text),
            i <= text.len(),
            program(text, 0) == continued(program_view(exprs@), program(text, i as int)),
        decreases text.len() - i,
    {
        let a = src.skip_blank(i);
        if a >= src.len() {
            assert(program_view(exprs@) + Seq::<ExpView>::empty() =~= program_view(exprs@));
            return Ok(exprs);
        }
        proof {
            lemma_skip_blank_stops(text, i as int);
        }
        let (exp, end) = match src.statement(a) {
            Some(found) => found,
            None => {
                return Err(Error::ParseError);
            },
        };
        let ghost before = program_view(exprs@);
        let ghost rest = program(text, end as int);
        exprs.push(exp);
        proof {
            assert(program_view(exprs@) =~= before + seq![exp@]);
            match rest {
                Some(tail) => {
                    assert(before + (seq![exp@] + tail) =~= program_view(exprs@) + tail);
                },
                None => {},
            }
        }
        i = end;
    }
}

/// Where the skipping of separators stops, no separator stands.
proof fn lemma_skip_blank_stops(text: Seq<char>, i: int)
    requires
        0 <= i,
    ensures
        i <= skip_blank(text, i),
        skip_blank(text, i) < text.len() ==> !is_blank(byte_at(text, skip_blank(text, i))),
    decreases text.len() - i,
{
    if 0 <= i < text.len() && is_blank(byte_at(text, i)) {
        lemma_skip_blank_stops(text, i + 1);
    }
}

} // verus!
