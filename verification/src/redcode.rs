//! The Redcode instruction: its fields, its packed control word and its
//! textual form.
//!
//! The control word holds, from the most significant bit down: two flag bits
//! that are always zero, five bits of opcode, three bits of modifier, three
//! bits of B-mode and three bits of A-mode.
//!
//! ```text
//! bit    15 14 | 13 12 11 10 9 | 8 7 6 | 5 4 3 | 2 1 0
//! field  flags |    opcode     |  mod  | b-mode| a-mode
//! ```

use vstd::prelude::*;
use vstd::string::StringSliceAdditionalSpecFns;
use crate::assembler::{agrees_assembled, assemble, assembled, ParseError};
use crate::error::Error;

verus! {

/// A numeric operand field, or an address in the core.
pub type Field = u16;

/// What an instruction does.
#[derive(Copy, Clone, Debug, PartialEq, Eq, Structural)]
pub enum Opcode {
    DAT,
    SPL,
    MOV,
    DJN,
    ADD,
    JMZ,
    SUB,
    SEQ,
    SNE,
    SLT,
    JMN,
    JMP,
    NOP,
    MUL,
    MOD,
    DIV,
    LDP,
    STP,
}

/// How an operand field is turned into an address.
#[derive(Copy, Clone, Debug, PartialEq, Eq, Structural)]
pub enum Mode {
    DIRECT,
    IMMEDIATE,
    BINDIRECT,
    BPREDEC,
    BPOSTINC,
    AINDIRECT,
    APREDEC,
    APOSTINC,
}

/// Which fields of the two operands an opcode works on.
#[derive(Copy, Clone, Debug, PartialEq, Eq, Structural)]
pub enum Modifier {
    A,
    B,
    BA,
    AB,
    F,
    X,
    I,
}

/// One cell of the core: two numeric fields and the packed control word.
#[derive(Copy, Clone, Debug, PartialEq, Eq, Structural)]
pub struct Insn {
    pub a: Field,
    pub b: Field,
    pub in_: u16,
}

impl Opcode {
    /// The number that stands for the opcode in a control word.
    pub open spec fn spec_code(self) -> u16 {
        match self {
            Opcode::DAT => 0,
            Opcode::SPL => 1,
            Opcode::MOV => 2,
            Opcode::DJN => 3,
            Opcode::ADD => 4,
            Opcode::JMZ => 5,
            Opcode::SUB => 6,
            Opcode::SEQ => 7,
            Opcode::SNE => 8,
            Opcode::SLT => 9,
            Opcode::JMN => 10,
            Opcode::JMP => 11,
            Opcode::NOP => 12,
            Opcode::MUL => 13,
            Opcode::MOD => 14,
            Opcode::DIV => 15,
            Opcode::LDP => 16,
            Opcode::STP => 17,
        }
    }

    /// The opcode that a number stands for, if any.
    pub open spec fn spec_from_code(c: int) -> Option<Opcode> {
        if c == 0 {
            Some(Opcode::DAT)
        } else if c == 1 {
            Some(Opcode::SPL)
        } else if c == 2 {
            Some(Opcode::MOV)
        } else if c == 3 {
            Some(Opcode::DJN)
        } else if c == 4 {
            Some(Opcode::ADD)
        } else if c == 5 {
            Some(Opcode::JMZ)
        } else if c == 6 {
            Some(Opcode::SUB)
        } else if c == 7 {
            Some(Opcode::SEQ)
        } else if c == 8 {
            Some(Opcode::SNE)
        } else if c == 9 {
            Some(Opcode::SLT)
        } else if c == 10 {
            Some(Opcode::JMN)
        } else if c == 11 {
            Some(Opcode::JMP)
        } else if c == 12 {
            Some(Opcode::NOP)
        } else if c == 13 {
            Some(Opcode::MUL)
        } else if c == 14 {
            Some(Opcode::MOD)
        } else if c == 15 {
            Some(Opcode::DIV)
        } else if c == 16 {
            Some(Opcode::LDP)
        } else if c == 17 {
            Some(Opcode::STP)
        } else {
            None
        }
    }

    /// The lower-case mnemonic.
    pub open spec fn spec_mnemonic(self) -> Seq<char> {
        match self {
            Opcode::DAT => "dat"@,
            Opcode::SPL => "spl"@,
            Opcode::MOV => "mov"@,
            Opcode::DJN => "djn"@,
            Opcode::ADD => "add"@,
            Opcode::JMZ => "jmz"@,
            Opcode::SUB => "sub"@,
            Opcode::SEQ => "seq"@,
            Opcode::SNE => "sne"@,
            Opcode::SLT => "slt"@,
            Opcode::JMN => "jmn"@,
            Opcode::JMP => "jmp"@,
            Opcode::NOP => "nop"@,
            Opcode::MUL => "mul"@,
            Opcode::MOD => "mod"@,
            Opcode::DIV => "div"@,
            Opcode::LDP => "ldp"@,
            Opcode::STP => "stp"@,
        }
    }

    /// The number that stands for the opcode in a control word.
    #[verifier::when_used_as_spec(spec_code)]
    pub fn code(self) -> (c: u16)
        ensures
            c == self.spec_code(),
            c < 18,
    {
        match self {
            Opcode::DAT => 0,
            Opcode::SPL => 1,
            Opcode::MOV => 2,
            Opcode::DJN => 3,
            Opcode::ADD => 4,
            Opcode::JMZ => 5,
            Opcode::SUB => 6,
            Opcode::SEQ => 7,
            Opcode::SNE => 8,
            Opcode::SLT => 9,
            Opcode::JMN => 10,
            Opcode::JMP => 11,
            Opcode::NOP => 12,
            Opcode::MUL => 13,
            Opcode::MOD => 14,
            Opcode::DIV => 15,
            Opcode::LDP => 16,
            Opcode::STP => 17,
        }
    }

    /// The opcode that a number stands for, or `None` from 18 on.
    pub fn from_code(c: u16) -> (r: Option<Opcode>)
        ensures
            r == Opcode::spec_from_code(c as int),
            r is Some <==> c < 18,
            r matches Some(op) ==> op.spec_code() == c,
    {
        match c {
            0 => Some(Opcode::DAT),
            1 => Some(Opcode::SPL),
            2 => Some(Opcode::MOV),
            3 => Some(Opcode::DJN),
            4 => Some(Opcode::ADD),
            5 => Some(Opcode::JMZ),
            6 => Some(Opcode::SUB),
            7 => Some(Opcode::SEQ),
            8 => Some(Opcode::SNE),
            9 => Some(Opcode::SLT),
            10 => Some(Opcode::JMN),
            11 => Some(Opcode::JMP),
            12 => Some(Opcode::NOP),
            13 => Some(Opcode::MUL),
            14 => Some(Opcode::MOD),
            15 => Some(Opcode::DIV),
            16 => Some(Opcode::LDP),
            17 => Some(Opcode::STP),
            _ => None,
        }
    }

    /// The lower-case mnemonic.
    pub fn mnemonic(self) -> (s: &'static str)
        ensures
            s@ == self.spec_mnemonic(),
    {
        match self {
            Opcode::DAT => "dat",
            Opcode::SPL => "spl",
            Opcode::MOV => "mov",
            Opcode::DJN => "djn",
            Opcode::ADD => "add",
            Opcode::JMZ => "jmz",
            Opcode::SUB => "sub",
            Opcode::SEQ => "seq",
            Opcode::SNE => "sne",
            Opcode::SLT => "slt",
            Opcode::JMN => "jmn",
            Opcode::JMP => "jmp",
            Opcode::NOP => "nop",
            Opcode::MUL => "mul",
            Opcode::MOD => "mod",
            Opcode::DIV => "div",
            Opcode::LDP => "ldp",
            Opcode::STP => "stp",
        }
    }
}

impl Default for Opcode {
    fn default() -> (r: Self)
        ensures
            r == Opcode::DAT,
    {
        Opcode::DAT
    }
}

impl Modifier {
    /// The number that stands for the modifier in a control word.
    pub open spec fn spec_code(self) -> u16 {
        match self {
            Modifier::F => 0,
            Modifier::A => 1,
            Modifier::B => 2,
            Modifier::AB => 3,
            Modifier::BA => 4,
            Modifier::X => 5,
            Modifier::I => 6,
        }
    }

    /// The modifier that a number stands for, if any.
    pub open spec fn spec_from_code(c: int) -> Option<Modifier> {
        if c == 0 {
            Some(Modifier::F)
        } else if c == 1 {
            Some(Modifier::A)
        } else if c == 2 {
            Some(Modifier::B)
        } else if c == 3 {
            Some(Modifier::AB)
        } else if c == 4 {
            Some(Modifier::BA)
        } else if c == 5 {
            Some(Modifier::X)
        } else if c == 6 {
            Some(Modifier::I)
        } else {
            None
        }
    }

    /// The lower-case name.
    pub open spec fn spec_name(self) -> Seq<char> {
        match self {
            Modifier::A => "a"@,
            Modifier::B => "b"@,
            Modifier::AB => "ab"@,
            Modifier::BA => "ba"@,
            Modifier::F => "f"@,
            Modifier::X => "x"@,
            Modifier::I => "i"@,
        }
    }

    /// The number that stands for the modifier in a control word.
    #[verifier::when_used_as_spec(spec_code)]
    pub fn code(self) -> (c: u16)
        ensures
            c == self.spec_code(),
            c < 7,
    {
        match self {
            Modifier::F => 0,
            Modifier::A => 1,
            Modifier::B => 2,
            Modifier::AB => 3,
            Modifier::BA => 4,
            Modifier::X => 5,
            Modifier::I => 6,
        }
    }

    /// The modifier that a number stands for, or `None` from 7 on.
    pub fn from_code(c: u16) -> (r: Option<Modifier>)
        ensures
            r == Modifier::spec_from_code(c as int),
            r is Some <==> c < 7,
            r matches Some(m) ==> m.spec_code() == c,
    {
        match c {
            0 => Some(Modifier::F),
            1 => Some(Modifier::A),
            2 => Some(Modifier::B),
            3 => Some(Modifier::AB),
            4 => Some(Modifier::BA),
            5 => Some(Modifier::X),
            6 => Some(Modifier::I),
            _ => None,
        }
    }

    /// The lower-case name.
    pub fn name(self) -> (s: &'static str)
        ensures
            s@ == self.spec_name(),
    {
        match self {
            Modifier::A => "a",
            Modifier::B => "b",
            Modifier::AB => "ab",
            Modifier::BA => "ba",
            Modifier::F => "f",
            Modifier::X => "x",
            Modifier::I => "i",
        }
    }
}

impl Default for Modifier {
    fn default() -> (r: Self)
        ensures
            r == Modifier::F,
    {
        Modifier::F
    }
}

impl Mode {
    /// The number that stands for the mode in a control word.
    pub open spec fn spec_code(self) -> u16 {
        match self {
            Mode::DIRECT => 0,
            Mode::IMMEDIATE => 1,
            Mode::BINDIRECT => 2,
            Mode::BPREDEC => 3,
            Mode::BPOSTINC => 4,
            Mode::AINDIRECT => 5,
            Mode::APREDEC => 6,
            Mode::APOSTINC => 7,
        }
    }

    /// The mode that a number stands for, if any.
    pub open spec fn spec_from_code(c: int) -> Option<Mode> {
        if c == 0 {
            Some(Mode::DIRECT)
        } else if c == 1 {
            Some(Mode::IMMEDIATE)
        } else if c == 2 {
            Some(Mode::BINDIRECT)
        } else if c == 3 {
            Some(Mode::BPREDEC)
        } else if c == 4 {
            Some(Mode::BPOSTINC)
        } else if c == 5 {
            Some(Mode::AINDIRECT)
        } else if c == 6 {
            Some(Mode::APREDEC)
        } else if c == 7 {
            Some(Mode::APOSTINC)
        } else {
            None
        }
    }

    /// The one-character sigil that stands before an operand.
    pub open spec fn spec_sigil(self) -> Seq<char> {
        match self {
            Mode::DIRECT => "$"@,
            Mode::IMMEDIATE => "#"@,
            Mode::BINDIRECT => "@"@,
            Mode::BPREDEC => "<"@,
            Mode::BPOSTINC => ">"@,
            Mode::AINDIRECT => "*"@,
            Mode::APREDEC => "{"@,
            Mode::APOSTINC => "}"@,
        }
    }

    /// The number that stands for the mode in a control word.
    #[verifier::when_used_as_spec(spec_code)]
    pub fn code(self) -> (c: u16)
        ensures
            c == self.spec_code(),
            c < 8,
    {
        match self {
            Mode::DIRECT => 0,
            Mode::IMMEDIATE => 1,
            Mode::BINDIRECT => 2,
            Mode::BPREDEC => 3,
            Mode::BPOSTINC => 4,
            Mode::AINDIRECT => 5,
            Mode::APREDEC => 6,
            Mode::APOSTINC => 7,
        }
    }

    /// The mode that a number stands for, or `None` from 8 on.
    pub fn from_code(c: u16) -> (r: Option<Mode>)
        ensures
            r == Mode::spec_from_code(c as int),
            r is Some <==> c < 8,
            r matches Some(m) ==> m.spec_code() == c,
    {
        match c {
            0 => Some(Mode::DIRECT),
            1 => Some(Mode::IMMEDIATE),
            2 => Some(Mode::BINDIRECT),
            3 => Some(Mode::BPREDEC),
            4 => Some(Mode::BPOSTINC),
            5 => Some(Mode::AINDIRECT),
            6 => Some(Mode::APREDEC),
            7 => Some(Mode::APOSTINC),
            _ => None,
        }
    }

    /// The one-character sigil that stands before an operand.
    pub fn sigil(self) -> (s: &'static str)
        ensures
            s@ == self.spec_sigil(),
    {
        match self {
            Mode::DIRECT => "$",
            Mode::IMMEDIATE => "#",
            Mode::BINDIRECT => "@",
            Mode::BPREDEC => "<",
            Mode::BPOSTINC => ">",
            Mode::AINDIRECT => "*",
            Mode::APREDEC => "{",
            Mode::APOSTINC => "}",
        }
    }
}

impl Default for Mode {
    fn default() -> (r: Self)
        ensures
            r == Mode::DIRECT,
    {
        Mode::DIRECT
    }
}

/// The control word of an opcode, a modifier and two modes.
///
/// The opcode stands at bit 9, the modifier at bit 6, the B-mode at bit 3
/// and the A-mode at bit 0.
pub open spec fn pack(opcode: Opcode, modifier: Modifier, a_mode: Mode, b_mode: Mode) -> u16 {
    (opcode.spec_code() * 512 + modifier.spec_code() * 64 + b_mode.spec_code() * 8
        + a_mode.spec_code()) as u16
}

/// What a control word decodes to: the opcode, the modifier, the A-mode and
/// the B-mode, or `MalformedInstruction` for a word that no combination packs to.
pub open spec fn unpack(word: u16) -> Result<(Opcode, Modifier, Mode, Mode), Error> {
    match (
        Opcode::spec_from_code(word as int / 512),
        Modifier::spec_from_code((word as int / 64) % 8),
        Mode::spec_from_code(word as int % 8),
        Mode::spec_from_code((word as int / 8) % 8),
    ) {
        (Some(opcode), Some(modifier), Some(a_mode), Some(b_mode)) => Ok(
            (opcode, modifier, a_mode, b_mode),
        ),
        _ => Err(Error::MalformedInstruction),
    }
}

/// A control word is well formed when it decodes.
pub open spec fn well_formed_word(word: u16) -> bool {
    unpack(word) is Ok
}

/// The four numbers of a control word come back from it by division.
proof fn lemma_split_word(op: u32, mo: u32, mb: u32, ma: u32)
    by (bit_vector)
    requires
        op < 18,
        mo < 8,
        mb < 8,
        ma < 8,
    ensures
        (op * 512 + mo * 64 + mb * 8 + ma) / 512 == op,
        ((op * 512 + mo * 64 + mb * 8 + ma) / 64) % 8 == mo,
        ((op * 512 + mo * 64 + mb * 8 + ma) / 8) % 8 == mb,
        (op * 512 + mo * 64 + mb * 8 + ma) % 8 == ma,
{
}

/// A word is the sum of its four parts, each at its place.
proof fn lemma_join_word(word: u16)
    by (bit_vector)
    ensures
        word == (word / 512) * 512 + ((word / 64) % 8) * 64 + ((word / 8) % 8) * 8 + word % 8,
{
}

/// Each opcode, modifier and mode is the one that its number stands for.
proof fn lemma_codes_invert(opcode: Opcode, modifier: Modifier, a_mode: Mode, b_mode: Mode)
    ensures
        Opcode::spec_from_code(opcode.spec_code() as int) == Some(opcode),
        Modifier::spec_from_code(modifier.spec_code() as int) == Some(modifier),
        Mode::spec_from_code(a_mode.spec_code() as int) == Some(a_mode),
        Mode::spec_from_code(b_mode.spec_code() as int) == Some(b_mode),
        opcode.spec_code() < 18,
        modifier.spec_code() < 7,
        a_mode.spec_code() < 8,
        b_mode.spec_code() < 8,
{
}

/// A number that stands for an opcode, a modifier or a mode is the code of it.
proof fn lemma_codes_of(c: int)
    ensures
        Opcode::spec_from_code(c) matches Some(op) ==> op.spec_code() == c,
        Modifier::spec_from_code(c) matches Some(m) ==> m.spec_code() == c,
        Mode::spec_from_code(c) matches Some(m) ==> m.spec_code() == c,
{
}

/// Decoding inverts packing: every combination of opcode, modifier and modes
/// comes back unchanged from its control word.
pub proof fn lemma_unpack_pack(opcode: Opcode, modifier: Modifier, a_mode: Mode, b_mode: Mode)
    ensures
        unpack(pack(opcode, modifier, a_mode, b_mode)) == Ok::<
            (Opcode, Modifier, Mode, Mode),
            Error,
        >((opcode, modifier, a_mode, b_mode)),
{
    lemma_codes_invert(opcode, modifier, a_mode, b_mode);
    let op = opcode.spec_code() as u32;
    let mo = modifier.spec_code() as u32;
    let mb = b_mode.spec_code() as u32;
    let ma = a_mode.spec_code() as u32;
    lemma_split_word(op, mo, mb, ma);
    let word = pack(opcode, modifier, a_mode, b_mode);
    assert(word as int == op * 512 + mo * 64 + mb * 8 + ma);
}

/// Packing inverts decoding: a word that decodes is the control word of what
/// it decodes to, so no two words decode alike.
pub proof fn lemma_pack_unpack(word: u16)
    requires
        well_formed_word(word),
    ensures
        ({
            let (opcode, modifier, a_mode, b_mode) = unpack(word)->Ok_0;
            pack(opcode, modifier, a_mode, b_mode) == word
        }),
{
    lemma_join_word(word);
    lemma_codes_of(word as int / 512);
    lemma_codes_of((word as int / 64) % 8);
    lemma_codes_of((word as int / 8) % 8);
    lemma_codes_of(word as int % 8);
}

/// An instruction built from its six parts gives all six back: the fields as
/// they are, the other four by decoding.
pub proof fn lemma_instruction_round_trip(
    opcode: Opcode,
    modifier: Modifier,
    a_mode: Mode,
    a_field: Field,
    b_mode: Mode,
    b_field: Field,
)
    ensures
        ({
            let insn = Insn {
                a: a_field,
                b: b_field,
                in_: pack(opcode, modifier, a_mode, b_mode),
            };
            &&& insn.well_formed()
            &&& insn.spec_opcode() == opcode
            &&& insn.spec_modifier() == modifier
            &&& insn.spec_a_mode() == a_mode
            &&& insn.a == a_field
            &&& insn.spec_b_mode() == b_mode
            &&& insn.b == b_field
        }),
{
    lemma_unpack_pack(opcode, modifier, a_mode, b_mode);
}

/// Packs an opcode, a modifier and two modes into a control word.
pub fn encode(opcode: Opcode, modifier: Modifier, a_mode: Mode, b_mode: Mode) -> (word: u16)
    ensures
        word == pack(opcode, modifier, a_mode, b_mode),
        unpack(word) == Ok::<(Opcode, Modifier, Mode, Mode), Error>(
            (opcode, modifier, a_mode, b_mode),
        ),
{
    let op: u16 = opcode.code();
    let mo: u16 = modifier.code();
    let mb: u16 = b_mode.code();
    let ma: u16 = a_mode.code();
    assert((((op << 3) | mo) << 6) | (mb << 3) | ma == op * 512 + mo * 64 + mb * 8 + ma)
        by (bit_vector)
        requires
            op < 18,
            mo < 7,
            mb < 8,
            ma < 8,
    ;
    proof {
        lemma_unpack_pack(opcode, modifier, a_mode, b_mode);
    }
    (((op << 3) | mo) << 6) | (mb << 3) | ma
}

/// Splits a control word into its opcode, modifier, A-mode and B-mode.
///
/// Fails exactly on the words that no combination of the four packs to.
pub fn decode(word: u16) -> (r: Result<(Opcode, Modifier, Mode, Mode), Error>)
    ensures
        r == unpack(word),
{
    let op: u16 = word >> 9;
    let mo: u16 = (word >> 6) & 7;
    let mb: u16 = (word >> 3) & 7;
    let ma: u16 = word & 7;
    assert(word >> 9 == word / 512) by (bit_vector);
    assert((word >> 6) & 7 == (word / 64) % 8) by (bit_vector);
    assert((word >> 3) & 7 == (word / 8) % 8) by (bit_vector);
    assert(word & 7 == word % 8) by (bit_vector);
    match (Opcode::from_code(op), Modifier::from_code(mo), Mode::from_code(ma), Mode::from_code(mb)) {
        (Some(opcode), Some(modifier), Some(a_mode), Some(b_mode)) => Ok(
            (opcode, modifier, a_mode, b_mode),
        ),
        _ => Err(Error::MalformedInstruction),
    }
}

/// The character of a decimal digit.
pub open spec fn digit_char(d: int) -> Seq<char> {
    if d == 0 {
        "0"@
    } else if d == 1 {
        "1"@
    } else if d == 2 {
        "2"@
    } else if d == 3 {
        "3"@
    } else if d == 4 {
        "4"@
    } else if d == 5 {
        "5"@
    } else if d == 6 {
        "6"@
    } else if d == 7 {
        "7"@
    } else if d == 8 {
        "8"@
    } else {
        "9"@
    }
}

/// A number written in decimal, without leading zeros.
pub open spec fn decimal(n: nat) -> Seq<char>
    decreases n,
{
    if n < 10 {
        digit_char(n as int)
    } else {
        decimal(n / 10) + digit_char((n % 10) as int)
    }
}

fn digit_str(d: u16) -> (s: &'static str)
    requires
        d < 10,
    ensures
        s@ == digit_char(d as int),
{
    match d {
        0 => "0",
        1 => "1",
        2 => "2",
        3 => "3",
        4 => "4",
        5 => "5",
        6 => "6",
        7 => "7",
        8 => "8",
        _ => "9",
    }
}

fn append_decimal(out: &mut String, n: u16)
    ensures
        final(out)@ == old(out)@ + decimal(n as nat),
    decreases n,
{
    if n >= 10 {
        append_decimal(out, n / 10);
    }
    out.append(digit_str(n % 10));
}

impl Insn {
    /// Whether the control word decodes.
    pub open spec fn well_formed(self) -> bool {
        well_formed_word(self.in_)
    }

    /// The opcode of a well-formed instruction.
    pub open spec fn spec_opcode(self) -> Opcode {
        unpack(self.in_)->Ok_0.0
    }

    /// The modifier of a well-formed instruction.
    pub open spec fn spec_modifier(self) -> Modifier {
        unpack(self.in_)->Ok_0.1
    }

    /// The A-mode of a well-formed instruction.
    pub open spec fn spec_a_mode(self) -> Mode {
        unpack(self.in_)->Ok_0.2
    }

    /// The B-mode of a well-formed instruction.
    pub open spec fn spec_b_mode(self) -> Mode {
        unpack(self.in_)->Ok_0.3
    }

    /// The instruction as text: mnemonic, a dot, the modifier, a space, then
    /// each operand as its sigil and its field in decimal, the two operands
    /// separated by a comma and a space.
    pub open spec fn text(self) -> Seq<char> {
        self.spec_opcode().spec_mnemonic() + "."@ + self.spec_modifier().spec_name() + " "@
            + self.spec_a_mode().spec_sigil() + decimal(self.a as nat) + ", "@
            + self.spec_b_mode().spec_sigil() + decimal(self.b as nat)
    }

    /// Builds an instruction; the control word is packed from the opcode, the
    /// modifier and the two modes, the fields are kept as given.
    pub fn new(
        op: Opcode,
        modifier: Modifier,
        a_mode: Mode,
        a_field: Field,
        b_mode: Mode,
        b_field: Field,
    ) -> (insn: Insn)
        ensures
            insn.a == a_field,
            insn.b == b_field,
            insn.in_ == pack(op, modifier, a_mode, b_mode),
            insn.well_formed(),
            unpack(insn.in_) == Ok::<(Opcode, Modifier, Mode, Mode), Error>(
                (op, modifier, a_mode, b_mode),
            ),
    {
        Insn { a: a_field, b: b_field, in_: encode(op, modifier, a_mode, b_mode) }
    }

    /// The opcode, modifier, A-mode and B-mode of the instruction.
    pub fn decode(&self) -> (r: Result<(Opcode, Modifier, Mode, Mode), Error>)
        ensures
            r == unpack(self.in_),
    {
        decode(self.in_)
    }

    /// Whether the control word decodes.
    pub fn is_well_formed(&self) -> (r: bool)
        ensures
            r == self.well_formed(),
    {
        decode(self.in_).is_ok()
    }

    /// Renders a well-formed instruction, as in `mov.i $0, $1`.
    pub fn to_string(&self) -> (s: String)
        requires
            self.well_formed(),
        ensures
            s@ == self.text(),
    {
        let mut out = String::new();
        match decode(self.in_) {
            Ok((opcode, modifier, a_mode, b_mode)) => {
                out.append(opcode.mnemonic());
                out.append(".");
                out.append(modifier.name());
                out.append(" ");
                out.append(a_mode.sigil());
                append_decimal(&mut out, self.a);
                out.append(", ");
                out.append(b_mode.sigil());
                append_decimal(&mut out, self.b);
                out
            },
            Err(_) => vstd::pervasive::unreached(),
        }
    }
}

impl Default for Insn {
    /// `dat.f $0, $0`, whose three parts are all zero.
    fn default() -> (insn: Insn)
        ensures
            insn == (Insn { a: 0, b: 0, in_: 0 }),
            unpack(insn.in_) == Ok::<(Opcode, Modifier, Mode, Mode), Error>(
                (Opcode::DAT, Modifier::F, Mode::DIRECT, Mode::DIRECT),
            ),
    {
        Insn::new(
            Opcode::default(),
            Modifier::default(),
            Mode::default(),
            0,
            Mode::default(),
            0,
        )
    }
}

/// Assembles the source text of a warrior for a core of `coresize` cells:
/// the offset at which the warrior starts and its instructions, or the
/// first fault in the text. The grammar is that of the `assembler` module.
pub fn assemble_warrior(source: &str, coresize: u32) -> (r: Result<(u32, Vec<Insn>), ParseError>)
    ensures
        agrees_assembled(r, assembled(source.spec_bytes(), coresize)),
        r matches Ok((start, code)) ==> start < coresize && forall|i: int|
            0 <= i < code@.len() ==> (#[trigger] code@[i]).well_formed() && code@[i].a < coresize
                && code@[i].b < coresize,
{
    assemble(source.as_bytes(), coresize)
}

} // verus!
