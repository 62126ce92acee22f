//! The assembler: from the text of a warrior to its instructions and the
//! offset at which it starts.
//!
//! The text is read line by line. What follows a `;` on a line is a comment.
//! A line holds nothing, or one statement:
//!
//! ```text
//! statement   := "ORG" spaces origin
//!              | "END" [ spaces origin ]
//!              | [ "START" spaces ] instruction
//! origin      := number | "START"
//! instruction := opcode "." modifier operand "," operand
//! operand     := mode number
//! number      := [ "+" | "-" ] digit { digit }
//! ```
//!
//! Spaces, tabs and carriage returns may stand between the parts, and letters
//! count alike in upper and lower case. A mode is one of `$ # @ < > * { }`.
//! A number is taken modulo the core size, a negative one counted back from
//! the core size. The start offset is zero unless the text sets it: `ORG`
//! and `END` with a number set it to that number, the label `START` sets it
//! to the place of the instruction that it stands before, and the last of
//! them counts. `ORG START` and `END START` only announce the label. `END`
//! ends the text: nothing after its line is read.

use vstd::prelude::*;
use vstd::arithmetic::div_mod::{
    lemma_add_mod_noop,
    lemma_mod_pos_bound,
    lemma_mul_mod_noop_left,
    lemma_small_mod,
};
use crate::modular::{sub_mod, wrap, MAX_CORE_SIZE};
use crate::redcode::{Field, Insn, Mode, Modifier, Opcode};

verus! {

/// Why a text is no warrior.
#[derive(Copy, Clone, Debug, PartialEq, Eq, Structural)]
pub enum ParseErrorKind {
    /// The core size is zero or beyond the largest core.
    CoreSize,
    /// A statement begins with something that is neither an opcode nor
    /// `ORG`, `END` or `START`.
    UnknownOpcode,
    /// No `.` follows the opcode.
    ExpectedDot,
    /// What follows the `.` is no modifier.
    UnknownModifier,
    /// An operand does not begin with a mode sigil.
    UnknownMode,
    /// A number is missing.
    ExpectedNumber,
    /// No `,` follows the first operand.
    ExpectedComma,
    /// Something follows the statement on its line.
    TrailingText,
}

/// A failure to assemble, with the place of the fault: the line and the
/// offset of the offending byte in that line, both counted from zero.
#[derive(Copy, Clone, Debug, PartialEq, Eq, Structural)]
pub struct ParseError {
    pub line: usize,
    pub column: usize,
    pub kind: ParseErrorKind,
}

/// A space, a tab or a carriage return.
pub open spec fn spec_is_space(c: u8) -> bool {
    c == 32 || c == 9 || c == 13
}

/// A letter of the alphabet, in either case.
pub open spec fn spec_is_letter(c: u8) -> bool {
    (65 <= c <= 90) || (97 <= c <= 122)
}

/// A decimal digit.
pub open spec fn spec_is_digit(c: u8) -> bool {
    48 <= c <= 57
}

/// A letter in lower case; any other byte as it is.
pub open spec fn spec_lower(c: u8) -> u8 {
    if 65 <= c <= 90 {
        (c + 32) as u8
    } else {
        c
    }
}

/// The first place from `i` on, before `end`, that holds no space.
pub open spec fn skip_spaces(s: Seq<u8>, i: int, end: int) -> int
    decreases end - i,
{
    if i < end && spec_is_space(s[i]) {
        skip_spaces(s, i + 1, end)
    } else {
        i
    }
}

/// The first place from `i` on, before `end`, that holds no letter.
pub open spec fn skip_letters(s: Seq<u8>, i: int, end: int) -> int
    decreases end - i,
{
    if i < end && spec_is_letter(s[i]) {
        skip_letters(s, i + 1, end)
    } else {
        i
    }
}

/// The first place from `i` on, before `end`, that holds no digit.
pub open spec fn skip_digits(s: Seq<u8>, i: int, end: int) -> int
    decreases end - i,
{
    if i < end && spec_is_digit(s[i]) {
        skip_digits(s, i + 1, end)
    } else {
        i
    }
}

/// The number of bytes from `i` up to the line feed that ends its line, or
/// up to the end of the text.
pub open spec fn line_length(s: Seq<u8>, i: int) -> nat
    decreases s.len() - i,
{
    if 0 <= i < s.len() && s[i] != 10 {
        1 + line_length(s, i + 1)
    } else {
        0
    }
}

/// The place of the line feed that ends the line of `i`, or the end of the text.
pub open spec fn line_end(s: Seq<u8>, i: int) -> int {
    i + line_length(s, i)
}

/// The place of the first `;` from `i` on, or `end` if there is none before it.
pub open spec fn comment_start(s: Seq<u8>, i: int, end: int) -> int
    decreases end - i,
{
    if i < end && s[i] != 59 {
        comment_start(s, i + 1, end)
    } else {
        i
    }
}

/// The number that the digits from `i` up to `j` spell.
pub open spec fn digits_value(s: Seq<u8>, i: int, j: int) -> nat
    decreases j - i,
{
    if j <= i {
        0
    } else {
        digits_value(s, i, j - 1) * 10 + (s[j - 1] - 48) as nat
    }
}

fn is_space(c: u8) -> (r: bool)
    ensures
        r == spec_is_space(c),
{
    c == 32 || c == 9 || c == 13
}

fn is_letter(c: u8) -> (r: bool)
    ensures
        r == spec_is_letter(c),
{
    (65 <= c && c <= 90) || (97 <= c && c <= 122)
}

fn is_digit(c: u8) -> (r: bool)
    ensures
        r == spec_is_digit(c),
{
    48 <= c && c <= 57
}

fn lower(c: u8) -> (r: u8)
    ensures
        r == spec_lower(c),
{
    if 65 <= c && c <= 90 {
        c + 32
    } else {
        c
    }
}

fn scan_spaces(s: &[u8], from: usize, end: usize) -> (r: usize)
    requires
        from <= end <= s@.len(),
    ensures
        r == skip_spaces(s@, from as int, end as int),
        from <= r <= end,
{
    let mut i = from;
    while i < end && is_space(s[i])
        invariant
            from <= i <= end <= s@.len(),
            skip_spaces(s@, from as int, end as int) == skip_spaces(s@, i as int, end as int),
        decreases end - i,
    {
        i = i + 1;
    }
    i
}

fn scan_letters(s: &[u8], from: usize, end: usize) -> (r: usize)
    requires
        from <= end <= s@.len(),
    ensures
        r == skip_letters(s@, from as int, end as int),
        from <= r <= end,
{
    let mut i = from;
    while i < end && is_letter(s[i])
        invariant
            from <= i <= end <= s@.len(),
            skip_letters(s@, from as int, end as int) == skip_letters(s@, i as int, end as int),
        decreases end - i,
    {
        i = i + 1;
    }
    i
}

fn scan_line(s: &[u8], from: usize) -> (r: usize)
    requires
        from <= s@.len(),
    ensures
        r == line_end(s@, from as int),
        from <= r <= s@.len(),
{
    let mut i = from;
    while i < s.len() && s[i] != 10
        invariant
            from <= i <= s@.len(),
            line_end(s@, from as int) == line_end(s@, i as int),
        decreases s@.len() - i,
    {
        i = i + 1;
    }
    i
}

fn scan_comment(s: &[u8], from: usize, end: usize) -> (r: usize)
    requires
        from <= end <= s@.len(),
    ensures
        r == comment_start(s@, from as int, end as int),
        from <= r <= end,
{
    let mut i = from;
    while i < end && s[i] != 59
        invariant
            from <= i <= end <= s@.len(),
            comment_start(s@, from as int, end as int) == comment_start(
                s@,
                i as int,
                end as int,
            ),
        decreases end - i,
    {
        i = i + 1;
    }
    i
}

/// One more digit: the residue of the longer number from that of the shorter.
proof fn lemma_digits_step(s: Seq<u8>, i: int, j: int, n: int)
    requires
        0 < n,
        i <= j < s.len(),
        spec_is_digit(s[j]),
    ensures
        digits_value(s, i, j + 1) % (n as nat) == ((digits_value(s, i, j) % (n as nat)) * 10 + (
        s[j] - 48)) % n,
{
    let v = digits_value(s, i, j) as int;
    let d = (s[j] - 48) as int;
    assert(digits_value(s, i, j + 1) == v * 10 + d);
    lemma_mul_mod_noop_left(v, 10, n);
    lemma_add_mod_noop(v * 10, d, n);
    lemma_add_mod_noop((v % n) * 10, d, n);
}

/// Reads the digits from `from` on: the place after them and the residue of
/// the number that they spell.
fn scan_digits(s: &[u8], from: usize, end: usize, n: u32) -> (r: (usize, u32))
    requires
        from <= end <= s@.len(),
        0 < n <= MAX_CORE_SIZE,
    ensures
        r.0 == skip_digits(s@, from as int, end as int),
        from <= r.0 <= end,
        r.1 == digits_value(s@, from as int, r.0 as int) % (n as nat),
        r.1 < n,
{
    let mut i = from;
    let mut acc: u32 = 0;
    proof {
        lemma_small_mod(0, n as nat);
    }
    while i < end && is_digit(s[i])
        invariant
            from <= i <= end <= s@.len(),
            0 < n <= MAX_CORE_SIZE,
            skip_digits(s@, from as int, end as int) == skip_digits(s@, i as int, end as int),
            acc == digits_value(s@, from as int, i as int) % (n as nat),
            acc < n,
        decreases end - i,
    {
        proof {
            lemma_digits_step(s@, from as int, i as int, n as int);
            lemma_mod_pos_bound(acc * 10 + (s@[i as int] - 48), n as int);
        }
        acc = (acc * 10 + (s[i] - 48) as u32) % n;
        i = i + 1;
    }
    (i, acc)
}

/// What the word at the head of a statement is.
#[derive(Copy, Clone, Debug, PartialEq, Eq, Structural)]
pub enum Word {
    Org,
    End,
    Start,
    Op(Opcode),
    Unknown,
}

/// What a line holds.
#[derive(Copy, Clone, Debug, PartialEq, Eq, Structural)]
pub enum Statement {
    /// Nothing but spaces and a comment.
    Blank,
    /// `ORG`, with the start offset if it gives a number.
    Origin(Option<Field>),
    /// `END`, with the start offset if it gives a number.
    End(Option<Field>),
    /// An instruction, and whether the label `START` stands before it.
    Code(Insn, bool),
}

/// The opcode that three letters in lower case name.
pub open spec fn spec_opcode_named(c0: u8, c1: u8, c2: u8) -> Option<Opcode> {
    if c0 == ('d' as u8) && c1 == ('a' as u8) && c2 == ('t' as u8) {
        Some(Opcode::DAT)
    } else if c0 == ('s' as u8) && c1 == ('p' as u8) && c2 == ('l' as u8) {
        Some(Opcode::SPL)
    } else if c0 == ('m' as u8) && c1 == ('o' as u8) && c2 == ('v' as u8) {
        Some(Opcode::MOV)
    } else if c0 == ('d' as u8) && c1 == ('j' as u8) && c2 == ('n' as u8) {
        Some(Opcode::DJN)
    } else if c0 == ('a' as u8) && c1 == ('d' as u8) && c2 == ('d' as u8) {
        Some(Opcode::ADD)
    } else if c0 == ('j' as u8) && c1 == ('m' as u8) && c2 == ('z' as u8) {
        Some(Opcode::JMZ)
    } else if c0 == ('s' as u8) && c1 == ('u' as u8) && c2 == ('b' as u8) {
        Some(Opcode::SUB)
    } else if c0 == ('s' as u8) && c1 == ('e' as u8) && c2 == ('q' as u8) {
        Some(Opcode::SEQ)
    } else if c0 == ('s' as u8) && c1 == ('n' as u8) && c2 == ('e' as u8) {
        Some(Opcode::SNE)
    } else if c0 == ('s' as u8) && c1 == ('l' as u8) && c2 == ('t' as u8) {
        Some(Opcode::SLT)
    } else if c0 == ('j' as u8) && c1 == ('m' as u8) && c2 == ('n' as u8) {
        Some(Opcode::JMN)
    } else if c0 == ('j' as u8) && c1 == ('m' as u8) && c2 == ('p' as u8) {
        Some(Opcode::JMP)
    } else if c0 == ('n' as u8) && c1 == ('o' as u8) && c2 == ('p' as u8) {
        Some(Opcode::NOP)
    } else if c0 == ('m' as u8) && c1 == ('u' as u8) && c2 == ('l' as u8) {
        Some(Opcode::MUL)
    } else if c0 == ('m' as u8) && c1 == ('o' as u8) && c2 == ('d' as u8) {
        Some(Opcode::MOD)
    } else if c0 == ('d' as u8) && c1 == ('i' as u8) && c2 == ('v' as u8) {
        Some(Opcode::DIV)
    } else if c0 == ('l' as u8) && c1 == ('d' as u8) && c2 == ('p' as u8) {
        Some(Opcode::LDP)
    } else if c0 == ('s' as u8) && c1 == ('t' as u8) && c2 == ('p' as u8) {
        Some(Opcode::STP)
    } else {
        None
    }
}

/// What the letters from `i` up to `j` are, in whatever case.
pub open spec fn spec_word(s: Seq<u8>, i: int, j: int) -> Word {
    if j - i == 3 {
        let c0 = spec_lower(s[i]);
        let c1 = spec_lower(s[i + 1]);
        let c2 = spec_lower(s[i + 2]);
        if c0 == ('o' as u8) && c1 == ('r' as u8) && c2 == ('g' as u8) {
            Word::Org
        } else if c0 == ('e' as u8) && c1 == ('n' as u8) && c2 == ('d' as u8) {
            Word::End
        } else {
            match spec_opcode_named(c0, c1, c2) {
                Some(op) => Word::Op(op),
                None => Word::Unknown,
            }
        }
    } else if j - i == 5 && spec_lower(s[i]) == ('s' as u8) && spec_lower(s[i + 1]) == ('t' as u8)
        && spec_lower(s[i + 2]) == ('a' as u8) && spec_lower(s[i + 3]) == ('r' as u8) && spec_lower(s[i + 4])
        == ('t' as u8) {
        Word::Start
    } else {
        Word::Unknown
    }
}

/// The modifier that the letters from `i` up to `j` name, in whatever case.
pub open spec fn spec_modifier_named(s: Seq<u8>, i: int, j: int) -> Option<Modifier> {
    if j - i == 1 {
        let c = spec_lower(s[i]);
        if c == ('a' as u8) {
            Some(Modifier::A)
        } else if c == ('b' as u8) {
            Some(Modifier::B)
        } else if c == ('f' as u8) {
            Some(Modifier::F)
        } else if c == ('x' as u8) {
            Some(Modifier::X)
        } else if c == ('i' as u8) {
            Some(Modifier::I)
        } else {
            None
        }
    } else if j - i == 2 {
        let c0 = spec_lower(s[i]);
        let c1 = spec_lower(s[i + 1]);
        if c0 == ('a' as u8) && c1 == ('b' as u8) {
            Some(Modifier::AB)
        } else if c0 == ('b' as u8) && c1 == ('a' as u8) {
            Some(Modifier::BA)
        } else {
            None
        }
    } else {
        None
    }
}

/// The mode that a sigil stands for.
pub open spec fn spec_mode_of(c: u8) -> Option<Mode> {
    if c == ('$' as u8) {
        Some(Mode::DIRECT)
    } else if c == ('#' as u8) {
        Some(Mode::IMMEDIATE)
    } else if c == ('@' as u8) {
        Some(Mode::BINDIRECT)
    } else if c == ('<' as u8) {
        Some(Mode::BPREDEC)
    } else if c == ('>' as u8) {
        Some(Mode::BPOSTINC)
    } else if c == ('*' as u8) {
        Some(Mode::AINDIRECT)
    } else if c == ('{' as u8) {
        Some(Mode::APREDEC)
    } else if c == ('}' as u8) {
        Some(Mode::APOSTINC)
    } else {
        None
    }
}

/// A number at `i`: an optional sign and at least one digit. Gives the
/// number modulo `n` and the place after it, or the place where a digit is
/// missing.
pub open spec fn parse_number(s: Seq<u8>, i: int, end: int, n: int) -> Result<
    (Field, int),
    (int, ParseErrorKind),
> {
    let negative = i < end && s[i] == ('-' as u8);
    let signed = i < end && (s[i] == ('-' as u8) || s[i] == ('+' as u8));
    let first = if signed {
        i + 1
    } else {
        i
    };
    let after = skip_digits(s, first, end);
    if after == first {
        Err((first, ParseErrorKind::ExpectedNumber))
    } else {
        let v = digits_value(s, first, after) as int;
        Ok(
            (
                wrap(
                    if negative {
                        -v
                    } else {
                        v
                    },
                    n,
                ) as Field,
                after,
            ),
        )
    }
}

/// An operand from `i` on: spaces, a mode sigil, spaces and a number.
pub open spec fn parse_operand(s: Seq<u8>, i: int, end: int, n: int) -> Result<
    ((Mode, Field), int),
    (int, ParseErrorKind),
> {
    let at = skip_spaces(s, i, end);
    if at < end && spec_mode_of(s[at]).is_some() {
        match parse_number(s, skip_spaces(s, at + 1, end), end, n) {
            Ok((field, next)) => Ok(((spec_mode_of(s[at])->Some_0, field), next)),
            Err(e) => Err(e),
        }
    } else {
        Err((at, ParseErrorKind::UnknownMode))
    }
}

/// The rest of an instruction whose opcode ended at `j`: the dot, the
/// modifier and the two operands with the comma between them.
pub open spec fn parse_instruction(s: Seq<u8>, op: Opcode, j: int, end: int, n: int) -> Result<
    (Insn, int),
    (int, ParseErrorKind),
> {
    if !(j < end && s[j] == ('.' as u8)) {
        Err((j, ParseErrorKind::ExpectedDot))
    } else {
        let m_end = skip_letters(s, j + 1, end);
        match spec_modifier_named(s, j + 1, m_end) {
            None => Err((j + 1, ParseErrorKind::UnknownModifier)),
            Some(modifier) => match parse_operand(s, m_end, end, n) {
                Err(e) => Err(e),
                Ok(((a_mode, a_field), k)) => {
                    let comma = skip_spaces(s, k, end);
                    if !(comma < end && s[comma] == (',' as u8)) {
                        Err((comma, ParseErrorKind::ExpectedComma))
                    } else {
                        match parse_operand(s, comma + 1, end, n) {
                            Err(e) => Err(e),
                            Ok(((b_mode, b_field), next)) => Ok(
                                (
                                    Insn {
                                        a: a_field,
                                        b: b_field,
                                        in_: crate::redcode::pack(op, modifier, a_mode, b_mode),
                                    },
                                    next,
                                ),
                            ),
                        }
                    }
                },
            },
        }
    }
}

/// What follows `ORG` or `END`, from the first byte that is no space: the
/// word `START`, which gives no offset, or a number.
pub open spec fn parse_origin(s: Seq<u8>, i: int, end: int, n: int) -> Result<
    (Option<Field>, int),
    (int, ParseErrorKind),
> {
    let w_end = skip_letters(s, i, end);
    if spec_word(s, i, w_end) == Word::Start {
        Ok((None, w_end))
    } else {
        match parse_number(s, i, end, n) {
            Ok((field, next)) => Ok((Some(field), next)),
            Err(e) => Err(e),
        }
    }
}

/// The statement, once nothing but spaces follows it up to `end`.
pub open spec fn finished(s: Seq<u8>, statement: Statement, next: int, end: int) -> Result<
    Statement,
    (int, ParseErrorKind),
> {
    let rest = skip_spaces(s, next, end);
    if rest == end {
        Ok(statement)
    } else {
        Err((rest, ParseErrorKind::TrailingText))
    }
}

/// The statement that stands from `from` up to `end`, the end of the line
/// or the start of its comment.
#[verifier::opaque]
pub open spec fn parse_statement(s: Seq<u8>, from: int, end: int, n: int) -> Result<
    Statement,
    (int, ParseErrorKind),
> {
    let i = skip_spaces(s, from, end);
    if i == end {
        Ok(Statement::Blank)
    } else {
        let j = skip_letters(s, i, end);
        match spec_word(s, i, j) {
            Word::Unknown => Err((i, ParseErrorKind::UnknownOpcode)),
            Word::Org => match parse_origin(s, skip_spaces(s, j, end), end, n) {
                Err(e) => Err(e),
                Ok((origin, next)) => finished(s, Statement::Origin(origin), next, end),
            },
            Word::End => {
                let k = skip_spaces(s, j, end);
                if k == end {
                    Ok(Statement::End(None))
                } else {
                    match parse_origin(s, k, end, n) {
                        Err(e) => Err(e),
                        Ok((origin, next)) => finished(s, Statement::End(origin), next, end),
                    }
                }
            },
            Word::Start => {
                let k = skip_spaces(s, j, end);
                let j2 = skip_letters(s, k, end);
                match spec_word(s, k, j2) {
                    Word::Op(op) => match parse_instruction(s, op, j2, end, n) {
                        Err(e) => Err(e),
                        Ok((insn, next)) => finished(s, Statement::Code(insn, true), next, end),
                    },
                    _ => Err((k, ParseErrorKind::UnknownOpcode)),
                }
            },
            Word::Op(op) => match parse_instruction(s, op, j, end, n) {
                Err(e) => Err(e),
                Ok((insn, next)) => finished(s, Statement::Code(insn, false), next, end),
            },
        }
    }
}

/// A statement whose numbers are residues of `n` and whose instruction a
/// core of size `n` can hold.
pub open spec fn statement_ok(statement: Statement, n: int) -> bool {
    match statement {
        Statement::Blank => true,
        Statement::Origin(offset) => offset matches Some(f) ==> f < n,
        Statement::End(offset) => offset matches Some(f) ==> f < n,
        Statement::Code(insn, _) => crate::memory::cell_ok(insn, n),
    }
}

/// Whether what a parser returned is what the grammar says: the same
/// value and the same place after it, or the same fault at the same place.
pub open spec fn agrees<T>(
    got: Result<(T, usize), (usize, ParseErrorKind)>,
    want: Result<(T, int), (int, ParseErrorKind)>,
) -> bool {
    match got {
        Ok((value, next)) => want == Ok::<(T, int), (int, ParseErrorKind)>((value, next as int)),
        Err((at, kind)) => want == Err::<(T, int), (int, ParseErrorKind)>((at as int, kind)),
    }
}

/// Whether the statement that a parser returned is what the grammar says.
pub open spec fn agrees_statement(
    got: Result<Statement, (usize, ParseErrorKind)>,
    want: Result<Statement, (int, ParseErrorKind)>,
) -> bool {
    match got {
        Ok(statement) => want == Ok::<Statement, (int, ParseErrorKind)>(statement),
        Err((at, kind)) => want == Err::<Statement, (int, ParseErrorKind)>((at as int, kind)),
    }
}

fn opcode_named(c0: u8, c1: u8, c2: u8) -> (r: Option<Opcode>)
    ensures
        r == spec_opcode_named(c0, c1, c2),
{
    if c0 == 'd' as u8 && c1 == 'a' as u8 && c2 == 't' as u8 {
        Some(Opcode::DAT)
    } else if c0 == 's' as u8 && c1 == 'p' as u8 && c2 == 'l' as u8 {
        Some(Opcode::SPL)
    } else if c0 == 'm' as u8 && c1 == 'o' as u8 && c2 == 'v' as u8 {
        Some(Opcode::MOV)
    } else if c0 == 'd' as u8 && c1 == 'j' as u8 && c2 == 'n' as u8 {
        Some(Opcode::DJN)
    } else if c0 == 'a' as u8 && c1 == 'd' as u8 && c2 == 'd' as u8 {
        Some(Opcode::ADD)
    } else if c0 == 'j' as u8 && c1 == 'm' as u8 && c2 == 'z' as u8 {
        Some(Opcode::JMZ)
    } else if c0 == 's' as u8 && c1 == 'u' as u8 && c2 == 'b' as u8 {
        Some(Opcode::SUB)
    } else if c0 == 's' as u8 && c1 == 'e' as u8 && c2 == 'q' as u8 {
        Some(Opcode::SEQ)
    } else if c0 == 's' as u8 && c1 == 'n' as u8 && c2 == 'e' as u8 {
        Some(Opcode::SNE)
    } else if c0 == 's' as u8 && c1 == 'l' as u8 && c2 == 't' as u8 {
        Some(Opcode::SLT)
    } else if c0 == 'j' as u8 && c1 == 'm' as u8 && c2 == 'n' as u8 {
        Some(Opcode::JMN)
    } else if c0 == 'j' as u8 && c1 == 'm' as u8 && c2 == 'p' as u8 {
        Some(Opcode::JMP)
    } else if c0 == 'n' as u8 && c1 == 'o' as u8 && c2 == 'p' as u8 {
        Some(Opcode::NOP)
    } else if c0 == 'm' as u8 && c1 == 'u' as u8 && c2 == 'l' as u8 {
        Some(Opcode::MUL)
    } else if c0 == 'm' as u8 && c1 == 'o' as u8 && c2 == 'd' as u8 {
        Some(Opcode::MOD)
    } else if c0 == 'd' as u8 && c1 == 'i' as u8 && c2 == 'v' as u8 {
        Some(Opcode::DIV)
    } else if c0 == 'l' as u8 && c1 == 'd' as u8 && c2 == 'p' as u8 {
        Some(Opcode::LDP)
    } else if c0 == 's' as u8 && c1 == 't' as u8 && c2 == 'p' as u8 {
        Some(Opcode::STP)
    } else {
        None
    }
}

fn word(s: &[u8], i: usize, j: usize) -> (r: Word)
    requires
        i <= j <= s@.len(),
    ensures
        r == spec_word(s@, i as int, j as int),
{
    if j - i == 3 {
        let c0 = lower(s[i]);
        let c1 = lower(s[i + 1]);
        let c2 = lower(s[i + 2]);
        if c0 == 'o' as u8 && c1 == 'r' as u8 && c2 == 'g' as u8 {
            Word::Org
        } else if c0 == 'e' as u8 && c1 == 'n' as u8 && c2 == 'd' as u8 {
            Word::End
        } else {
            match opcode_named(c0, c1, c2) {
                Some(op) => Word::Op(op),
                None => Word::Unknown,
            }
        }
    } else if j - i == 5 && lower(s[i]) == 's' as u8 && lower(s[i + 1]) == 't' as u8 && lower(
        s[i + 2],
    ) == 'a' as u8 && lower(s[i + 3]) == 'r' as u8 && lower(s[i + 4]) == 't' as u8 {
        Word::Start
    } else {
        Word::Unknown
    }
}

fn modifier_named(s: &[u8], i: usize, j: usize) -> (r: Option<Modifier>)
    requires
        i <= j <= s@.len(),
    ensures
        r == spec_modifier_named(s@, i as int, j as int),
{
    if j - i == 1 {
        let c = lower(s[i]);
        if c == 'a' as u8 {
            Some(Modifier::A)
        } else if c == 'b' as u8 {
            Some(Modifier::B)
        } else if c == 'f' as u8 {
            Some(Modifier::F)
        } else if c == 'x' as u8 {
            Some(Modifier::X)
        } else if c == 'i' as u8 {
            Some(Modifier::I)
        } else {
            None
        }
    } else if j - i == 2 {
        let c0 = lower(s[i]);
        let c1 = lower(s[i + 1]);
        if c0 == 'a' as u8 && c1 == 'b' as u8 {
            Some(Modifier::AB)
        } else if c0 == 'b' as u8 && c1 == 'a' as u8 {
            Some(Modifier::BA)
        } else {
            None
        }
    } else {
        None
    }
}

fn mode_of(c: u8) -> (r: Option<Mode>)
    ensures
        r == spec_mode_of(c),
{
    if c == '$' as u8 {
        Some(Mode::DIRECT)
    } else if c == '#' as u8 {
        Some(Mode::IMMEDIATE)
    } else if c == '@' as u8 {
        Some(Mode::BINDIRECT)
    } else if c == '<' as u8 {
        Some(Mode::BPREDEC)
    } else if c == '>' as u8 {
        Some(Mode::BPOSTINC)
    } else if c == '*' as u8 {
        Some(Mode::AINDIRECT)
    } else if c == '{' as u8 {
        Some(Mode::APREDEC)
    } else if c == '}' as u8 {
        Some(Mode::APOSTINC)
    } else {
        None
    }
}

fn number(s: &[u8], i: usize, end: usize, n: u32) -> (r: Result<
    (Field, usize),
    (usize, ParseErrorKind),
>)
    requires
        i <= end <= s@.len(),
        0 < n <= MAX_CORE_SIZE,
    ensures
        agrees(r, parse_number(s@, i as int, end as int, n as int)),
        r matches Ok((field, next)) ==> field < n && i <= next <= end,
        r matches Err((at, _)) ==> i <= at <= end,
{
    let negative = i < end && s[i] == '-' as u8;
    let signed = i < end && (s[i] == '-' as u8 || s[i] == '+' as u8);
    let first = if signed {
        i + 1
    } else {
        i
    };
    let (after, residue) = scan_digits(s, first, end, n);
    if after == first {
        return Err((first, ParseErrorKind::ExpectedNumber));
    }
    let value = if negative {
        proof {
            let v = digits_value(s@, first as int, after as int) as int;
            vstd::arithmetic::div_mod::lemma_sub_mod_noop(0, v, n as int);
            lemma_small_mod(0, n as nat);
        }
        sub_mod(0, residue, n)
    } else {
        residue
    };
    Ok((value as Field, after))
}

fn operand(s: &[u8], i: usize, end: usize, n: u32) -> (r: Result<
    ((Mode, Field), usize),
    (usize, ParseErrorKind),
>)
    requires
        i <= end <= s@.len(),
        0 < n <= MAX_CORE_SIZE,
    ensures
        agrees(r, parse_operand(s@, i as int, end as int, n as int)),
        r matches Ok(((_, field), next)) ==> field < n && i <= next <= end,
        r matches Err((at, _)) ==> i <= at <= end,
{
    let at = scan_spaces(s, i, end);
    if at >= end {
        return Err((at, ParseErrorKind::UnknownMode));
    }
    match mode_of(s[at]) {
        None => Err((at, ParseErrorKind::UnknownMode)),
        Some(mode) => {
            let digits = scan_spaces(s, at + 1, end);
            match number(s, digits, end, n) {
                Ok((field, next)) => Ok(((mode, field), next)),
                Err(e) => Err(e),
            }
        },
    }
}

fn instruction(s: &[u8], op: Opcode, j: usize, end: usize, n: u32) -> (r: Result<
    (Insn, usize),
    (usize, ParseErrorKind),
>)
    requires
        j <= end <= s@.len(),
        0 < n <= MAX_CORE_SIZE,
    ensures
        agrees(r, parse_instruction(s@, op, j as int, end as int, n as int)),
        r matches Ok((insn, next)) ==> crate::memory::cell_ok(insn, n as int) && j <= next
            <= end,
        r matches Err((at, _)) ==> j <= at <= end,
{
    if !(j < end && s[j] == '.' as u8) {
        return Err((j, ParseErrorKind::ExpectedDot));
    }
    let m_end = scan_letters(s, j + 1, end);
    let modifier = match modifier_named(s, j + 1, m_end) {
        None => {
            return Err((j + 1, ParseErrorKind::UnknownModifier));
        },
        Some(modifier) => modifier,
    };
    let ((a_mode, a_field), k) = match operand(s, m_end, end, n) {
        Err(e) => {
            return Err(e);
        },
        Ok(found) => found,
    };
    let comma = scan_spaces(s, k, end);
    if !(comma < end && s[comma] == ',' as u8) {
        return Err((comma, ParseErrorKind::ExpectedComma));
    }
    let ((b_mode, b_field), next) = match operand(s, comma + 1, end, n) {
        Err(e) => {
            return Err(e);
        },
        Ok(found) => found,
    };
    Ok((Insn::new(op, modifier, a_mode, a_field, b_mode, b_field), next))
}

fn origin(s: &[u8], i: usize, end: usize, n: u32) -> (r: Result<
    (Option<Field>, usize),
    (usize, ParseErrorKind),
>)
    requires
        i <= end <= s@.len(),
        0 < n <= MAX_CORE_SIZE,
    ensures
        agrees(r, parse_origin(s@, i as int, end as int, n as int)),
        r matches Ok((offset, next)) ==> (offset matches Some(f) ==> f < n) && i <= next <= end,
        r matches Err((at, _)) ==> i <= at <= end,
{
    let w_end = scan_letters(s, i, end);
    match word(s, i, w_end) {
        Word::Start => Ok((None, w_end)),
        _ => match number(s, i, end, n) {
            Ok((field, next)) => Ok((Some(field), next)),
            Err(e) => Err(e),
        },
    }
}

fn finish(s: &[u8], statement: Statement, next: usize, end: usize) -> (r: Result<
    Statement,
    (usize, ParseErrorKind),
>)
    requires
        next <= end <= s@.len(),
    ensures
        agrees_statement(r, finished(s@, statement, next as int, end as int)),
        r matches Ok(found) ==> found == statement,
        r matches Err((at, _)) ==> next <= at <= end,
{
    let rest = scan_spaces(s, next, end);
    if rest == end {
        Ok(statement)
    } else {
        Err((rest, ParseErrorKind::TrailingText))
    }
}

fn statement(s: &[u8], from: usize, end: usize, n: u32) -> (r: Result<
    Statement,
    (usize, ParseErrorKind),
>)
    requires
        from <= end <= s@.len(),
        0 < n <= MAX_CORE_SIZE,
    ensures
        agrees_statement(r, parse_statement(s@, from as int, end as int, n as int)),
        r matches Ok(found) ==> statement_ok(found, n as int),
        r matches Err((at, _)) ==> from <= at <= end,
{
    reveal(parse_statement);
    let i = scan_spaces(s, from, end);
    if i == end {
        return Ok(Statement::Blank);
    }
    let j = scan_letters(s, i, end);
    match word(s, i, j) {
        Word::Unknown => Err((i, ParseErrorKind::UnknownOpcode)),
        Word::Org => {
            let k = scan_spaces(s, j, end);
            match origin(s, k, end, n) {
                Err(e) => Err(e),
                Ok((start, next)) => finish(s, Statement::Origin(start), next, end),
            }
        },
        Word::End => {
            let k = scan_spaces(s, j, end);
            if k == end {
                Ok(Statement::End(None))
            } else {
                match origin(s, k, end, n) {
                    Err(e) => Err(e),
                    Ok((start, next)) => finish(s, Statement::End(start), next, end),
                }
            }
        },
        Word::Start => {
            let k = scan_spaces(s, j, end);
            let j2 = scan_letters(s, k, end);
            match word(s, k, j2) {
                Word::Op(op) => match instruction(s, op, j2, end, n) {
                    Err(e) => Err(e),
                    Ok((insn, next)) => finish(s, Statement::Code(insn, true), next, end),
                },
                _ => Err((k, ParseErrorKind::UnknownOpcode)),
            }
        },
        Word::Op(op) => match instruction(s, op, j, end, n) {
            Err(e) => Err(e),
            Ok((insn, next)) => finish(s, Statement::Code(insn, false), next, end),
        },
    }
}

/// The offset that a statement leaves as the start of the warrior.
pub open spec fn start_after(statement: Statement, start: Field, count: nat, n: int) -> Field {
    match statement {
        Statement::Blank => start,
        Statement::Origin(Some(offset)) => offset,
        Statement::Origin(None) => start,
        Statement::End(Some(offset)) => offset,
        Statement::End(None) => start,
        Statement::Code(_, labelled) => if labelled {
            wrap(count as int, n) as Field
        } else {
            start
        },
    }
}

/// The instructions after a statement: one more if the statement is one.
pub open spec fn code_after(statement: Statement, code: Seq<Insn>) -> Seq<Insn> {
    match statement {
        Statement::Code(insn, _) => code.push(insn),
        _ => code,
    }
}

/// The lines from `from` on, the first of them line `line`, after the lines
/// before them gave the start offset `start` and the instructions `code`.
pub open spec fn parse_lines(
    s: Seq<u8>,
    from: int,
    line: int,
    start: Field,
    code: Seq<Insn>,
    n: int,
) -> Result<(Field, Seq<Insn>), ParseError>
    decreases s.len() - from,
{
    if from < 0 || from >= s.len() {
        Ok((start, code))
    } else {
        let eol = line_end(s, from);
        let end = comment_start(s, from, eol);
        match parse_statement(s, from, end, n) {
            Err((at, kind)) => Err(
                ParseError { line: line as usize, column: (at - from) as usize, kind },
            ),
            Ok(statement) => {
                let next_start = start_after(statement, start, code.len(), n);
                let next_code = code_after(statement, code);
                if statement is End || eol >= s.len() {
                    Ok((next_start, next_code))
                } else {
                    parse_lines(s, eol + 1, line + 1, next_start, next_code, n)
                }
            },
        }
    }
}

/// The lines of a text that is used up, or whose first line is `from`, one
/// step at a time.
proof fn lemma_parse_lines_step(
    s: Seq<u8>,
    from: int,
    line: int,
    start: Field,
    code: Seq<Insn>,
    n: int,
)
    ensures
        from >= s.len() ==> parse_lines(s, from, line, start, code, n) == Ok::<
            (Field, Seq<Insn>),
            ParseError,
        >((start, code)),
        0 <= from < s.len() ==> parse_lines(s, from, line, start, code, n) == ({
            let eol = line_end(s, from);
            let end = comment_start(s, from, eol);
            match parse_statement(s, from, end, n) {
                Err((at, kind)) => Err(
                    ParseError { line: line as usize, column: (at - from) as usize, kind },
                ),
                Ok(statement) => {
                    let next_start = start_after(statement, start, code.len(), n);
                    let next_code = code_after(statement, code);
                    if statement is End || eol >= s.len() {
                        Ok((next_start, next_code))
                    } else {
                        parse_lines(s, eol + 1, line + 1, next_start, next_code, n)
                    }
                },
            }
        }),
{
}

/// What a text assembles to for a core of `coresize` cells: the start offset
/// and the instructions, or the first fault in the text.
pub open spec fn assembled(s: Seq<u8>, coresize: u32) -> Result<(u32, Seq<Insn>), ParseError> {
    if !(1 <= coresize <= MAX_CORE_SIZE) {
        Err(ParseError { line: 0, column: 0, kind: ParseErrorKind::CoreSize })
    } else {
        match parse_lines(s, 0, 0, 0, Seq::<Insn>::empty(), coresize as int) {
            Ok((start, code)) => Ok((start as u32, code)),
            Err(e) => Err(e),
        }
    }
}

/// Whether the result of assembling is what the grammar says of the text.
pub open spec fn agrees_assembled(
    got: Result<(u32, Vec<Insn>), ParseError>,
    want: Result<(u32, Seq<Insn>), ParseError>,
) -> bool {
    match got {
        Ok((start, code)) => want == Ok::<(u32, Seq<Insn>), ParseError>((start, code@)),
        Err(e) => want == Err::<(u32, Seq<Insn>), ParseError>(e),
    }
}

/// Assembles the text of a warrior for a core of `coresize` cells.
///
/// Returns the start offset and the instructions in the order of the text,
/// every field reduced modulo the core size and every control word well
/// formed. Fails on the first line that is no statement, or at once for a
/// core size of zero or beyond the largest core.
pub fn assemble(text: &[u8], coresize: u32) -> (r: Result<(u32, Vec<Insn>), ParseError>)
    ensures
        agrees_assembled(r, assembled(text@, coresize)),
        r matches Ok((start, code)) ==> start < coresize && crate::mars::code_ok(code@)
            && forall|i: int|
            0 <= i < code@.len() ==> (#[trigger] code@[i]).a < coresize && code@[i].b < coresize,
{
    if !(1 <= coresize && coresize <= MAX_CORE_SIZE) {
        return Err(ParseError { line: 0, column: 0, kind: ParseErrorKind::CoreSize });
    }
    let len = text.len();
    let mut code: Vec<Insn> = Vec::new();
    let mut start: Field = 0;
    let mut from: usize = 0;
    let mut line: usize = 0;
    while from < len
        invariant
            from <= len,
            len == text@.len(),
            line <= from,
            1 <= coresize <= MAX_CORE_SIZE,
            start < coresize,
            crate::mars::code_ok(code@),
            forall|i: int|
                0 <= i < code@.len() ==> (#[trigger] code@[i]).a < coresize && code@[i].b
                    < coresize,
            parse_lines(text@, 0, 0, 0, Seq::<Insn>::empty(), coresize as int) == parse_lines(
                text@,
                from as int,
                line as int,
                start,
                code@,
                coresize as int,
            ),
        decreases len - from,
    {
        let eol = scan_line(text, from);
        let end = scan_comment(text, from, eol);
        proof {
            lemma_parse_lines_step(
                text@,
                from as int,
                line as int,
                start,
                code@,
                coresize as int,
            );
        }
        match statement(text, from, end, coresize) {
            Err((at, kind)) => {
                return Err(ParseError { line, column: at - from, kind });
            },
            Ok(Statement::Blank) => {},
            Ok(Statement::Origin(offset)) => {
                if let Some(offset) = offset {
                    start = offset;
                }
            },
            Ok(Statement::End(offset)) => {
                if let Some(offset) = offset {
                    start = offset;
                }
                return Ok((start as u32, code));
            },
            Ok(Statement::Code(insn, labelled)) => {
                if labelled {
                    proof {
                        lemma_mod_pos_bound(code@.len() as int, coresize as int);
                    }
                    start = (code.len() % (coresize as usize)) as Field;
                }
                code.push(insn);
            },
        }
        if eol >= len {
            return Ok((start as u32, code));
        }
        from = eol + 1;
        line = line + 1;
    }
    Ok((start as u32, code))
}

} // verus!
