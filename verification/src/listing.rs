//! The text of an instruction and the assembler agree: what
//! `Insn::to_string` writes, `assemble_warrior` reads back as the same
//! instruction.

use vstd::prelude::*;
use vstd::string::StringSliceAdditionalSpecFns;
use vstd::utf8::{is_ascii_chars, is_ascii_chars_encode_utf8};
use crate::assembler::{
    assembled,
    comment_start,
    digits_value,
    line_length,
    parse_instruction,
    parse_lines,
    parse_number,
    parse_operand,
    parse_statement,
    skip_digits,
    skip_letters,
    skip_spaces,
    spec_is_digit,
    spec_is_letter,
    spec_is_space,
    spec_lower,
    spec_mode_of,
    spec_modifier_named,
    spec_opcode_named,
    spec_word,
    ParseError,
    ParseErrorKind,
    Statement,
    Word,
};
use crate::modular::{lemma_wrap_small, MAX_CORE_SIZE};
use crate::redcode::{decimal, digit_char, lemma_pack_unpack, Field, Insn, Mode, Modifier, Opcode};

verus! {

/// The bytes of a text of characters below 256.
pub open spec fn ascii(text: Seq<char>) -> Seq<u8> {
    Seq::new(text.len(), |i: int| text[i] as u8)
}

/// A byte that neither ends a line nor begins a comment.
pub open spec fn plain(c: u8) -> bool {
    c != 10 && c != 59
}

/// Letters up to a byte that is none are skipped as a whole.
proof fn lemma_letters_run(s: Seq<u8>, i: int, j: int, end: int)
    requires
        0 <= i <= j <= end <= s.len(),
        forall|k: int| i <= k < j ==> spec_is_letter(#[trigger] s[k]),
        j == end || !spec_is_letter(s[j]),
    ensures
        skip_letters(s, i, end) == j,
    decreases j - i,
{
    if i < j {
        lemma_letters_run(s, i + 1, j, end);
    }
}

/// Digits up to a byte that is none are skipped as a whole.
proof fn lemma_digits_run(s: Seq<u8>, i: int, j: int, end: int)
    requires
        0 <= i <= j <= end <= s.len(),
        forall|k: int| i <= k < j ==> spec_is_digit(#[trigger] s[k]),
        j == end || !spec_is_digit(s[j]),
    ensures
        skip_digits(s, i, end) == j,
    decreases j - i,
{
    if i < j {
        lemma_digits_run(s, i + 1, j, end);
    }
}

/// A text of plain bytes is one line without a comment.
proof fn lemma_one_line(s: Seq<u8>, i: int)
    requires
        0 <= i <= s.len(),
        forall|k: int| i <= k < s.len() ==> plain(#[trigger] s[k]),
    ensures
        line_length(s, i) == s.len() - i,
        comment_start(s, i, s.len() as int) == s.len(),
    decreases s.len() - i,
{
    if i < s.len() {
        assert(plain(s[i]));
        lemma_one_line(s, i + 1);
    }
}

/// The digits of a number that stand somewhere in a text spell the number
/// that they spell on their own.
proof fn lemma_digits_embedded(s: Seq<u8>, p: int, d: Seq<u8>, len: int)
    requires
        0 <= p,
        0 <= len <= d.len(),
        p + len <= s.len(),
        forall|k: int| 0 <= k < len ==> #[trigger] s[p + k] == d[k],
    ensures
        digits_value(s, p, p + len) == digits_value(d, 0, len),
    decreases len,
{
    if len > 0 {
        lemma_digits_embedded(s, p, d, len - 1);
        assert(s[p + (len - 1)] == d[len - 1]);
    }
}

/// The text of a digit is that digit.
proof fn lemma_digit_char(d: int)
    requires
        0 <= d <= 9,
    ensures
        digit_char(d).len() == 1,
        digit_char(d)[0] as u8 == 48 + d,
        is_ascii_chars(digit_char(d)),
{
    reveal_strlit("0");
    reveal_strlit("1");
    reveal_strlit("2");
    reveal_strlit("3");
    reveal_strlit("4");
    reveal_strlit("5");
    reveal_strlit("6");
    reveal_strlit("7");
    reveal_strlit("8");
    reveal_strlit("9");
}

/// A number written in decimal is at least one digit, nothing but digits,
/// and spells the number.
proof fn lemma_decimal_spells(v: nat)
    ensures
        decimal(v).len() >= 1,
        forall|k: int|
            0 <= k < decimal(v).len() ==> spec_is_digit(#[trigger] ascii(decimal(v))[k]),
        digits_value(ascii(decimal(v)), 0, decimal(v).len() as int) == v,
        is_ascii_chars(decimal(v)),
    decreases v,
{
    let whole = ascii(decimal(v));
    if v < 10 {
        lemma_digit_char(v as int);
        assert(digits_value(whole, 0, 1) == digits_value(whole, 0, 0) * 10 + (whole[0] - 48));
    } else {
        let front = decimal(v / 10);
        let len = front.len() as int;
        lemma_decimal_spells(v / 10);
        lemma_digit_char((v % 10) as int);
        assert(decimal(v) == front + digit_char((v % 10) as int));
        assert forall|k: int| 0 <= k < decimal(v).len() implies spec_is_digit(
            #[trigger] whole[k],
        ) by {
            if k < len {
                assert(whole[k] == ascii(front)[k]);
            }
        }
        assert forall|k: int| 0 <= k < len implies #[trigger] whole[0 + k] == ascii(front)[k] by {}
        lemma_digits_embedded(whole, 0, ascii(front), len);
        assert(digits_value(whole, 0, len + 1) == digits_value(whole, 0, len) * 10 + (whole[len]
            - 48));
    }
}

/// The mnemonic of an opcode is three plain lower-case letters that name it
/// and no other word of the grammar.
proof fn lemma_mnemonic_bytes(op: Opcode)
    ensures
        ({
            let m = ascii(op.spec_mnemonic());
            &&& m.len() == 3
            &&& forall|k: int|
                0 <= k < 3 ==> spec_is_letter(#[trigger] m[k]) && spec_lower(m[k]) == m[k]
                    && plain(m[k])
            &&& spec_opcode_named(m[0], m[1], m[2]) == Some(op)
            &&& !(m[0] == 'o' as u8 && m[1] == 'r' as u8 && m[2] == 'g' as u8)
            &&& !(m[0] == 'e' as u8 && m[1] == 'n' as u8 && m[2] == 'd' as u8)
            &&& is_ascii_chars(op.spec_mnemonic())
        }),
{
    match op {
        Opcode::DAT => reveal_strlit("dat"),
        Opcode::SPL => reveal_strlit("spl"),
        Opcode::MOV => reveal_strlit("mov"),
        Opcode::DJN => reveal_strlit("djn"),
        Opcode::ADD => reveal_strlit("add"),
        Opcode::JMZ => reveal_strlit("jmz"),
        Opcode::SUB => reveal_strlit("sub"),
        Opcode::SEQ => reveal_strlit("seq"),
        Opcode::SNE => reveal_strlit("sne"),
        Opcode::SLT => reveal_strlit("slt"),
        Opcode::JMN => reveal_strlit("jmn"),
        Opcode::JMP => reveal_strlit("jmp"),
        Opcode::NOP => reveal_strlit("nop"),
        Opcode::MUL => reveal_strlit("mul"),
        Opcode::MOD => reveal_strlit("mod"),
        Opcode::DIV => reveal_strlit("div"),
        Opcode::LDP => reveal_strlit("ldp"),
        Opcode::STP => reveal_strlit("stp"),
    }
}

/// The name of a modifier is one or two plain lower-case letters that name it.
proof fn lemma_modifier_bytes(modifier: Modifier)
    ensures
        ({
            let m = ascii(modifier.spec_name());
            &&& 1 <= m.len() <= 2
            &&& forall|k: int| 0 <= k < m.len() ==> spec_is_letter(#[trigger] m[k]) && plain(m[k])
            &&& spec_modifier_named(m, 0, m.len() as int) == Some(modifier)
            &&& is_ascii_chars(modifier.spec_name())
        }),
{
    match modifier {
        Modifier::A => reveal_strlit("a"),
        Modifier::B => reveal_strlit("b"),
        Modifier::AB => reveal_strlit("ab"),
        Modifier::BA => reveal_strlit("ba"),
        Modifier::F => reveal_strlit("f"),
        Modifier::X => reveal_strlit("x"),
        Modifier::I => reveal_strlit("i"),
    }
}

/// The sigil of a mode is one plain byte that stands for it, and no space.
proof fn lemma_sigil_bytes(mode: Mode)
    ensures
        ({
            let m = ascii(mode.spec_sigil());
            &&& m.len() == 1
            &&& plain(m[0])
            &&& !spec_is_space(m[0])
            &&& spec_mode_of(m[0]) == Some(mode)
            &&& is_ascii_chars(mode.spec_sigil())
        }),
{
    match mode {
        Mode::DIRECT => reveal_strlit("$"),
        Mode::IMMEDIATE => reveal_strlit("#"),
        Mode::BINDIRECT => reveal_strlit("@"),
        Mode::BPREDEC => reveal_strlit("<"),
        Mode::BPOSTINC => reveal_strlit(">"),
        Mode::AINDIRECT => reveal_strlit("*"),
        Mode::APREDEC => reveal_strlit("{"),
        Mode::APOSTINC => reveal_strlit("}"),
    }
}

/// The bytes of two texts in a row are the bytes of the one and then of
/// the other.
proof fn lemma_ascii_joined(a: Seq<char>, b: Seq<char>)
    ensures
        ascii(a + b) == ascii(a) + ascii(b),
{
    assert(ascii(a + b) =~= ascii(a) + ascii(b));
}

/// An operand as the disassembler writes it, standing at `at` after any
/// number of the bytes before it, is read back as its mode and field.
proof fn lemma_operand_read(
    s: Seq<u8>,
    at: int,
    end: int,
    mode: Mode,
    field: Field,
    n: int,
)
    requires
        0 <= at,
        end <= s.len(),
        0 < n,
        field < n,
        at + 1 + decimal(field as nat).len() <= end,
        s[at] == ascii(mode.spec_sigil())[0],
        forall|k: int|
            0 <= k < decimal(field as nat).len() ==> #[trigger] s[at + 1 + k] == ascii(
                decimal(field as nat),
            )[k],
        at + 1 + decimal(field as nat).len() == end || !spec_is_digit(
            s[at + 1 + decimal(field as nat).len()],
        ),
    ensures
        parse_operand(s, at, end, n) == Ok::<((Mode, Field), int), (int, ParseErrorKind)>(
            ((mode, field), at + 1 + decimal(field as nat).len()),
        ),
{
    let d = ascii(decimal(field as nat));
    let len = d.len() as int;
    lemma_sigil_bytes(mode);
    lemma_decimal_spells(field as nat);
    assert(skip_spaces(s, at, end) == at);
    assert(s[at + 1 + 0] == d[0]);
    assert(spec_is_digit(d[0]));
    assert(skip_spaces(s, at + 1, end) == at + 1);
    assert forall|k: int| at + 1 <= k < at + 1 + len implies spec_is_digit(#[trigger] s[k]) by {
        assert(s[at + 1 + (k - at - 1)] == d[k - at - 1]);
    }
    lemma_digits_run(s, at + 1, at + 1 + len, end);
    lemma_digits_embedded(s, at + 1, d, len);
    lemma_wrap_small(field as int, n);
    assert(parse_number(s, at + 1, end, n) == Ok::<(Field, int), (int, ParseErrorKind)>(
        (field, at + 1 + len),
    ));
}

/// A text that holds, in this order and with nothing else, the mnemonic, a
/// dot, the modifier, a space, the first operand, a comma, a space and the
/// second operand.
pub open spec fn laid_out(
    t: Seq<u8>,
    op: Opcode,
    modifier: Modifier,
    a_mode: Mode,
    a_field: Field,
    b_mode: Mode,
    b_field: Field,
) -> bool {
    let mn = ascii(op.spec_mnemonic());
    let name = ascii(modifier.spec_name());
    let sa = ascii(a_mode.spec_sigil());
    let da = ascii(decimal(a_field as nat));
    let sb = ascii(b_mode.spec_sigil());
    let db = ascii(decimal(b_field as nat));
    let nn = name.len() as int;
    let la = da.len() as int;
    let lb = db.len() as int;
    &&& t.len() == 9 + nn + la + lb
    &&& forall|k: int| 0 <= k < 3 ==> #[trigger] t[k] == mn[k]
    &&& t[3] == '.' as u8
    &&& forall|k: int| 0 <= k < nn ==> #[trigger] t[4 + k] == name[k]
    &&& t[4 + nn] == ' ' as u8
    &&& t[5 + nn] == sa[0]
    &&& forall|k: int| 0 <= k < la ==> #[trigger] t[6 + nn + k] == da[k]
    &&& t[6 + nn + la] == ',' as u8
    &&& t[7 + nn + la] == ' ' as u8
    &&& t[8 + nn + la] == sb[0]
    &&& forall|k: int| 0 <= k < lb ==> #[trigger] t[9 + nn + la + k] == db[k]
}

/// The text of an instruction is laid out part after part.
proof fn lemma_text_laid_out(insn: Insn)
    ensures
        laid_out(
            ascii(insn.text()),
            insn.spec_opcode(),
            insn.spec_modifier(),
            insn.spec_a_mode(),
            insn.a,
            insn.spec_b_mode(),
            insn.b,
        ),
{
    let op = insn.spec_opcode();
    let modifier = insn.spec_modifier();
    let a_mode = insn.spec_a_mode();
    let b_mode = insn.spec_b_mode();
    reveal_strlit(".");
    reveal_strlit(" ");
    reveal_strlit(", ");
    lemma_mnemonic_bytes(op);
    lemma_modifier_bytes(modifier);
    lemma_sigil_bytes(a_mode);
    lemma_sigil_bytes(b_mode);
    let t1 = op.spec_mnemonic() + "."@;
    let t2 = t1 + modifier.spec_name();
    let t3 = t2 + " "@;
    let t4 = t3 + a_mode.spec_sigil();
    let t5 = t4 + decimal(insn.a as nat);
    let t6 = t5 + ", "@;
    let t7 = t6 + b_mode.spec_sigil();
    let t8 = t7 + decimal(insn.b as nat);
    assert(insn.text() == t8);
    lemma_ascii_joined(op.spec_mnemonic(), "."@);
    lemma_ascii_joined(t1, modifier.spec_name());
    lemma_ascii_joined(t2, " "@);
    lemma_ascii_joined(t3, a_mode.spec_sigil());
    lemma_ascii_joined(t4, decimal(insn.a as nat));
    lemma_ascii_joined(t5, ", "@);
    lemma_ascii_joined(t6, b_mode.spec_sigil());
    lemma_ascii_joined(t7, decimal(insn.b as nat));
}

/// A text that is laid out as an instruction is one line without a comment.
proof fn lemma_laid_out_plain(
    t: Seq<u8>,
    op: Opcode,
    modifier: Modifier,
    a_mode: Mode,
    a_field: Field,
    b_mode: Mode,
    b_field: Field,
)
    requires
        laid_out(t, op, modifier, a_mode, a_field, b_mode, b_field),
    ensures
        line_length(t, 0) == t.len(),
        comment_start(t, 0, t.len() as int) == t.len(),
{
    let mn = ascii(op.spec_mnemonic());
    let name = ascii(modifier.spec_name());
    let da = ascii(decimal(a_field as nat));
    let db = ascii(decimal(b_field as nat));
    let nn = name.len() as int;
    let la = da.len() as int;
    lemma_mnemonic_bytes(op);
    lemma_modifier_bytes(modifier);
    lemma_sigil_bytes(a_mode);
    lemma_sigil_bytes(b_mode);
    lemma_decimal_spells(a_field as nat);
    lemma_decimal_spells(b_field as nat);
    assert forall|k: int| 0 <= k < t.len() implies plain(#[trigger] t[k]) by {
        if k < 3 {
            assert(t[k] == mn[k]);
        } else if k == 3 {
        } else if k < 4 + nn {
            assert(t[4 + (k - 4)] == name[k - 4]);
        } else if k < 6 + nn {
        } else if k < 6 + nn + la {
            assert(t[6 + nn + (k - 6 - nn)] == da[k - 6 - nn]);
            assert(spec_is_digit(da[k - 6 - nn]));
        } else if k < 9 + nn + la {
        } else {
            assert(t[9 + nn + la + (k - 9 - nn - la)] == db[k - 9 - nn - la]);
            assert(spec_is_digit(db[k - 9 - nn - la]));
        }
    }
    lemma_one_line(t, 0);
}

/// The head of a text that is laid out as an instruction is read as its
/// opcode and its modifier.
proof fn lemma_laid_out_head(
    t: Seq<u8>,
    op: Opcode,
    modifier: Modifier,
    a_mode: Mode,
    a_field: Field,
    b_mode: Mode,
    b_field: Field,
)
    requires
        laid_out(t, op, modifier, a_mode, a_field, b_mode, b_field),
    ensures
        skip_spaces(t, 0, t.len() as int) == 0,
        skip_letters(t, 0, t.len() as int) == 3,
        spec_word(t, 0, 3) == Word::Op(op),
        skip_letters(t, 4, t.len() as int) == 4 + modifier.spec_name().len(),
        spec_modifier_named(t, 4, 4 + modifier.spec_name().len() as int) == Some(modifier),
{
    let mn = ascii(op.spec_mnemonic());
    let name = ascii(modifier.spec_name());
    let nn = name.len() as int;
    let end = t.len() as int;
    lemma_mnemonic_bytes(op);
    lemma_modifier_bytes(modifier);
    assert(t[0] == mn[0] && t[1] == mn[1] && t[2] == mn[2]);
    assert forall|k: int| 0 <= k < 3 implies spec_is_letter(#[trigger] t[k]) by {
        assert(t[k] == mn[k]);
    }
    lemma_letters_run(t, 0, 3, end);
    assert forall|k: int| 4 <= k < 4 + nn implies spec_is_letter(#[trigger] t[k]) by {
        assert(t[4 + (k - 4)] == name[k - 4]);
    }
    lemma_letters_run(t, 4, 4 + nn, end);
    assert(t[4 + 0int] == name[0]);
    if nn == 2 {
        assert(t[4 + 1int] == name[1]);
    }
}

/// The operands of a text that is laid out as an instruction are read as
/// their modes and fields.
proof fn lemma_laid_out_operands(
    t: Seq<u8>,
    op: Opcode,
    modifier: Modifier,
    a_mode: Mode,
    a_field: Field,
    b_mode: Mode,
    b_field: Field,
    n: int,
)
    requires
        laid_out(t, op, modifier, a_mode, a_field, b_mode, b_field),
        0 < n,
        a_field < n,
        b_field < n,
    ensures
        ({
            let nn = modifier.spec_name().len() as int;
            let la = decimal(a_field as nat).len() as int;
            let end = t.len() as int;
            &&& parse_operand(t, 4 + nn, end, n) == Ok::<
                ((Mode, Field), int),
                (int, ParseErrorKind),
            >(((a_mode, a_field), 6 + nn + la))
            &&& skip_spaces(t, 6 + nn + la, end) == 6 + nn + la
            &&& parse_operand(t, 7 + nn + la, end, n) == Ok::<
                ((Mode, Field), int),
                (int, ParseErrorKind),
            >(((b_mode, b_field), end))
        }),
{
    let da = ascii(decimal(a_field as nat));
    let db = ascii(decimal(b_field as nat));
    let nn = modifier.spec_name().len() as int;
    let la = da.len() as int;
    let lb = db.len() as int;
    let end = t.len() as int;
    lemma_modifier_bytes(modifier);
    lemma_sigil_bytes(a_mode);
    lemma_sigil_bytes(b_mode);
    lemma_decimal_spells(a_field as nat);
    lemma_decimal_spells(b_field as nat);
    assert(skip_spaces(t, 5 + nn, end) == 5 + nn);
    assert(skip_spaces(t, 4 + nn, end) == 5 + nn);
    assert forall|k: int| 0 <= k < la implies #[trigger] t[5 + nn + 1 + k] == da[k] by {
        assert(t[6 + nn + k] == da[k]);
    }
    lemma_operand_read(t, 5 + nn, end, a_mode, a_field, n);
    assert(parse_operand(t, 4 + nn, end, n) == parse_operand(t, 5 + nn, end, n));
    assert(skip_spaces(t, 8 + nn + la, end) == 8 + nn + la);
    assert(skip_spaces(t, 7 + nn + la, end) == 8 + nn + la);
    assert forall|k: int| 0 <= k < lb implies #[trigger] t[8 + nn + la + 1 + k] == db[k] by {
        assert(t[9 + nn + la + k] == db[k]);
    }
    lemma_operand_read(t, 8 + nn + la, end, b_mode, b_field, n);
    assert(parse_operand(t, 7 + nn + la, end, n) == parse_operand(t, 8 + nn + la, end, n));
}

/// What the disassembler writes of an instruction, the assembler reads back
/// as that instruction alone, starting at offset zero: for every well-formed
/// instruction whose fields are residues of the core size.
pub proof fn lemma_text_assembles(insn: Insn, coresize: u32)
    requires
        insn.well_formed(),
        1 <= coresize <= MAX_CORE_SIZE,
        insn.a < coresize,
        insn.b < coresize,
    ensures
        assembled(ascii(insn.text()), coresize) == Ok::<(u32, Seq<Insn>), ParseError>(
            (0u32, seq![insn]),
        ),
{
    let n = coresize as int;
    let op = insn.spec_opcode();
    let modifier = insn.spec_modifier();
    let a_mode = insn.spec_a_mode();
    let b_mode = insn.spec_b_mode();
    let t = ascii(insn.text());
    let end = t.len() as int;
    lemma_text_laid_out(insn);
    lemma_laid_out_plain(t, op, modifier, a_mode, insn.a, b_mode, insn.b);
    lemma_laid_out_head(t, op, modifier, a_mode, insn.a, b_mode, insn.b);
    lemma_laid_out_operands(t, op, modifier, a_mode, insn.a, b_mode, insn.b, n);
    lemma_pack_unpack(insn.in_);
    assert(parse_instruction(t, op, 3, end, n) == Ok::<(Insn, int), (int, ParseErrorKind)>(
        (insn, end),
    ));
    assert(skip_spaces(t, end, end) == end);
    assert(parse_statement(t, 0, end, n) == Ok::<Statement, (int, ParseErrorKind)>(
        Statement::Code(insn, false),
    )) by {
        reveal(parse_statement);
    }
    assert(Seq::<Insn>::empty().push(insn) =~= seq![insn]);
    assert(parse_lines(t, 0, 0, 0, Seq::<Insn>::empty(), n) == Ok::<
        (Field, Seq<Insn>),
        ParseError,
    >((0u16, seq![insn])));
}

/// The text of an instruction holds nothing but ASCII characters.
proof fn lemma_text_is_ascii(insn: Insn)
    ensures
        is_ascii_chars(insn.text()),
{
    reveal_strlit(".");
    reveal_strlit(" ");
    reveal_strlit(", ");
    lemma_mnemonic_bytes(insn.spec_opcode());
    lemma_modifier_bytes(insn.spec_modifier());
    lemma_sigil_bytes(insn.spec_a_mode());
    lemma_sigil_bytes(insn.spec_b_mode());
    lemma_decimal_spells(insn.a as nat);
    lemma_decimal_spells(insn.b as nat);
}

/// Writing and reading are inverse: a string that holds the text of an
/// instruction, as `Insn::to_string` returns it, assembles to that
/// instruction alone, starting at offset zero. This holds of every
/// well-formed instruction whose fields are residues of the core size.
pub proof fn lemma_written_reads_back(source: &str, insn: Insn, coresize: u32)
    requires
        source@ == insn.text(),
        insn.well_formed(),
        1 <= coresize <= MAX_CORE_SIZE,
        insn.a < coresize,
        insn.b < coresize,
    ensures
        assembled(source.spec_bytes(), coresize) == Ok::<(u32, Seq<Insn>), ParseError>(
            (0u32, seq![insn]),
        ),
{
    lemma_text_is_ascii(insn);
    is_ascii_chars_encode_utf8(insn.text());
    assert(source.spec_bytes() =~= ascii(insn.text()));
    lemma_text_assembles(insn, coresize);
}

} // verus!
