use corewar::assembler::{assemble, ParseError, ParseErrorKind};
use corewar::mars::Simulator;
use corewar::redcode::{assemble_warrior, Insn, Mode, Modifier, Opcode};

fn imp() -> Insn {
    Insn::new(Opcode::MOV, Modifier::I, Mode::DIRECT, 0, Mode::DIRECT, 1)
}

#[test]
fn assembles_the_imp() {
    assert_eq!(assemble_warrior("MOV.I $0, $1", 8000), Ok((0, vec![imp()])));
    assert_eq!(assemble_warrior("mov.i $0,$1\n", 8000), Ok((0, vec![imp()])));
    assert_eq!(assemble_warrior("  Mov.I\t$ 0 ,\t$ 1 \r\n", 8000), Ok((0, vec![imp()])));
    assert_eq!(assemble(b"MOV.I $0, $1", 8000), Ok((0, vec![imp()])));
}

#[test]
fn assembles_a_load_file() {
    let text = "\
;redcode
;name Dwarf
;assert CORESIZE == 8000
       ORG      START
       ADD.AB #     4, $     3
START  MOV.I  $     2, @     2     ; throw the bomb
       JMP.B  $    -2, $     0
       DAT.F  #     0, #     0
       END
this line is never read
";
    let expected = vec![
        Insn::new(Opcode::ADD, Modifier::AB, Mode::IMMEDIATE, 4, Mode::DIRECT, 3),
        Insn::new(Opcode::MOV, Modifier::I, Mode::DIRECT, 2, Mode::BINDIRECT, 2),
        Insn::new(Opcode::JMP, Modifier::B, Mode::DIRECT, 7998, Mode::DIRECT, 0),
        Insn::new(Opcode::DAT, Modifier::F, Mode::IMMEDIATE, 0, Mode::IMMEDIATE, 0),
    ];
    assert_eq!(assemble_warrior(text, 8000), Ok((1, expected)));
}

#[test]
fn empty_text_is_an_empty_warrior() {
    assert_eq!(assemble_warrior("", 8000), Ok((0, vec![])));
    assert_eq!(assemble_warrior("\n\n  \n; nothing\n", 8000), Ok((0, vec![])));
}

#[test]
fn numbers_are_taken_modulo_the_core_size() {
    let (_, code) = assemble_warrior("DAT.F $8001, $-1", 8000).unwrap();
    assert_eq!((code[0].a, code[0].b), (1, 7999));
    let (_, code) = assemble_warrior("DAT.F $+8000, $-8000", 8000).unwrap();
    assert_eq!((code[0].a, code[0].b), (0, 0));
    let (_, code) =
        assemble_warrior("DAT.F $12345678901234567890, $-12345678901234567890", 8000).unwrap();
    assert_eq!((code[0].a, code[0].b), (7890, 110));
    let (_, code) = assemble_warrior("DAT.F $65534, $-65534", 65535).unwrap();
    assert_eq!((code[0].a, code[0].b), (65534, 1));
    let (_, code) = assemble_warrior("DAT.F $5, $-5", 1).unwrap();
    assert_eq!((code[0].a, code[0].b), (0, 0));
}

#[test]
fn origin_and_label_set_the_start() {
    assert_eq!(assemble_warrior("ORG 2\nNOP.F $0,$0", 8000).unwrap().0, 2);
    assert_eq!(assemble_warrior("ORG -1\nNOP.F $0,$0", 8000).unwrap().0, 7999);
    assert_eq!(assemble_warrior("NOP.F $0,$0\nEND 1", 8000).unwrap().0, 1);
    assert_eq!(assemble_warrior("NOP.F $0,$0\nEND", 8000).unwrap().0, 0);
    assert_eq!(assemble_warrior("ORG 3\nNOP.F $0,$0\nEND START", 8000).unwrap().0, 3);
    assert_eq!(
        assemble_warrior("NOP.F $0,$0\nNOP.F $0,$0\nstart NOP.F $0,$0", 8000).unwrap().0,
        2
    );
    // the last one counts
    assert_eq!(
        assemble_warrior("ORG 5\nNOP.F $0,$0\nSTART NOP.F $0,$0\n", 8000).unwrap().0,
        1
    );
    assert_eq!(
        assemble_warrior("NOP.F $0,$0\nSTART NOP.F $0,$0\nORG 5\n", 8000).unwrap().0,
        5
    );
    assert_eq!(
        assemble_warrior("START NOP.F $0,$0\nSTART NOP.F $0,$0\nORG START\n", 8000).unwrap().0,
        1
    );
}

#[test]
fn every_mode_and_modifier_is_read() {
    let text = "spl.a #1, $2\nsne.b @3, <4\nslt.ab >5, *6\ndjn.ba {7, }8\nldp.f $1, $1\nstp.x $1, $1\nseq.i $1, $1";
    let (_, code) = assemble_warrior(text, 8000).unwrap();
    let texts: Vec<String> = code.iter().map(|i| i.to_string()).collect();
    assert_eq!(
        texts,
        vec![
            "spl.a #1, $2",
            "sne.b @3, <4",
            "slt.ab >5, *6",
            "djn.ba {7, }8",
            "ldp.f $1, $1",
            "stp.x $1, $1",
            "seq.i $1, $1"
        ]
    );
}

#[test]
fn what_is_written_out_assembles_back() {
    let ops = [
        Opcode::DAT, Opcode::SPL, Opcode::MOV, Opcode::DJN, Opcode::ADD, Opcode::JMZ,
        Opcode::SUB, Opcode::SEQ, Opcode::SNE, Opcode::SLT, Opcode::JMN, Opcode::JMP,
        Opcode::NOP, Opcode::MUL, Opcode::MOD, Opcode::DIV, Opcode::LDP, Opcode::STP,
    ];
    let modifiers = [
        Modifier::A, Modifier::B, Modifier::AB, Modifier::BA, Modifier::F, Modifier::X,
        Modifier::I,
    ];
    let modes = [
        Mode::DIRECT, Mode::IMMEDIATE, Mode::BINDIRECT, Mode::BPREDEC, Mode::BPOSTINC,
        Mode::AINDIRECT, Mode::APREDEC, Mode::APOSTINC,
    ];
    for &op in ops.iter() {
        for &m in modifiers.iter() {
            for (k, &am) in modes.iter().enumerate() {
                let bm = modes[(k * 3 + 1) % 8];
                let insn = Insn::new(op, m, am, (k as u16) * 1000 + 7, bm, 7999 - k as u16);
                let text = insn.to_string();
                assert_eq!(assemble_warrior(&text, 8000), Ok((0, vec![insn])));
            }
        }
    }
}

fn fault(line: usize, column: usize, kind: ParseErrorKind) -> Result<(u32, Vec<Insn>), ParseError> {
    Err(ParseError { line, column, kind })
}

#[test]
fn faults_name_their_place() {
    assert_eq!(
        assemble_warrior("MOV.I $0, $1\nFOO.I $0, $1", 8000),
        fault(1, 0, ParseErrorKind::UnknownOpcode)
    );
    assert_eq!(
        assemble_warrior("  MOVE.I $0, $1", 8000),
        fault(0, 2, ParseErrorKind::UnknownOpcode)
    );
    assert_eq!(assemble_warrior("$0", 8000), fault(0, 0, ParseErrorKind::UnknownOpcode));
    assert_eq!(assemble_warrior("START", 8000), fault(0, 5, ParseErrorKind::UnknownOpcode));
    assert_eq!(
        assemble_warrior("START ORG 1", 8000),
        fault(0, 6, ParseErrorKind::UnknownOpcode)
    );
    assert_eq!(assemble_warrior("MOV $0, $1", 8000), fault(0, 3, ParseErrorKind::ExpectedDot));
    assert_eq!(assemble_warrior("MOV", 8000), fault(0, 3, ParseErrorKind::ExpectedDot));
    assert_eq!(
        assemble_warrior("MOV.Q $0, $1", 8000),
        fault(0, 4, ParseErrorKind::UnknownModifier)
    );
    assert_eq!(
        assemble_warrior("MOV. $0, $1", 8000),
        fault(0, 4, ParseErrorKind::UnknownModifier)
    );
    assert_eq!(
        assemble_warrior("MOV.ABA $0, $1", 8000),
        fault(0, 4, ParseErrorKind::UnknownModifier)
    );
    assert_eq!(assemble_warrior("MOV.I 0, $1", 8000), fault(0, 6, ParseErrorKind::UnknownMode));
    assert_eq!(assemble_warrior("MOV.I", 8000), fault(0, 5, ParseErrorKind::UnknownMode));
    assert_eq!(
        assemble_warrior("MOV.I $0, %1", 8000),
        fault(0, 10, ParseErrorKind::UnknownMode)
    );
    assert_eq!(
        assemble_warrior("MOV.I $, $1", 8000),
        fault(0, 7, ParseErrorKind::ExpectedNumber)
    );
    assert_eq!(
        assemble_warrior("MOV.I $-, $1", 8000),
        fault(0, 8, ParseErrorKind::ExpectedNumber)
    );
    assert_eq!(
        assemble_warrior("MOV.I $0 $1", 8000),
        fault(0, 9, ParseErrorKind::ExpectedComma)
    );
    assert_eq!(assemble_warrior("MOV.I $0", 8000), fault(0, 8, ParseErrorKind::ExpectedComma));
    assert_eq!(
        assemble_warrior("MOV.I $0, $1 x", 8000),
        fault(0, 13, ParseErrorKind::TrailingText)
    );
    assert_eq!(
        assemble_warrior("\n\nORG 1 2", 8000),
        fault(2, 6, ParseErrorKind::TrailingText)
    );
    assert_eq!(assemble_warrior("ORG", 8000), fault(0, 3, ParseErrorKind::ExpectedNumber));
    assert_eq!(assemble_warrior("ORG x", 8000), fault(0, 4, ParseErrorKind::ExpectedNumber));
    assert_eq!(assemble_warrior("END x", 8000), fault(0, 4, ParseErrorKind::ExpectedNumber));
}

#[test]
fn a_comment_hides_the_rest_of_its_line() {
    assert_eq!(
        assemble_warrior("MOV.I $0, $1 ; , $2 trailing", 8000),
        Ok((0, vec![imp()]))
    );
    assert_eq!(
        assemble_warrior("MOV.I $0 ; , $1", 8000),
        fault(0, 9, ParseErrorKind::ExpectedComma)
    );
}

#[test]
fn core_size_must_be_in_range() {
    assert_eq!(assemble_warrior("MOV.I $0, $1", 0), fault(0, 0, ParseErrorKind::CoreSize));
    assert_eq!(assemble_warrior("MOV.I $0, $1", 65536), fault(0, 0, ParseErrorKind::CoreSize));
    assert!(assemble_warrior("MOV.I $0, $1", 65535).is_ok());
    assert!(assemble_warrior("MOV.I $0, $1", 1).is_ok());
}

#[test]
fn assembled_warrior_fights() {
    let (start_a, dwarf) = assemble_warrior(
        "ADD.AB #4, $3\nMOV.I $2, @2\nJMP.B $-2, $0\nDAT.F #0, #0\n",
        8000,
    )
    .unwrap();
    let (start_b, sitting_duck) = assemble_warrior("ORG 1\nDAT.F $0, $0\nJMP.B $0, $0\n", 8000).unwrap();
    assert_eq!((start_a, start_b), (0, 1));
    // the dwarf bombs cells 7, 11, 15, ...; the duck loops at 4003, which
    // the thousandth bomb hits
    let mut sim = Simulator::new(2, 8000, 8000, 80_000, 500);
    sim.load_warrior(0, &dwarf).unwrap();
    sim.load_warrior(4002, &sitting_duck).unwrap();
    let deaths = sim.simulate(vec![start_a as u16, (4002 + start_b) as u16]);
    assert_eq!(deaths, vec![1]);

    // one cell further the duck is never hit
    sim.load_warrior(0, &dwarf).unwrap();
    sim.load_warrior(4003, &sitting_duck).unwrap();
    let deaths = sim.simulate(vec![start_a as u16, (4003 + start_b) as u16]);
    assert_eq!(deaths, Vec::<u32>::new());
}
