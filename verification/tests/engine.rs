use corewar::engine::{step, StepOutcome};
use corewar::memory::Core;
use corewar::redcode::{Insn, Mode, Modifier, Opcode};

const D: Mode = Mode::DIRECT;
const I: Mode = Mode::IMMEDIATE;

fn cell(a: u16, b: u16) -> Insn {
    Insn::new(Opcode::DAT, Modifier::F, D, a, D, b)
}

/// A core of ten cells with `code` from address 0 on.
fn core_with(code: &[Insn]) -> Core {
    let mut core = Core::new(10);
    for (i, insn) in code.iter().enumerate() {
        core.write(i as u32, *insn).unwrap();
    }
    core
}

fn fields(core: &Core, addr: u32) -> (u16, u16) {
    let insn = core.read(addr);
    (insn.a, insn.b)
}

fn run(code: &[Insn]) -> (Core, StepOutcome) {
    let mut core = core_with(code);
    let mut pspace = vec![0u16; 4];
    let outcome = step(&mut core, &mut pspace, 0);
    (core, outcome)
}

#[test]
fn dat_kills_under_every_modifier_and_mode() {
    let modes = [
        Mode::DIRECT,
        Mode::IMMEDIATE,
        Mode::BINDIRECT,
        Mode::BPREDEC,
        Mode::BPOSTINC,
        Mode::AINDIRECT,
        Mode::APREDEC,
        Mode::APOSTINC,
    ];
    for &m in [Modifier::A, Modifier::F, Modifier::I].iter() {
        for &am in modes.iter() {
            for &bm in modes.iter() {
                let (_, outcome) = run(&[Insn::new(Opcode::DAT, m, am, 1, bm, 2)]);
                assert_eq!(outcome, StepOutcome::Die);
            }
        }
    }
}

#[test]
fn nop_goes_to_the_next_cell_round_the_core() {
    let nop = Insn::new(Opcode::NOP, Modifier::F, D, 0, D, 0);
    let mut core = Core::new(10);
    core.write(9, nop).unwrap();
    let mut pspace = vec![0u16; 4];
    assert_eq!(step(&mut core, &mut pspace, 9), StepOutcome::Continue(0));
    assert_eq!(core.read(9), nop);
}

#[test]
fn mov_i_copies_the_whole_instruction() {
    let imp = Insn::new(Opcode::MOV, Modifier::I, D, 0, D, 1);
    let (core, outcome) = run(&[imp]);
    assert_eq!(outcome, StepOutcome::Continue(1));
    assert_eq!(core.read(1), imp);
    assert_eq!(core.read(0), imp);
}

#[test]
fn mov_by_modifier() {
    let src = cell(3, 4);
    let dst = cell(7, 8);
    let expect = [
        (Modifier::A, (3, 8)),
        (Modifier::B, (7, 4)),
        (Modifier::AB, (7, 3)),
        (Modifier::BA, (4, 8)),
        (Modifier::F, (3, 4)),
        (Modifier::X, (4, 3)),
    ];
    for &(m, want) in expect.iter() {
        let (core, outcome) = run(&[Insn::new(Opcode::MOV, m, D, 1, D, 2), src, dst]);
        assert_eq!(outcome, StepOutcome::Continue(1));
        assert_eq!(fields(&core, 2), want);
        // only the fields move: the target keeps its own control word
        assert_eq!(core.read(2).in_, dst.in_);
    }
    let spl = Insn::new(Opcode::SPL, Modifier::X, I, 3, Mode::APREDEC, 4);
    let (core, _) = run(&[Insn::new(Opcode::MOV, Modifier::I, D, 1, D, 2), spl, dst]);
    assert_eq!(core.read(2), spl);
}

#[test]
fn arithmetic_by_modifier() {
    let src = cell(3, 4);
    let dst = cell(7, 8);
    // (modifier, add, sub, mul) on fields modulo 10
    let expect = [
        (Modifier::A, (0, 8), (4, 8), (1, 8)),
        (Modifier::B, (7, 2), (7, 4), (7, 2)),
        (Modifier::AB, (7, 1), (7, 5), (7, 4)),
        (Modifier::BA, (1, 8), (3, 8), (8, 8)),
        (Modifier::F, (0, 2), (4, 4), (1, 2)),
        (Modifier::I, (0, 2), (4, 4), (1, 2)),
        (Modifier::X, (1, 1), (3, 5), (8, 4)),
    ];
    for &(m, add, sub, mul) in expect.iter() {
        let (core, outcome) = run(&[Insn::new(Opcode::ADD, m, D, 1, D, 2), src, dst]);
        assert_eq!(outcome, StepOutcome::Continue(1));
        assert_eq!(fields(&core, 2), add);
        let (core, _) = run(&[Insn::new(Opcode::SUB, m, D, 1, D, 2), src, dst]);
        assert_eq!(fields(&core, 2), sub);
        let (core, _) = run(&[Insn::new(Opcode::MUL, m, D, 1, D, 2), src, dst]);
        assert_eq!(fields(&core, 2), mul);
    }
}

#[test]
fn subtraction_wraps_below_zero() {
    let (core, _) = run(&[Insn::new(Opcode::SUB, Modifier::AB, I, 1, D, 1), cell(0, 0)]);
    assert_eq!(fields(&core, 1), (0, 9));
}

#[test]
fn multiplication_in_the_largest_core() {
    let mut core = Core::new(65535);
    core.write(0, Insn::new(Opcode::MUL, Modifier::F, D, 1, D, 2)).unwrap();
    core.write(1, cell(65534, 65533)).unwrap();
    core.write(2, cell(65534, 65532)).unwrap();
    let mut pspace = vec![0u16; 1];
    assert_eq!(step(&mut core, &mut pspace, 0), StepOutcome::Continue(1));
    // (-1)(-1) = 1 and (-2)(-3) = 6 modulo 65535
    assert_eq!(fields(&core, 2), (1, 6));
}

#[test]
fn division_and_remainder() {
    let (core, outcome) = run(&[Insn::new(Opcode::DIV, Modifier::F, D, 1, D, 2), cell(2, 3), cell(9, 8)]);
    assert_eq!(outcome, StepOutcome::Continue(1));
    assert_eq!(fields(&core, 2), (4, 2));
    let (core, outcome) = run(&[Insn::new(Opcode::MOD, Modifier::X, D, 1, D, 2), cell(2, 4), cell(9, 8)]);
    assert_eq!(outcome, StepOutcome::Continue(1));
    // a := 9 mod 4, b := 8 mod 2
    assert_eq!(fields(&core, 2), (1, 0));
}

#[test]
fn division_by_zero_kills_the_process() {
    let (core, outcome) = run(&[Insn::new(Opcode::DIV, Modifier::AB, I, 0, D, 1), cell(5, 6)]);
    assert_eq!(outcome, StepOutcome::Die);
    assert_eq!(fields(&core, 1), (5, 6));
    let (core, outcome) = run(&[Insn::new(Opcode::MOD, Modifier::A, D, 1, D, 2), cell(0, 3), cell(5, 6)]);
    assert_eq!(outcome, StepOutcome::Die);
    assert_eq!(fields(&core, 2), (5, 6));
    // with two fields the half that can be divided still is
    let (core, outcome) = run(&[Insn::new(Opcode::DIV, Modifier::F, D, 1, D, 2), cell(0, 2), cell(9, 8)]);
    assert_eq!(outcome, StepOutcome::Die);
    assert_eq!(fields(&core, 2), (9, 4));
    let (core, outcome) = run(&[Insn::new(Opcode::MOD, Modifier::F, D, 1, D, 2), cell(4, 0), cell(9, 8)]);
    assert_eq!(outcome, StepOutcome::Die);
    assert_eq!(fields(&core, 2), (1, 8));
}

#[test]
fn jumps() {
    let (_, outcome) = run(&[Insn::new(Opcode::JMP, Modifier::B, D, 7, D, 0)]);
    assert_eq!(outcome, StepOutcome::Continue(7));
    let (_, outcome) = run(&[Insn::new(Opcode::JMP, Modifier::B, D, 9999 % 10, D, 0)]);
    assert_eq!(outcome, StepOutcome::Continue(9));

    // jmz: jump when the tested fields are all zero
    let tests = [
        (Modifier::A, cell(0, 5), true),
        (Modifier::BA, cell(0, 5), true),
        (Modifier::B, cell(0, 5), false),
        (Modifier::AB, cell(5, 0), true),
        (Modifier::F, cell(0, 5), false),
        (Modifier::X, cell(0, 0), true),
        (Modifier::I, cell(5, 0), false),
    ];
    for &(m, target, zero) in tests.iter() {
        let (_, outcome) = run(&[Insn::new(Opcode::JMZ, m, D, 5, D, 1), target]);
        assert_eq!(outcome, StepOutcome::Continue(if zero { 5 } else { 1 }));
        let (_, outcome) = run(&[Insn::new(Opcode::JMN, m, D, 5, D, 1), target]);
        assert_eq!(outcome, StepOutcome::Continue(if zero { 1 } else { 5 }));
    }
}

#[test]
fn djn_decrements_then_tests() {
    let (core, outcome) = run(&[Insn::new(Opcode::DJN, Modifier::B, D, 5, D, 1), cell(3, 1)]);
    assert_eq!(outcome, StepOutcome::Continue(1));
    assert_eq!(fields(&core, 1), (3, 0));
    let (core, outcome) = run(&[Insn::new(Opcode::DJN, Modifier::B, D, 5, D, 1), cell(3, 0)]);
    assert_eq!(outcome, StepOutcome::Continue(5));
    assert_eq!(fields(&core, 1), (3, 9));
    let (core, outcome) = run(&[Insn::new(Opcode::DJN, Modifier::F, D, 5, D, 1), cell(1, 1)]);
    assert_eq!(outcome, StepOutcome::Continue(1));
    assert_eq!(fields(&core, 1), (0, 0));
    let (core, outcome) = run(&[Insn::new(Opcode::DJN, Modifier::F, D, 5, D, 1), cell(1, 2)]);
    assert_eq!(outcome, StepOutcome::Continue(5));
    assert_eq!(fields(&core, 1), (0, 1));
    let (core, outcome) = run(&[Insn::new(Opcode::DJN, Modifier::A, D, 5, D, 1), cell(1, 2)]);
    assert_eq!(outcome, StepOutcome::Continue(1));
    assert_eq!(fields(&core, 1), (0, 2));
}

#[test]
fn comparisons_skip() {
    let src = cell(3, 4);
    let seq = |m, dst| run(&[Insn::new(Opcode::SEQ, m, D, 1, D, 2), src, dst]).1;
    let sne = |m, dst| run(&[Insn::new(Opcode::SNE, m, D, 1, D, 2), src, dst]).1;
    let slt = |m, dst| run(&[Insn::new(Opcode::SLT, m, D, 1, D, 2), src, dst]).1;
    let skip = StepOutcome::Continue(2);
    let next = StepOutcome::Continue(1);

    assert_eq!(seq(Modifier::A, cell(3, 9)), skip);
    assert_eq!(seq(Modifier::B, cell(3, 9)), next);
    assert_eq!(seq(Modifier::AB, cell(9, 3)), skip);
    assert_eq!(seq(Modifier::BA, cell(4, 9)), skip);
    assert_eq!(seq(Modifier::F, cell(3, 4)), skip);
    assert_eq!(seq(Modifier::F, cell(3, 5)), next);
    assert_eq!(seq(Modifier::X, cell(4, 3)), skip);
    assert_eq!(seq(Modifier::I, cell(3, 4)), skip);
    // equal fields, another control word
    let other = Insn::new(Opcode::NOP, Modifier::F, D, 3, D, 4);
    assert_eq!(seq(Modifier::F, other), skip);
    assert_eq!(seq(Modifier::I, other), next);

    assert_eq!(sne(Modifier::A, cell(3, 9)), next);
    assert_eq!(sne(Modifier::B, cell(3, 9)), skip);
    assert_eq!(sne(Modifier::I, other), skip);
    assert_eq!(sne(Modifier::I, cell(3, 4)), next);

    assert_eq!(slt(Modifier::A, cell(4, 0)), skip);
    assert_eq!(slt(Modifier::A, cell(3, 9)), next);
    assert_eq!(slt(Modifier::B, cell(0, 5)), skip);
    assert_eq!(slt(Modifier::AB, cell(0, 4)), skip);
    assert_eq!(slt(Modifier::AB, cell(9, 3)), next);
    assert_eq!(slt(Modifier::BA, cell(5, 0)), skip);
    assert_eq!(slt(Modifier::F, cell(4, 5)), skip);
    assert_eq!(slt(Modifier::F, cell(4, 4)), next);
    assert_eq!(slt(Modifier::I, cell(4, 5)), skip);
    assert_eq!(slt(Modifier::X, cell(5, 4)), skip);
    assert_eq!(slt(Modifier::X, cell(4, 4)), next);
}

#[test]
fn skip_wraps_round_the_core() {
    let mut core = Core::new(10);
    core.write(9, Insn::new(Opcode::SEQ, Modifier::I, D, 0, D, 0)).unwrap();
    let mut pspace = vec![0u16; 4];
    assert_eq!(step(&mut core, &mut pspace, 9), StepOutcome::Continue(1));
}

#[test]
fn spl_asks_for_a_second_process() {
    let (_, outcome) = run(&[Insn::new(Opcode::SPL, Modifier::B, D, 4, D, 0)]);
    assert_eq!(outcome, StepOutcome::Split(1, 4));
}

#[test]
fn immediate_operands_are_the_instruction_itself() {
    let (core, _) = run(&[Insn::new(Opcode::MOV, Modifier::AB, I, 7, D, 1), cell(2, 3)]);
    assert_eq!(fields(&core, 1), (2, 7));
    // an immediate target is the executing cell
    let (core, _) = run(&[Insn::new(Opcode::MOV, Modifier::AB, I, 7, I, 1)]);
    assert_eq!(fields(&core, 0), (7, 7));
    let (_, outcome) = run(&[Insn::new(Opcode::JMP, Modifier::B, I, 7, D, 0)]);
    assert_eq!(outcome, StepOutcome::Continue(0));
}

#[test]
fn indirect_operands_go_through_a_cell() {
    // b-indirect: 1 + cell1.b = 4; a-indirect: 1 + cell1.a = 3
    let code = [Insn::new(Opcode::JMP, Modifier::B, Mode::BINDIRECT, 1, D, 0), cell(2, 3)];
    assert_eq!(run(&code).1, StepOutcome::Continue(4));
    let code = [Insn::new(Opcode::JMP, Modifier::B, Mode::AINDIRECT, 1, D, 0), cell(2, 3)];
    assert_eq!(run(&code).1, StepOutcome::Continue(3));
    // round the core: 1 + 9 = 0
    let code = [Insn::new(Opcode::JMP, Modifier::B, Mode::BINDIRECT, 1, D, 0), cell(2, 9)];
    assert_eq!(run(&code).1, StepOutcome::Continue(0));
}

#[test]
fn predecrement_of_zero_wraps_to_the_last_residue() {
    let code = [Insn::new(Opcode::JMP, Modifier::B, Mode::BPREDEC, 1, D, 0), cell(0, 0)];
    let (core, outcome) = run(&code);
    assert_eq!(fields(&core, 1), (0, 9));
    assert_eq!(outcome, StepOutcome::Continue(0));
    let code = [Insn::new(Opcode::JMP, Modifier::B, Mode::APREDEC, 1, D, 0), cell(0, 5)];
    let (core, outcome) = run(&code);
    assert_eq!(fields(&core, 1), (9, 5));
    assert_eq!(outcome, StepOutcome::Continue(0));
    let code = [Insn::new(Opcode::JMP, Modifier::B, Mode::BPREDEC, 1, D, 0), cell(0, 4)];
    let (core, outcome) = run(&code);
    assert_eq!(fields(&core, 1), (0, 3));
    assert_eq!(outcome, StepOutcome::Continue(4));
}

#[test]
fn postincrement_is_committed_after_the_opcode() {
    // jmp }1: the jump goes through the old value, then the field grows
    let code = [Insn::new(Opcode::JMP, Modifier::B, Mode::APOSTINC, 1, D, 0), cell(3, 0)];
    let (core, outcome) = run(&code);
    assert_eq!(outcome, StepOutcome::Continue(4));
    assert_eq!(fields(&core, 1), (4, 0));
    // 9 + 1 wraps to 0
    let code = [Insn::new(Opcode::JMP, Modifier::B, Mode::BPOSTINC, 1, D, 0), cell(3, 9)];
    let (core, _) = run(&code);
    assert_eq!(fields(&core, 1), (3, 0));
    // mov.i $2, >1 overwrites cell 1 and the increment then counts on what was written
    let code = [Insn::new(Opcode::MOV, Modifier::I, D, 2, Mode::BPOSTINC, 1), cell(0, 0), cell(3, 4)];
    let (core, _) = run(&code);
    assert_eq!(fields(&core, 1), (3, 5));
    // both operands post-increment the same field: it grows twice
    let code = [Insn::new(Opcode::NOP, Modifier::F, Mode::BPOSTINC, 1, Mode::BPOSTINC, 1), cell(0, 0)];
    let (core, _) = run(&code);
    assert_eq!(fields(&core, 1), (0, 2));
}

#[test]
fn a_predecrement_is_seen_by_the_b_operand() {
    // add.ab <1, @1: the a-operand takes cell1.b from 5 to 4, and the
    // b-operand goes through that 4 as well: both name cell 5
    let code = [
        Insn::new(Opcode::ADD, Modifier::AB, Mode::BPREDEC, 1, Mode::BINDIRECT, 1),
        cell(0, 5),
        cell(0, 0),
        cell(0, 0),
        cell(0, 0),
        cell(2, 3),
        cell(0, 0),
    ];
    let (core, _) = run(&code);
    assert_eq!(fields(&core, 1), (0, 4));
    assert_eq!(fields(&core, 5), (2, 5));
    assert_eq!(fields(&core, 6), (0, 0));
}

#[test]
fn the_source_is_read_before_the_b_operand_is_resolved() {
    // mov.b $1, <1: the source is cell 1 with b = 5; the b-operand then takes
    // that b to 4 and names cell 5, which gets the 5 that was read before
    let code = [
        Insn::new(Opcode::MOV, Modifier::B, D, 1, Mode::BPREDEC, 1),
        cell(0, 5),
    ];
    let (core, _) = run(&code);
    assert_eq!(fields(&core, 1), (0, 4));
    assert_eq!(fields(&core, 5), (0, 5));
}

#[test]
fn private_storage() {
    let mut core = core_with(&[
        Insn::new(Opcode::STP, Modifier::AB, I, 7, I, 2),
        Insn::new(Opcode::LDP, Modifier::AB, I, 2, D, 4),
        Insn::new(Opcode::STP, Modifier::B, D, 1, D, 2),
        Insn::new(Opcode::LDP, Modifier::BA, D, 0, D, 2),
        cell(1, 3),
        cell(4, 9),
    ]);
    let mut pspace = vec![0u16; 4];
    // stp.ab #7, #2: pspace[2] := 7
    assert_eq!(step(&mut core, &mut pspace, 0), StepOutcome::Continue(1));
    assert_eq!(pspace, vec![0, 0, 7, 0]);
    // ldp.ab #2, $4: cell5.b := pspace[2]
    assert_eq!(step(&mut core, &mut pspace, 1), StepOutcome::Continue(2));
    assert_eq!(fields(&core, 5), (4, 7));
    // stp.b $1, $2 at 2: source cell 3 (b = 2), target cell 4 (b = 3): pspace[3] := 2
    assert_eq!(step(&mut core, &mut pspace, 2), StepOutcome::Continue(3));
    assert_eq!(pspace, vec![0, 0, 7, 2]);
    // ldp.ba $0, $2 at 3: source is cell 3 itself (b = 2), target cell 5: a := pspace[2]
    assert_eq!(step(&mut core, &mut pspace, 3), StepOutcome::Continue(4));
    assert_eq!(fields(&core, 5), (7, 7));
    // places are taken modulo the size of the storage: 9 mod 4 = 1
    core.write(6, Insn::new(Opcode::STP, Modifier::F, D, 9, D, 9)).unwrap();
    core.write(5, cell(6, 9)).unwrap();
    assert_eq!(step(&mut core, &mut pspace, 6), StepOutcome::Continue(7));
    assert_eq!(pspace, vec![0, 9, 7, 2]);
}

#[test]
fn read_and_write_wrap_round_the_core() {
    let mut core = Core::new(10);
    assert_eq!(core.size(), 10);
    let insn = Insn::new(Opcode::ADD, Modifier::X, I, 3, D, 4);
    core.write(13, insn).unwrap();
    assert_eq!(core.read(3), insn);
    assert_eq!(core.read(13), insn);
    assert_eq!(core.read(10 * 1000 + 3), insn);
    for k in 0..10u32 {
        assert_eq!(core.read(k), core.read(k + 10));
    }
    // fields are held modulo the core size
    core.write(0, Insn::new(Opcode::ADD, Modifier::X, I, 23, D, 10)).unwrap();
    assert_eq!(fields(&core, 0), (3, 0));
    core.clear();
    for k in 0..10u32 {
        assert_eq!(core.read(k), Insn::default());
    }
}

#[test]
fn write_refuses_a_malformed_instruction() {
    let mut core = Core::new(10);
    let bad = Insn { a: 1, b: 2, in_: 0x7fff };
    assert_eq!(core.write(3, bad), Err(corewar::error::Error::MalformedInstruction));
    assert_eq!(core.read(3), Insn::default());
}
