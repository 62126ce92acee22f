use corewar::engine::StepOutcome;
use corewar::error::Error;
use corewar::mars::Simulator;
use corewar::redcode::{Insn, Mode, Modifier, Opcode};

fn dat() -> Insn {
    Insn::new(Opcode::DAT, Modifier::F, Mode::DIRECT, 0, Mode::DIRECT, 0)
}

fn jmp_self() -> Insn {
    Insn::new(Opcode::JMP, Modifier::A, Mode::DIRECT, 0, Mode::DIRECT, 0)
}

#[test]
fn dat_against_loop_kills_only_the_dat() {
    let mut sim = Simulator::new(2, 8000, 8000, 1000, 500);
    sim.load_warrior(0, &[dat()]).unwrap();
    sim.load_warrior(4000, &[jmp_self()]).unwrap();
    let deaths = sim.simulate(vec![0, 4000]);
    assert_eq!(deaths, vec![0]);
}

#[test]
fn simulate_without_positions_starts_at_load_positions() {
    let mut sim = Simulator::new(2, 8000, 8000, 1000, 500);
    sim.load_warrior(0, &[jmp_self()]).unwrap();
    sim.load_warrior(4000, &[dat()]).unwrap();
    let deaths = sim.simulate(vec![]);
    assert_eq!(deaths, vec![1]);
}

#[test]
fn simulate_resets_the_round() {
    let mut sim = Simulator::new(2, 8000, 8000, 10, 500);
    sim.load_warrior(0, &[jmp_self()]).unwrap();
    sim.load_warrior(4000, &[jmp_self()]).unwrap();
    let deaths = sim.simulate(vec![0, 4000]);
    assert_eq!(deaths, Vec::<u32>::new());
    assert_eq!(sim.process_count(0), 0);
    assert_eq!(sim.process_count(1), 0);
    assert_eq!(sim.read(0), Insn { a: 0, b: 0, in_: 0 });
    assert_eq!(sim.read(4000), Insn { a: 0, b: 0, in_: 0 });
    // nothing is loaded any more: the next round has no one to run
    assert_eq!(sim.simulate(vec![]), Vec::<u32>::new());
}

#[test]
fn two_loops_survive_the_cycle_limit() {
    let mut sim = Simulator::new(2, 8000, 8000, 1000, 500);
    sim.load_warrior(0, &[jmp_self()]).unwrap();
    sim.load_warrior(4000, &[jmp_self()]).unwrap();
    assert_eq!(sim.run_cycles(), Vec::<u32>::new());
    assert_eq!(sim.alive_count(), 2);
    assert_eq!(sim.process_count(0), 1);
    assert_eq!(sim.process_count(1), 1);
}

#[test]
fn single_dat_warrior_dies_on_first_step() {
    let mut sim = Simulator::new(1, 8000, 8000, 1000, 500);
    sim.load_warrior(17, &[dat()]).unwrap();
    assert_eq!(sim.process_count(0), 1);
    assert_eq!(sim.step_warrior(0), Some(StepOutcome::Die));
    assert_eq!(sim.process_count(0), 0);
    assert_eq!(sim.step_warrior(0), None);
}

#[test]
fn single_dat_warrior_is_eliminated_by_the_round() {
    let mut sim = Simulator::new(1, 8000, 8000, 1000, 500);
    sim.load_warrior(17, &[dat()]).unwrap();
    assert_eq!(sim.simulate(vec![17]), vec![0]);
}

#[test]
fn lone_survivor_is_never_listed() {
    // three warriors: two die in the first cycle, the round stops at once
    let mut sim = Simulator::new(3, 8000, 8000, 1000, 500);
    sim.load_warrior(0, &[dat()]).unwrap();
    sim.load_warrior(100, &[dat()]).unwrap();
    sim.load_warrior(200, &[dat()]).unwrap();
    let deaths = sim.run_cycles();
    assert_eq!(deaths, vec![0, 1]);
    assert_eq!(sim.alive_count(), 1);
    assert_eq!(sim.process_count(2), 1);
}

#[test]
fn death_order_is_elimination_order() {
    // warrior 0 runs two instructions before its dat, warrior 1 one, warrior 2 loops
    let nop = Insn::new(Opcode::NOP, Modifier::F, Mode::DIRECT, 0, Mode::DIRECT, 0);
    let mut sim = Simulator::new(3, 8000, 8000, 1000, 500);
    sim.load_warrior(0, &[nop, nop, dat()]).unwrap();
    sim.load_warrior(100, &[nop, dat()]).unwrap();
    sim.load_warrior(200, &[jmp_self()]).unwrap();
    assert_eq!(sim.simulate(vec![0, 100, 200]), vec![1, 0]);
}

#[test]
fn spl_at_cap_of_one_spawns_nothing() {
    let spl = Insn::new(Opcode::SPL, Modifier::B, Mode::DIRECT, 0, Mode::DIRECT, 0);
    let mut sim = Simulator::new(1, 8000, 1, 1000, 500);
    sim.load_warrior(0, &[spl, jmp_self()]).unwrap();
    assert_eq!(sim.step_warrior(0), Some(StepOutcome::Split(1, 0)));
    assert_eq!(sim.process_count(0), 1);
    assert_eq!(sim.run_cycles(), Vec::<u32>::new());
    assert_eq!(sim.process_count(0), 1);
}

#[test]
fn spl_below_cap_spawns_and_stops_at_cap() {
    // spl $0 keeps splitting onto itself: the count climbs to the cap and stays
    let spl = Insn::new(Opcode::SPL, Modifier::B, Mode::DIRECT, 0, Mode::DIRECT, 0);
    let mut sim = Simulator::new(1, 8000, 3, 50, 500);
    sim.load_warrior(0, &[spl, jmp_self()]).unwrap();
    sim.step_warrior(0);
    assert_eq!(sim.process_count(0), 2);
    sim.step_warrior(0);
    assert_eq!(sim.process_count(0), 2);
    sim.step_warrior(0);
    assert_eq!(sim.process_count(0), 3);
    for _ in 0..40 {
        sim.step_warrior(0);
        assert!(sim.process_count(0) <= 3);
    }
    assert_eq!(sim.process_count(0), 3);
}

#[test]
fn pspace_survives_round_reset_but_not_battle_reset() {
    // stp.ab #42, #7 stores 42 at private cell 7; ldp.ab #7, $1 loads it into the next cell
    let stp = Insn::new(Opcode::STP, Modifier::AB, Mode::IMMEDIATE, 42, Mode::IMMEDIATE, 7);
    let ldp = Insn::new(Opcode::LDP, Modifier::AB, Mode::IMMEDIATE, 7, Mode::DIRECT, 1);
    let mut sim = Simulator::new(1, 8000, 8000, 1, 500);
    sim.load_warrior(0, &[stp, jmp_self()]).unwrap();
    assert_eq!(sim.step_warrior(0), Some(StepOutcome::Continue(1)));
    assert_eq!(sim.pspace_read(0, 7), 42);

    sim.reset_round();
    assert_eq!(sim.read(0), Insn { a: 0, b: 0, in_: 0 });
    assert_eq!(sim.pspace_read(0, 7), 42);
    sim.load_warrior(10, &[ldp, dat()]).unwrap();
    assert_eq!(sim.step_warrior(0), Some(StepOutcome::Continue(11)));
    assert_eq!(sim.read(11).b, 42);

    // a whole simulated round keeps it too
    sim.load_warrior(20, &[jmp_self()]).unwrap();
    sim.simulate(vec![20]);
    assert_eq!(sim.pspace_read(0, 7), 42);

    sim.reset_battle();
    assert_eq!(sim.pspace_read(0, 7), 0);
    sim.load_warrior(10, &[ldp, dat()]).unwrap();
    sim.step_warrior(0);
    assert_eq!(sim.read(11).b, 0);
}

#[test]
fn sizes_beyond_the_limits_are_refused() {
    assert!(matches!(Simulator::try_new(2, 0, 10, 10, 10), Err(Error::AllocationFailed)));
    assert!(matches!(Simulator::try_new(2, 65536, 10, 10, 10), Err(Error::AllocationFailed)));
    assert!(matches!(Simulator::try_new(2, 8000, 0, 10, 10), Err(Error::AllocationFailed)));
    assert!(matches!(Simulator::try_new(2, 8000, 10, 10, 0), Err(Error::AllocationFailed)));
    assert!(matches!(Simulator::try_new(2, 8000, 10, 10, 65536), Err(Error::AllocationFailed)));
    assert!(matches!(
        Simulator::try_new(2, 8000, 33_554_433, 10, 10),
        Err(Error::AllocationFailed)
    ));
    assert!(matches!(
        Simulator::try_new(1_000_000, 8000, 10, 10, 500),
        Err(Error::AllocationFailed)
    ));
    assert!(Simulator::try_new(2, 65535, 10, 10, 10).is_ok());
    assert!(Simulator::try_new(0, 1, 1, 0, 1).is_ok());
    assert!(Simulator::sizes_fit(2, 8000, 8000, 80_000, 500));
    assert!(!Simulator::sizes_fit(2, 0, 8000, 80_000, 500));
}

#[test]
fn malformed_code_is_refused_as_a_whole() {
    let mut sim = Simulator::new(2, 8000, 8000, 1000, 500);
    let bad = Insn { a: 1, b: 2, in_: 0xffff };
    assert_eq!(sim.load_warrior(5, &[jmp_self(), bad]), Err(Error::MalformedInstruction));
    assert_eq!(sim.read(5), Insn { a: 0, b: 0, in_: 0 });
    assert_eq!(sim.process_count(0), 0);
    // the refused call loaded no warrior: the next load is still warrior 0
    sim.load_warrior(5, &[jmp_self()]).unwrap();
    assert_eq!(sim.process_count(0), 1);
    assert_eq!(sim.process_count(1), 0);
}

#[test]
fn load_wraps_round_the_core_and_reduces_fields() {
    let mut sim = Simulator::new(1, 10, 4, 10, 4);
    let mov = Insn::new(Opcode::MOV, Modifier::I, Mode::DIRECT, 23, Mode::DIRECT, 19);
    sim.load_warrior(9 + 30, &[mov, dat(), jmp_self()]).unwrap();
    assert_eq!(sim.read(9), Insn { a: 3, b: 9, in_: mov.in_ });
    assert_eq!(sim.read(0), dat());
    assert_eq!(sim.read(1), jmp_self());
    assert_eq!(sim.read(11), jmp_self());
    assert_eq!(sim.process_count(0), 1);
    // the process stands at 39 mod 10
    assert_eq!(sim.step_warrior(0), Some(StepOutcome::Continue(0)));
}

#[test]
fn extra_loads_write_code_without_a_process() {
    let mut sim = Simulator::new(1, 100, 4, 10, 4);
    sim.load_warrior(0, &[jmp_self()]).unwrap();
    sim.load_warrior(50, &[dat()]).unwrap();
    assert_eq!(sim.read(50), dat());
    assert_eq!(sim.process_count(0), 1);
    assert_eq!(sim.alive_count(), 1);
}

#[test]
fn identical_battles_end_identically() {
    let imp = Insn::new(Opcode::MOV, Modifier::I, Mode::DIRECT, 0, Mode::DIRECT, 1);
    let add = Insn::new(Opcode::ADD, Modifier::AB, Mode::IMMEDIATE, 4, Mode::DIRECT, 3);
    let mov = Insn::new(Opcode::MOV, Modifier::I, Mode::DIRECT, 2, Mode::BINDIRECT, 2);
    let jmp = Insn::new(Opcode::JMP, Modifier::B, Mode::DIRECT, 98, Mode::DIRECT, 0);
    let mut runs: Vec<(Vec<u32>, Vec<Insn>)> = Vec::new();
    for _ in 0..2 {
        let mut sim = Simulator::new(2, 100, 8, 300, 4);
        sim.load_warrior(0, &[imp]).unwrap();
        sim.load_warrior(40, &[add, mov, jmp, dat()]).unwrap();
        let deaths = sim.run_cycles();
        let core: Vec<Insn> = (0..100).map(|i| sim.read(i)).collect();
        runs.push((deaths, core));
    }
    assert_eq!(runs[0], runs[1]);
}

#[test]
fn no_cycles_no_deaths() {
    let mut sim = Simulator::new(2, 8000, 8000, 0, 500);
    sim.load_warrior(0, &[dat()]).unwrap();
    sim.load_warrior(4000, &[dat()]).unwrap();
    assert_eq!(sim.run_cycles(), Vec::<u32>::new());
    assert_eq!(sim.alive_count(), 2);
}

#[test]
fn a_core_of_one_cell() {
    let imp = Insn::new(Opcode::MOV, Modifier::I, Mode::DIRECT, 0, Mode::DIRECT, 1);
    let mut sim = Simulator::new(1, 1, 1, 5, 1);
    sim.load_warrior(0, &[imp]).unwrap();
    assert_eq!(sim.read(0), Insn { a: 0, b: 0, in_: imp.in_ });
    assert_eq!(sim.step_warrior(0), Some(StepOutcome::Continue(0)));
    assert_eq!(sim.run_cycles(), Vec::<u32>::new());
}

#[test]
fn start_positions_wrap_and_extra_ones_are_ignored() {
    let mut sim = Simulator::new(2, 8000, 8000, 10, 500);
    sim.load_warrior(5, &[jmp_self()]).unwrap();
    sim.load_warrior(6, &[jmp_self()]).unwrap();
    // 8005 and 8006 are cells 5 and 6; the third position has no warrior
    assert_eq!(sim.simulate(vec![8005, 8006, 17]), Vec::<u32>::new());
    // started on blank cells both die, warrior 0 first, and the round stops there
    sim.load_warrior(5, &[jmp_self()]).unwrap();
    sim.load_warrior(6, &[jmp_self()]).unwrap();
    assert_eq!(sim.simulate(vec![100, 200]), vec![0]);
}

#[test]
fn running_off_the_code_kills() {
    let nop = Insn::new(Opcode::NOP, Modifier::F, Mode::DIRECT, 0, Mode::DIRECT, 0);
    let mut sim = Simulator::new(1, 8000, 8000, 10, 500);
    sim.load_warrior(7998, &[nop, nop, nop]).unwrap();
    assert_eq!(sim.step_warrior(0), Some(StepOutcome::Continue(7999)));
    assert_eq!(sim.step_warrior(0), Some(StepOutcome::Continue(0)));
    assert_eq!(sim.step_warrior(0), Some(StepOutcome::Continue(1)));
    assert_eq!(sim.step_warrior(0), Some(StepOutcome::Die));
    assert_eq!(sim.alive_count(), 0);
}

#[test]
fn processes_take_turns_first_in_first_out() {
    // spl $2 ; nop ; jmp $0: after the split the old process runs before the new one
    let spl = Insn::new(Opcode::SPL, Modifier::B, Mode::DIRECT, 2, Mode::DIRECT, 0);
    let nop = Insn::new(Opcode::NOP, Modifier::F, Mode::DIRECT, 0, Mode::DIRECT, 0);
    let mut sim = Simulator::new(1, 100, 8, 10, 4);
    sim.load_warrior(10, &[spl, nop, jmp_self()]).unwrap();
    assert_eq!(sim.step_warrior(0), Some(StepOutcome::Split(11, 12)));
    assert_eq!(sim.process_count(0), 2);
    assert_eq!(sim.step_warrior(0), Some(StepOutcome::Continue(12)));
    assert_eq!(sim.step_warrior(0), Some(StepOutcome::Continue(12)));
    assert_eq!(sim.process_count(0), 2);
}

#[test]
fn a_warrior_dies_only_with_its_last_process() {
    // spl $1 ; dat: two processes, each dies on the dat, the warrior with the second
    let spl = Insn::new(Opcode::SPL, Modifier::B, Mode::DIRECT, 1, Mode::DIRECT, 0);
    let mut sim = Simulator::new(2, 100, 8, 10, 4);
    sim.load_warrior(0, &[spl, dat()]).unwrap();
    sim.load_warrior(50, &[jmp_self()]).unwrap();
    assert_eq!(sim.step_warrior(0), Some(StepOutcome::Split(1, 1)));
    assert_eq!(sim.step_warrior(0), Some(StepOutcome::Die));
    assert_eq!(sim.process_count(0), 1);
    assert_eq!(sim.alive_count(), 2);
    assert_eq!(sim.run_cycles(), vec![0]);
    assert_eq!(sim.alive_count(), 1);
}

#[test]
fn config_is_kept() {
    let sim = Simulator::new(2, 8000, 8000, 80_000, 500);
    let c = sim.config();
    assert_eq!(
        (c.num_warriors, c.core_size, c.max_processes, c.max_cycles, c.pspace_size),
        (2, 8000, 8000, 80_000, 500)
    );
}
