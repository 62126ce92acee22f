use corewar::mars::Simulator;
use corewar::redcode::Insn;

#[test]
fn it_works() {
    assert_eq!(2 + 2, 4);
}

#[test]
fn allocate_sim() {
    let s: Simulator = Simulator::new(2, 8_000, 8_000, 80_000, 8_000 / 16);
    drop(s);
}

fn is_clear(sim: &Simulator) -> bool {
    for i in 0..sim.config().core_size {
        let insn: Insn = sim.read(i);
        let cleared = Insn { a: 0, b: 0, in_: 0 };
        if !(cleared.a == insn.a && cleared.b == insn.b && cleared.in_ == insn.in_) {
            return false;
        };
    }
    return true;
}

#[test]
fn test_reset_clears_core() {
    let mut s = Simulator::new(2, 8_000, 8_000, 80_000, 8_000 / 16);
    assert!(is_clear(&s));

    let war: Vec<Insn> = vec![Insn {
        a: 12,
        b: 34,
        in_: 123,
    }];

    s.load_warrior(0, &war).unwrap();
    assert!(!is_clear(&s));
    s.reset_round();
    assert!(is_clear(&s));

    s.load_warrior(0, &war).unwrap();
    assert!(!is_clear(&s));
    s.reset_battle();
    assert!(is_clear(&s));
}
