//! What holds of every round, whatever the warriors do.
//!
//! The statements here are about the functions that define a round, `turn`,
//! `cycle`, `run` and `fought`, and so about every round that
//! `Simulator::run_cycles` or `Simulator::simulate` fights.

use vstd::prelude::*;
use crate::engine::{lemma_step_in_core, step_spec};
use crate::mars::{
    acted,
    alive,
    battle_ok,
    cycle,
    fought,
    requeued,
    run,
    started,
    turn,
    Battle,
    Round,
    Simulator,
};
use crate::redcode::Field;
use crate::scheduler::{after_next, within_cap};

verus! {

/// A round whose state has a queue for every warrior, none of them over the
/// process cap.
pub open spec fn capped(r: Round) -> bool {
    &&& r.battle.queues.len() == r.battle.config.num_warriors
    &&& within_cap(r.battle.queues, r.battle.config.max_processes as int)
}

/// An instruction changes the queue of the warrior that executes it and no
/// other, and leaves that warrior within the process cap.
pub proof fn lemma_acted_queues(b: Battle, w: int)
    requires
        0 <= w < b.queues.len(),
        b.queues[w].len() > 0,
    ensures
        acted(b, w).config == b.config,
        acted(b, w).queues.len() == b.queues.len(),
        acted(b, w).queues == b.queues.update(w, acted(b, w).queues[w]),
        b.queues[w].len() <= b.config.max_processes ==> acted(b, w).queues[w].len()
            <= b.config.max_processes,
        acted(b, w).queues[w].len() <= b.queues[w].len() + 1,
{
    let cap = b.config.max_processes as int;
    let taken = after_next(b.queues, w);
    let e = step_spec(b.cells, b.pspaces[w], b.queues[w][0] as int);
    let back = requeued(taken, w, e.outcome, cap);
    assert(back =~= b.queues.update(w, back[w]));
}

/// A turn keeps every warrior within the process cap: a warrior that
/// executes `SPL` at the cap gets no further process.
pub proof fn lemma_turn_capped(r: Round, w: int)
    requires
        capped(r),
        0 <= w < r.battle.config.num_warriors,
    ensures
        capped(turn(r, w)),
        turn(r, w).battle.config == r.battle.config,
{
    if !r.over && r.battle.queues[w].len() > 0 {
        lemma_acted_queues(r.battle, w);
    }
}

/// The rest of a cycle keeps every warrior within the process cap.
pub proof fn lemma_cycle_capped(r: Round, w: int)
    requires
        capped(r),
        0 <= w,
    ensures
        capped(cycle(r, w)),
        cycle(r, w).battle.config == r.battle.config,
    decreases r.battle.config.num_warriors - w,
{
    if w < r.battle.config.num_warriors {
        lemma_turn_capped(r, w);
        lemma_cycle_capped(turn(r, w), w + 1);
    }
}

/// However long a round runs, no warrior ever holds more processes than the
/// cap.
pub proof fn lemma_run_capped(r: Round, cycles: nat)
    requires
        capped(r),
    ensures
        capped(run(r, cycles)),
        run(r, cycles).battle.config == r.battle.config,
    decreases cycles,
{
    if cycles > 0 && !r.over {
        lemma_cycle_capped(r, 0);
        lemma_run_capped(cycle(r, 0), (cycles - 1) as nat);
    }
}

/// An instruction leaves a valid state valid: the core keeps its size and
/// holds only what it can hold, every program counter is an address of the
/// core, private storage keeps its size, and no warrior is over the cap.
pub proof fn lemma_acted_valid(b: Battle, w: int)
    requires
        battle_ok(b),
        0 <= w < b.config.num_warriors,
        b.queues[w].len() > 0,
    ensures
        battle_ok(acted(b, w)),
{
    let n = b.config.core_size as int;
    let pc = b.queues[w][0];
    lemma_step_in_core(b.cells, b.pspaces[w], pc as int);
    lemma_acted_queues(b, w);
    let after = acted(b, w);
    assert forall|v: int, i: int|
        0 <= v < after.queues.len() && 0 <= i < after.queues[v].len() implies (
    #[trigger] after.queues[v][i]) < n by {
        if v != w {
            assert(after.queues[v] == b.queues[v]);
        } else {
            let rest = b.queues[w].drop_first();
            assert(forall|k: int| 0 <= k < rest.len() ==> rest[k] == b.queues[w][k + 1]);
        }
    }
    assert forall|v: int| 0 <= v < after.queues.len() implies (#[trigger] after.queues[v]).len()
        <= b.config.max_processes by {
        if v != w {
            assert(after.queues[v] == b.queues[v]);
        }
    }
}

/// A turn leaves a valid state valid.
pub proof fn lemma_turn_valid(r: Round, w: int)
    requires
        battle_ok(r.battle),
        0 <= w < r.battle.config.num_warriors,
    ensures
        battle_ok(turn(r, w).battle),
        turn(r, w).battle.config == r.battle.config,
{
    if !r.over && r.battle.queues[w].len() > 0 {
        lemma_acted_valid(r.battle, w);
    }
}

/// The rest of a cycle leaves a valid state valid.
pub proof fn lemma_cycle_valid(r: Round, w: int)
    requires
        battle_ok(r.battle),
        0 <= w,
    ensures
        battle_ok(cycle(r, w).battle),
        cycle(r, w).battle.config == r.battle.config,
    decreases r.battle.config.num_warriors - w,
{
    if w < r.battle.config.num_warriors {
        lemma_turn_valid(r, w);
        lemma_cycle_valid(turn(r, w), w + 1);
    }
}

/// A round that begins in a valid state is in a valid state after every
/// cycle, and so at its end.
pub proof fn lemma_run_valid(r: Round, cycles: nat)
    requires
        battle_ok(r.battle),
    ensures
        battle_ok(run(r, cycles).battle),
        run(r, cycles).battle.config == r.battle.config,
    decreases cycles,
{
    if cycles > 0 && !r.over {
        lemma_cycle_valid(r, 0);
        lemma_run_valid(cycle(r, 0), (cycles - 1) as nat);
    }
}

/// A warrior whose only process stands on a `DAT` is eliminated by its turn.
pub proof fn lemma_dat_eliminates(r: Round, w: int)
    requires
        !r.over,
        0 <= w < r.battle.queues.len(),
        r.battle.queues[w].len() == 1,
        r.battle.cells[r.battle.queues[w][0] as int].well_formed(),
        r.battle.cells[r.battle.queues[w][0] as int].spec_opcode() == crate::redcode::Opcode::DAT,
    ensures
        turn(r, w).battle.queues[w].len() == 0,
        turn(r, w).deaths == r.deaths.push(w as u32),
{
    crate::engine::lemma_dat_ends_process(
        r.battle.cells,
        r.battle.pspaces[w],
        r.battle.queues[w][0] as int,
    );
}

/// A turn gives no process to a warrior that has none.
pub proof fn lemma_turn_keeps_dead(r: Round, w: int, dead: int)
    requires
        0 <= w < r.battle.queues.len(),
        0 <= dead < r.battle.queues.len(),
        r.battle.queues[dead].len() == 0,
    ensures
        turn(r, w).battle.queues.len() == r.battle.queues.len(),
        turn(r, w).battle.config == r.battle.config,
        turn(r, w).battle.queues[dead].len() == 0,
{
    if !r.over && r.battle.queues[w].len() > 0 {
        lemma_acted_queues(r.battle, w);
    }
}

/// The rest of a cycle gives no process to a warrior that has none.
pub proof fn lemma_cycle_keeps_dead(r: Round, w: int, dead: int)
    requires
        r.battle.queues.len() == r.battle.config.num_warriors,
        0 <= w,
        0 <= dead < r.battle.queues.len(),
        r.battle.queues[dead].len() == 0,
    ensures
        cycle(r, w).battle.queues.len() == r.battle.queues.len(),
        cycle(r, w).battle.config == r.battle.config,
        cycle(r, w).battle.queues[dead].len() == 0,
    decreases r.battle.config.num_warriors - w,
{
    if w < r.battle.config.num_warriors {
        lemma_turn_keeps_dead(r, w, dead);
        lemma_cycle_keeps_dead(turn(r, w), w + 1, dead);
    }
}

/// Death is final within a round: a warrior without a process has none at
/// any later point of the round.
pub proof fn lemma_dead_stay_dead(r: Round, cycles: nat, dead: int)
    requires
        r.battle.queues.len() == r.battle.config.num_warriors,
        0 <= dead < r.battle.queues.len(),
        r.battle.queues[dead].len() == 0,
    ensures
        run(r, cycles).battle.queues.len() == r.battle.queues.len(),
        run(r, cycles).battle.queues[dead].len() == 0,
    decreases cycles,
{
    if cycles > 0 && !r.over {
        lemma_cycle_keeps_dead(r, 0, dead);
        lemma_dead_stay_dead(cycle(r, 0), (cycles - 1) as nat, dead);
    }
}

/// Replacing one queue changes the number of live warriors by what that
/// queue counts for, before and after.
pub proof fn lemma_alive_update(queues: Seq<Seq<Field>>, w: int, q: Seq<Field>)
    requires
        0 <= w < queues.len(),
    ensures
        alive(queues.update(w, q)) + (if queues[w].len() > 0 {
            1nat
        } else {
            0nat
        }) == alive(queues) + (if q.len() > 0 {
            1nat
        } else {
            0nat
        }),
    decreases queues.len(),
{
    let changed = queues.update(w, q);
    if w == queues.len() - 1 {
        assert(changed.drop_last() =~= queues.drop_last());
    } else {
        assert(changed.drop_last() =~= queues.drop_last().update(w, q));
        lemma_alive_update(queues.drop_last(), w, q);
    }
}

/// A round in which every warrior in the death order is without a process.
pub open spec fn listed_are_dead(r: Round) -> bool {
    forall|i: int|
        0 <= i < r.deaths.len() ==> (#[trigger] r.deaths[i]) < r.battle.queues.len()
            && r.battle.queues[r.deaths[i] as int].len() == 0
}

/// A round that is either decided or has at least two warriors alive, and in
/// both cases at least one.
pub open spec fn contested(r: Round) -> bool {
    &&& r.battle.queues.len() == r.battle.config.num_warriors
    &&& alive(r.battle.queues) >= 1
    &&& r.over || alive(r.battle.queues) >= 2
}

proof fn lemma_turn_survivors(r: Round, w: int)
    requires
        r.battle.queues.len() == r.battle.config.num_warriors,
        0 <= w < r.battle.config.num_warriors,
    ensures
        turn(r, w).battle.config == r.battle.config,
        turn(r, w).battle.queues.len() == r.battle.queues.len(),
        listed_are_dead(r) ==> listed_are_dead(turn(r, w)),
        contested(r) ==> contested(turn(r, w)),
{
    if !r.over && r.battle.queues[w].len() > 0 {
        let b = acted(r.battle, w);
        lemma_acted_queues(r.battle, w);
        lemma_alive_update(r.battle.queues, w, b.queues[w]);
        let t = turn(r, w);
        if listed_are_dead(r) {
            assert forall|i: int| 0 <= i < t.deaths.len() implies (#[trigger] t.deaths[i])
                < t.battle.queues.len() && t.battle.queues[t.deaths[i] as int].len() == 0 by {
                if i < r.deaths.len() {
                    assert(t.deaths[i] == r.deaths[i]);
                    assert(r.deaths[i] != w);
                }
            }
        }
    }
}

proof fn lemma_cycle_survivors(r: Round, w: int)
    requires
        r.battle.queues.len() == r.battle.config.num_warriors,
        0 <= w,
    ensures
        cycle(r, w).battle.config == r.battle.config,
        cycle(r, w).battle.queues.len() == r.battle.queues.len(),
        listed_are_dead(r) ==> listed_are_dead(cycle(r, w)),
        contested(r) ==> contested(cycle(r, w)),
    decreases r.battle.config.num_warriors - w,
{
    if w < r.battle.config.num_warriors {
        lemma_turn_survivors(r, w);
        lemma_cycle_survivors(turn(r, w), w + 1);
    }
}

proof fn lemma_run_survivors(r: Round, cycles: nat)
    requires
        r.battle.queues.len() == r.battle.config.num_warriors,
    ensures
        run(r, cycles).battle.queues.len() == r.battle.queues.len(),
        listed_are_dead(r) ==> listed_are_dead(run(r, cycles)),
        contested(r) ==> contested(run(r, cycles)),
    decreases cycles,
{
    if cycles > 0 && !r.over {
        lemma_cycle_survivors(r, 0);
        lemma_run_survivors(cycle(r, 0), (cycles - 1) as nat);
    }
}

/// A warrior that has a process when the round ends is not in the death
/// order, and every warrior in the death order is without a process.
pub proof fn lemma_survivors_not_listed(b: Battle, w: int)
    requires
        b.queues.len() == b.config.num_warriors,
        0 <= w < b.config.num_warriors,
        fought(b).battle.queues[w].len() > 0,
    ensures
        !fought(b).deaths.contains(w as u32),
{
    let r = Round { battle: b, deaths: Seq::<u32>::empty(), over: false };
    lemma_run_survivors(r, b.config.max_cycles as nat);
    let end = fought(b);
    if end.deaths.contains(w as u32) {
        let i = choose|i: int| 0 <= i < end.deaths.len() && end.deaths[i] == w as u32;
        assert(end.battle.queues[end.deaths[i] as int].len() == 0);
    }
}

/// A round that starts with two or more warriors alive ends with at least
/// one alive: the last warrior standing is never eliminated.
pub proof fn lemma_last_warrior_survives(b: Battle)
    requires
        b.queues.len() == b.config.num_warriors,
        alive(b.queues) >= 2,
    ensures
        alive(fought(b).battle.queues) >= 1,
{
    let r = Round { battle: b, deaths: Seq::<u32>::empty(), over: false };
    lemma_run_survivors(r, b.config.max_cycles as nat);
}

/// No warrior of a round that was fought is over the process cap.
pub proof fn lemma_fought_capped(b: Battle)
    requires
        b.queues.len() == b.config.num_warriors,
        within_cap(b.queues, b.config.max_processes as int),
    ensures
        within_cap(fought(b).battle.queues, b.config.max_processes as int),
{
    let r = Round { battle: b, deaths: Seq::<u32>::empty(), over: false };
    lemma_run_capped(r, b.config.max_cycles as nat);
}

/// Two simulations in the same state, started at the same positions, fight
/// the same round: the same death order and the same state at its end,
/// whatever else differs between the two.
pub proof fn lemma_rounds_repeat(first: Simulator, second: Simulator, positions: Seq<Field>)
    requires
        first@ == second@,
    ensures
        fought(started(first@, positions)) == fought(started(second@, positions)),
        fought(first@) == fought(second@),
{
}

} // verus!
