//! The battle controller: one core, the process queues and the private
//! storage of all warriors, and the rounds that are fought in them.

use vstd::prelude::*;
use crate::engine::{pspace_ok, step, step_spec, StepOutcome};
use crate::error::Error;
use crate::memory::{blank_cells, cells_ok, read_at, written_at, Core};
use crate::modular::{inc_mod, lemma_wrap_add, reduce, wrap, MAX_CORE_SIZE};
use crate::redcode::{Field, Insn};
use crate::scheduler::{after_next, after_reschedule, after_spawn, within_cap, Scheduler};

verus! {

/// The most process slots that a simulation reserves, all warriors together.
pub const MAX_TOTAL_PROCESSES: u64 = 67_108_864;

/// The most cells of private storage that a simulation reserves, all
/// warriors together.
pub const MAX_TOTAL_PSPACE: u64 = 67_108_864;

/// The sizes that a simulation is made with.
#[derive(Copy, Clone, Debug, PartialEq, Eq, Structural)]
pub struct Config {
    pub num_warriors: u32,
    pub core_size: u32,
    pub max_processes: u32,
    pub max_cycles: u32,
    pub pspace_size: u32,
}

/// The sizes for which a simulation can be created: a core of at least one
/// cell whose addresses fit a field, room for at least one process per
/// warrior, private storage of at least one cell that a field can address,
/// and no more process slots or storage cells in all than the limits allow.
pub open spec fn config_ok(c: Config) -> bool {
    &&& 1 <= c.core_size <= MAX_CORE_SIZE
    &&& 1 <= c.max_processes
    &&& 1 <= c.pspace_size <= MAX_CORE_SIZE
    &&& c.num_warriors * c.max_processes <= MAX_TOTAL_PROCESSES
    &&& c.num_warriors * c.pspace_size <= MAX_TOTAL_PSPACE
}

/// The whole state of a simulation.
pub struct Battle {
    pub config: Config,
    /// The core.
    pub cells: Seq<Insn>,
    /// For each warrior its program counters, oldest first.
    pub queues: Seq<Seq<Field>>,
    /// For each warrior its private storage.
    pub pspaces: Seq<Seq<Field>>,
    /// How many warriors were loaded in this round.
    pub loaded: nat,
}

/// A round in progress: the state, the warriors eliminated so far in the
/// order of their elimination, and whether the round has been decided.
pub struct Round {
    pub battle: Battle,
    pub deaths: Seq<u32>,
    pub over: bool,
}

/// Queues that hold only addresses of a core of size `n`.
pub open spec fn queues_in_core(queues: Seq<Seq<Field>>, n: int) -> bool {
    forall|w: int, i: int|
        0 <= w < queues.len() && 0 <= i < queues[w].len() ==> (#[trigger] queues[w][i]) < n
}

/// The invariant of a simulation, over its state.
pub open spec fn battle_ok(b: Battle) -> bool {
    &&& config_ok(b.config)
    &&& cells_ok(b.cells)
    &&& b.cells.len() == b.config.core_size
    &&& b.queues.len() == b.config.num_warriors
    &&& within_cap(b.queues, b.config.max_processes as int)
    &&& queues_in_core(b.queues, b.config.core_size as int)
    &&& b.pspaces.len() == b.config.num_warriors
    &&& forall|w: int|
        0 <= w < b.pspaces.len() ==> (#[trigger] b.pspaces[w]).len() == b.config.pspace_size
            && pspace_ok(b.pspaces[w], b.config.core_size as int)
    &&& b.loaded <= b.config.num_warriors
}

/// `n` empty queues.
pub open spec fn no_processes(n: nat) -> Seq<Seq<Field>> {
    Seq::new(n, |w: int| Seq::<Field>::empty())
}

/// Private storage of `size` zeros for each of `n` warriors.
pub open spec fn blank_pspaces(n: nat, size: nat) -> Seq<Seq<Field>> {
    Seq::new(n, |w: int| Seq::new(size, |i: int| 0u16))
}

/// The state of a simulation that was just created.
pub open spec fn fresh(c: Config) -> Battle {
    Battle {
        config: c,
        cells: blank_cells(c.core_size as nat),
        queues: no_processes(c.num_warriors as nat),
        pspaces: blank_pspaces(c.num_warriors as nat, c.pspace_size as nat),
        loaded: 0,
    }
}

/// The state after a round reset: the core is blank and no warrior has a
/// process or counts as loaded; private storage stays as it is.
pub open spec fn round_reset(b: Battle) -> Battle {
    Battle {
        config: b.config,
        cells: blank_cells(b.cells.len()),
        queues: no_processes(b.queues.len()),
        pspaces: b.pspaces,
        loaded: 0,
    }
}

/// The state after a battle reset: as after a round reset, and all private
/// storage is zero again.
pub open spec fn battle_reset(b: Battle) -> Battle {
    Battle {
        config: b.config,
        cells: blank_cells(b.cells.len()),
        queues: no_processes(b.queues.len()),
        pspaces: blank_pspaces(b.pspaces.len(), b.config.pspace_size as nat),
        loaded: 0,
    }
}

/// The core after `code` was written from `pos` on, one instruction per
/// cell, round the core; a later instruction overwrites an earlier one that
/// fell on the same cell.
pub open spec fn written_all(cells: Seq<Insn>, pos: int, code: Seq<Insn>) -> Seq<Insn>
    decreases code.len(),
{
    if code.len() == 0 {
        cells
    } else {
        written_at(
            written_all(cells, pos, code.drop_last()),
            pos + code.len() - 1,
            code.last(),
        )
    }
}

/// Code in which every control word decodes.
pub open spec fn code_ok(code: Seq<Insn>) -> bool {
    forall|i: int| 0 <= i < code.len() ==> (#[trigger] code[i]).well_formed()
}

/// The state after a warrior was loaded at `pos`: the code stands in the
/// core, and the next warrior that was not loaded yet, if there is one, has
/// a single process at `pos`.
pub open spec fn with_warrior(b: Battle, pos: int, code: Seq<Insn>) -> Battle {
    Battle {
        config: b.config,
        cells: written_all(b.cells, pos, code),
        queues: if b.loaded < b.queues.len() {
            b.queues.update(b.loaded as int, seq![wrap(pos, b.cells.len() as int) as Field])
        } else {
            b.queues
        },
        pspaces: b.pspaces,
        loaded: if b.loaded < b.queues.len() {
            b.loaded + 1
        } else {
            b.loaded
        },
    }
}

/// The state in which each warrior that has a start position starts there
/// with a single process; the other warriors keep their queues.
pub open spec fn started(b: Battle, positions: Seq<Field>) -> Battle {
    Battle {
        config: b.config,
        cells: b.cells,
        queues: Seq::new(
            b.queues.len(),
            |w: int|
                if w < positions.len() {
                    seq![wrap(positions[w] as int, b.cells.len() as int) as Field]
                } else {
                    b.queues[w]
                },
        ),
        pspaces: b.pspaces,
        loaded: b.loaded,
    }
}

/// The queues after warrior `w`, whose process was taken off, got back what
/// the instruction left of it: nothing, the process at its next address, or
/// that and a second process if the warrior is below the cap.
pub open spec fn requeued(queues: Seq<Seq<Field>>, w: int, outcome: StepOutcome, cap: int) -> Seq<
    Seq<Field>,
> {
    match outcome {
        StepOutcome::Die => queues,
        StepOutcome::Continue(pc) => after_reschedule(queues, w, pc),
        StepOutcome::Split(pc, child) => after_spawn(
            after_reschedule(queues, w, pc),
            w,
            child,
            cap,
        ),
    }
}

/// The state after warrior `w` executed the instruction of its oldest
/// process.
pub open spec fn acted(b: Battle, w: int) -> Battle {
    let pc = b.queues[w][0];
    let e = step_spec(b.cells, b.pspaces[w], pc as int);
    Battle {
        config: b.config,
        cells: e.cells,
        queues: requeued(after_next(b.queues, w), w, e.outcome, b.config.max_processes as int),
        pspaces: b.pspaces.update(w, e.pspace),
        loaded: b.loaded,
    }
}

/// The number of warriors that have a process.
pub open spec fn alive(queues: Seq<Seq<Field>>) -> nat
    decreases queues.len(),
{
    if queues.len() == 0 {
        0
    } else {
        alive(queues.drop_last()) + if queues.last().len() > 0 {
            1nat
        } else {
            0nat
        }
    }
}

/// The turn of warrior `w`. In a round that is decided, and for a warrior
/// without a process, nothing happens. Otherwise the warrior executes one
/// instruction; if that leaves it without a process it is eliminated, and
/// the round is decided as soon as at most one warrior is left alive.
pub open spec fn turn(r: Round, w: int) -> Round {
    if r.over || r.battle.queues[w].len() == 0 {
        r
    } else {
        let b = acted(r.battle, w);
        if b.queues[w].len() == 0 {
            Round { battle: b, deaths: r.deaths.push(w as u32), over: alive(b.queues) <= 1 }
        } else {
            Round { battle: b, deaths: r.deaths, over: false }
        }
    }
}

/// The rest of a cycle: the turns of the warriors from `w` on, in the order
/// of their indices.
pub open spec fn cycle(r: Round, w: int) -> Round
    decreases r.battle.config.num_warriors - w,
{
    if 0 <= w < r.battle.config.num_warriors {
        cycle(turn(r, w), w + 1)
    } else {
        r
    }
}

/// The round after up to `cycles` more cycles: it ends when they are used up
/// or when the round is decided.
pub open spec fn run(r: Round, cycles: nat) -> Round
    decreases cycles,
{
    if cycles == 0 || r.over {
        r
    } else {
        run(cycle(r, 0), (cycles - 1) as nat)
    }
}

/// A round of the battle from its first cycle to its end.
pub open spec fn fought(b: Battle) -> Round {
    run(Round { battle: b, deaths: Seq::<u32>::empty(), over: false }, b.config.max_cycles as nat)
}

/// In a round that is decided the rest of a cycle changes nothing.
pub proof fn lemma_cycle_over(r: Round, w: int)
    requires
        r.over,
    ensures
        cycle(r, w) == r,
    decreases r.battle.config.num_warriors - w,
{
    if 0 <= w < r.battle.config.num_warriors {
        lemma_cycle_over(r, w + 1);
    }
}

/// Where no warrior is alive, no warrior has a process.
pub proof fn lemma_none_alive(queues: Seq<Seq<Field>>)
    requires
        alive(queues) == 0,
    ensures
        forall|w: int| 0 <= w < queues.len() ==> (#[trigger] queues[w]).len() == 0,
    decreases queues.len(),
{
    if queues.len() > 0 {
        lemma_none_alive(queues.drop_last());
        assert forall|w: int| 0 <= w < queues.len() implies (#[trigger] queues[w]).len()
            == 0 by {
            if w < queues.len() - 1 {
                assert(queues[w] == queues.drop_last()[w]);
            }
        }
    }
}

/// A round in which no warrior has a process stays as it is, however many
/// cycles it is given.
pub proof fn lemma_idle_round(r: Round, cycles: nat)
    requires
        r.battle.queues.len() == r.battle.config.num_warriors,
        forall|w: int| 0 <= w < r.battle.queues.len() ==> (#[trigger] r.battle.queues[w]).len() == 0,
    ensures
        run(r, cycles) == r,
    decreases cycles,
{
    if cycles > 0 && !r.over {
        lemma_idle_cycle(r, 0);
        lemma_idle_round(r, (cycles - 1) as nat);
    }
}

proof fn lemma_idle_cycle(r: Round, w: int)
    requires
        r.battle.queues.len() == r.battle.config.num_warriors,
        forall|v: int| 0 <= v < r.battle.queues.len() ==> (#[trigger] r.battle.queues[v]).len() == 0,
        0 <= w,
    ensures
        cycle(r, w) == r,
    decreases r.battle.config.num_warriors - w,
{
    if w < r.battle.config.num_warriors {
        assert(r.battle.queues[w].len() == 0);
        lemma_idle_cycle(r, w + 1);
    }
}

/// A simulation: the battlefield and everything that the warriors own.
pub struct Simulator {
    config: Config,
    core: Core,
    scheduler: Scheduler,
    pspaces: Vec<Vec<Field>>,
    loaded: u32,
}

impl View for Simulator {
    type V = Battle;

    closed spec fn view(&self) -> Battle {
        Battle {
            config: self.config,
            cells: self.core@,
            queues: self.scheduler@,
            pspaces: Seq::new(self.pspaces@.len(), |w: int| self.pspaces@[w]@),
            loaded: self.loaded as nat,
        }
    }
}

impl Simulator {
    /// What holds of the parts of a simulation beside `battle_ok` of its state.
    pub closed spec fn parts_ok(&self) -> bool {
        &&& self.scheduler.wf()
        &&& self.scheduler.cap() == self.config.max_processes
    }

    /// The invariant of a simulation.
    pub open spec fn wf(&self) -> bool {
        self.parts_ok() && battle_ok(self@)
    }

    /// Whether a simulation of these sizes can be created.
    pub fn sizes_fit(nwar: u32, coresize: u32, processes: u32, cycles: u32, pspace: u32) -> (r:
        bool)
        ensures
            r == config_ok(
                Config {
                    num_warriors: nwar,
                    core_size: coresize,
                    max_processes: processes,
                    max_cycles: cycles,
                    pspace_size: pspace,
                },
            ),
    {
        assert(nwar * processes <= 0xffff_ffff * 0xffff_ffff) by (nonlinear_arith)
            requires
                nwar <= 0xffff_ffff,
                processes <= 0xffff_ffff,
        ;
        assert(nwar * pspace <= 0xffff_ffff * 0xffff_ffff) by (nonlinear_arith)
            requires
                nwar <= 0xffff_ffff,
                pspace <= 0xffff_ffff,
        ;
        let slots: u64 = (nwar as u64) * (processes as u64);
        let storage: u64 = (nwar as u64) * (pspace as u64);
        1 <= coresize && coresize <= MAX_CORE_SIZE && 1 <= processes && 1 <= pspace && pspace
            <= MAX_CORE_SIZE && slots <= MAX_TOTAL_PROCESSES && storage <= MAX_TOTAL_PSPACE
    }

    /// Creates a simulation with a blank core, no processes and zeroed
    /// private storage, or fails with `AllocationFailed` for sizes beyond
    /// what a simulation can reserve.
    pub fn try_new(nwar: u32, coresize: u32, processes: u32, cycles: u32, pspace: u32) -> (r:
        Result<Simulator, Error>)
        ensures
            ({
                let c = Config {
                    num_warriors: nwar,
                    core_size: coresize,
                    max_processes: processes,
                    max_cycles: cycles,
                    pspace_size: pspace,
                };
                &&& config_ok(c) ==> (r matches Ok(sim) && sim.wf() && sim@ == fresh(c))
                &&& !config_ok(c) ==> (r matches Err(e) && e == Error::AllocationFailed)
            }),
    {
        if !Self::sizes_fit(nwar, coresize, processes, cycles, pspace) {
            return Err(Error::AllocationFailed);
        }
        let config = Config {
            num_warriors: nwar,
            core_size: coresize,
            max_processes: processes,
            max_cycles: cycles,
            pspace_size: pspace,
        };
        let core = Core::new(coresize);
        let scheduler = Scheduler::new(nwar, processes);
        let mut pspaces: Vec<Vec<Field>> = Vec::new();
        let mut w: u32 = 0;
        while w < nwar
            invariant
                w <= nwar,
                pspaces@.len() == w,
                forall|v: int|
                    0 <= v < w ==> (#[trigger] pspaces@[v])@ == Seq::new(
                        pspace as nat,
                        |i: int| 0u16,
                    ),
            decreases nwar - w,
        {
            pspaces.push(zeroed(pspace));
            w = w + 1;
        }
        let sim = Simulator { config, core, scheduler, pspaces, loaded: 0 };
        proof {
            assert(sim@.pspaces =~= blank_pspaces(nwar as nat, pspace as nat));
            assert(sim@.queues =~= no_processes(nwar as nat));
            assert(sim@ == fresh(config));
        }
        Ok(sim)
    }

    /// Creates a simulation with a blank core, no processes and zeroed
    /// private storage.
    pub fn new(nwar: u32, coresize: u32, processes: u32, cycles: u32, pspace: u32) -> (sim: Self)
        requires
            config_ok(
                Config {
                    num_warriors: nwar,
                    core_size: coresize,
                    max_processes: processes,
                    max_cycles: cycles,
                    pspace_size: pspace,
                },
            ),
        ensures
            sim.wf(),
            sim@ == fresh(
                Config {
                    num_warriors: nwar,
                    core_size: coresize,
                    max_processes: processes,
                    max_cycles: cycles,
                    pspace_size: pspace,
                },
            ),
    {
        match Self::try_new(nwar, coresize, processes, cycles, pspace) {
            Ok(sim) => sim,
            Err(_) => vstd::pervasive::unreached(),
        }
    }

    /// The sizes that the simulation was made with.
    pub fn config(&self) -> (c: Config)
        ensures
            c == self@.config,
    {
        self.config
    }

    /// The instruction at `addr`, counted round the core.
    pub fn read(&self, addr: u32) -> (insn: Insn)
        requires
            self.wf(),
        ensures
            insn == read_at(self@.cells, addr as int),
    {
        self.core.read(addr)
    }

    /// The number of live processes of a warrior.
    pub fn process_count(&self, warrior: u32) -> (n: u32)
        requires
            self.wf(),
            warrior < self@.config.num_warriors,
        ensures
            n == self@.queues[warrior as int].len(),
            n <= self@.config.max_processes,
    {
        self.scheduler.count(warrior)
    }

    /// The cell `index` of a warrior's private storage, counted round it.
    pub fn pspace_read(&self, warrior: u32, index: u32) -> (value: Field)
        requires
            self.wf(),
            warrior < self@.config.num_warriors,
        ensures
            value == self@.pspaces[warrior as int][wrap(
                index as int,
                self@.config.pspace_size as int,
            )],
    {
        let space = &self.pspaces[warrior as usize];
        assert(space@ == self@.pspaces[warrior as int]);
        let at = reduce(index, space.len() as u32);
        space[at as usize]
    }

    /// Writes `code` into the core from `pos` on, round the core and with
    /// every field reduced modulo the core size, and gives the next warrior
    /// that was not loaded in this round a single process at `pos`. Once
    /// every warrior is loaded, further code is written without a process.
    ///
    /// Code that holds a control word that does not decode is refused as a
    /// whole: the call fails with `MalformedInstruction` and changes nothing.
    pub fn load_warrior(&mut self, pos: u32, code: &[Insn]) -> (r: Result<(), Error>)
        requires
            old(self).wf(),
        ensures
            final(self).wf(),
            code_ok(code@) ==> r == Ok::<(), Error>(()) && final(self)@ == with_warrior(
                old(self)@,
                pos as int,
                code@,
            ),
            !code_ok(code@) ==> r == Err::<(), Error>(Error::MalformedInstruction) && final(self)@ == old(self)@,
    {
        let len = code.len();
        let mut i: usize = 0;
        while i < len
            invariant
                i <= len,
                len == code@.len(),
                self.wf(),
                self@ == old(self)@,
                forall|j: int| 0 <= j < i ==> (#[trigger] code@[j]).well_formed(),
            decreases len - i,
        {
            if !code[i].is_well_formed() {
                return Err(Error::MalformedInstruction);
            }
            i = i + 1;
        }
        let n = self.core.size();
        let start = reduce(pos, n);
        let mut at = start;
        let mut i: usize = 0;
        while i < len
            invariant
                i <= len,
                len == code@.len(),
                code_ok(code@),
                self.core.wf(),
                n == self.core@.len(),
                n == old(self)@.cells.len(),
                at == wrap(pos + i, n as int),
                at < n,
                self.core@ == written_all(old(self)@.cells, pos as int, code@.take(i as int)),
                self.config == old(self).config,
                self.scheduler == old(self).scheduler,
                self.pspaces == old(self).pspaces,
                self.loaded == old(self).loaded,
            decreases len - i,
        {
            proof {
                lemma_wrap_add(pos + i, 1, n as int);
                lemma_wrap_add(pos + i, 0, n as int);
                assert(code@.take(i + 1).drop_last() =~= code@.take(i as int));
                assert(code@.take(i + 1).last() == code@[i as int]);
            }
            let _ = self.core.write(at, code[i]);
            at = inc_mod(at, n);
            i = i + 1;
        }
        proof {
            assert(code@.take(len as int) =~= code@);
        }
        if self.loaded < self.config.num_warriors {
            self.scheduler.restart(self.loaded, start as Field);
            self.loaded = self.loaded + 1;
        }
        Ok(())
    }

    /// Lets a warrior execute the instruction of its oldest process and puts
    /// what is left of the process back on its queue. Returns what became of
    /// the process, or `None`, with nothing changed, for a warrior that has
    /// no process.
    pub fn step_warrior(&mut self, warrior: u32) -> (r: Option<StepOutcome>)
        requires
            old(self).wf(),
            warrior < old(self)@.config.num_warriors,
        ensures
            final(self).wf(),
            old(self)@.queues[warrior as int].len() == 0 ==> r.is_none() && final(self)@ == old(self)@,
            old(self)@.queues[warrior as int].len() > 0 ==> final(self)@ == acted(
                old(self)@,
                warrior as int,
            ) && r == Some(
                step_spec(
                    old(self)@.cells,
                    old(self)@.pspaces[warrior as int],
                    old(self)@.queues[warrior as int][0] as int,
                ).outcome,
            ),
    {
        let pc = match self.scheduler.next(warrior) {
            Some(pc) => pc,
            None => {
                proof {
                    assert(self@.queues =~= old(self)@.queues);
                    assert(self@.pspaces =~= old(self)@.pspaces);
                }
                return None;
            },
        };
        proof {
            assert(self.pspaces@[warrior as int]@ == old(self)@.pspaces[warrior as int]);
        }
        let outcome = step(&mut self.core, &mut self.pspaces[warrior as usize], pc);
        match outcome {
            StepOutcome::Die => {},
            StepOutcome::Continue(next) => {
                self.scheduler.reschedule(warrior, next);
            },
            StepOutcome::Split(next, child) => {
                self.scheduler.reschedule(warrior, next);
                self.scheduler.spawn(warrior, child);
            },
        }
        proof {
            let e = step_spec(
                old(self)@.cells,
                old(self)@.pspaces[warrior as int],
                pc as int,
            );
            assert(self@.pspaces =~= old(self)@.pspaces.update(warrior as int, e.pspace));
            self.scheduler.lemma_within_cap();
        }
        Some(outcome)
    }

    /// The number of warriors that have a process.
    pub fn alive_count(&self) -> (count: u32)
        requires
            self.wf(),
        ensures
            count == alive(self@.queues),
            count <= self@.config.num_warriors,
    {
        let nw = self.config.num_warriors;
        let mut count: u32 = 0;
        let mut w: u32 = 0;
        while w < nw
            invariant
                w <= nw,
                self.wf(),
                nw == self@.config.num_warriors,
                count <= w,
                count == alive(self@.queues.take(w as int)),
            decreases nw - w,
        {
            proof {
                assert(self@.queues.take(w + 1).drop_last() =~= self@.queues.take(w as int));
                assert(self@.queues.take(w + 1).last() == self@.queues[w as int]);
            }
            if self.scheduler.count(w) > 0 {
                count = count + 1;
            }
            w = w + 1;
        }
        proof {
            assert(self@.queues.take(nw as int) =~= self@.queues);
        }
        count
    }

    /// The turn of a warrior in a round that is not decided: returns whether
    /// the turn decided it.
    fn take_turn(&mut self, warrior: u32, deaths: &mut Vec<u32>) -> (over: bool)
        requires
            old(self).wf(),
            warrior < old(self)@.config.num_warriors,
        ensures
            final(self).wf(),
            final(self)@.config == old(self)@.config,
            (Round { battle: final(self)@, deaths: final(deaths)@, over }) == turn(
                Round { battle: old(self)@, deaths: old(deaths)@, over: false },
                warrior as int,
            ),
    {
        match self.step_warrior(warrior) {
            None => false,
            Some(_) => {
                if self.scheduler.count(warrior) == 0 {
                    deaths.push(warrior);
                    self.alive_count() <= 1
                } else {
                    false
                }
            },
        }
    }

    /// Fights the round that is loaded: cycle after cycle, each a turn for
    /// every warrior that has a process, in the order of the indices, until
    /// the cycles are used up or a death leaves at most one warrior alive.
    /// The round stops with that death, in the middle of the cycle, so the
    /// last warrior standing is never eliminated; a warrior that is alone
    /// from the start runs until it dies or the cycles are used up. Returns
    /// the eliminated warriors, first to die first, and leaves the state in
    /// which the round ended.
    pub fn run_cycles(&mut self) -> (deaths: Vec<u32>)
        requires
            old(self).wf(),
        ensures
            final(self).wf(),
            final(self)@ == fought(old(self)@).battle,
            deaths@ == fought(old(self)@).deaths,
    {
        let max = self.config.max_cycles;
        let nw = self.config.num_warriors;
        let mut deaths: Vec<u32> = Vec::new();
        if self.alive_count() == 0 {
            proof {
                lemma_none_alive(self@.queues);
                lemma_idle_round(
                    Round { battle: self@, deaths: deaths@, over: false },
                    max as nat,
                );
            }
            return deaths;
        }
        let mut over = false;
        let mut c: u32 = 0;
        while c < max && !over
            invariant
                c <= max,
                self.wf(),
                self@.config == old(self)@.config,
                max == self@.config.max_cycles,
                nw == self@.config.num_warriors,
                fought(old(self)@) == run(
                    Round { battle: self@, deaths: deaths@, over },
                    (max - c) as nat,
                ),
            decreases max - c,
        {
            let ghost start = Round { battle: self@, deaths: deaths@, over: false };
            let mut w: u32 = 0;
            while w < nw && !over
                invariant
                    w <= nw,
                    self.wf(),
                    self@.config == start.battle.config,
                    nw == self@.config.num_warriors,
                    cycle(start, 0) == cycle(
                        Round { battle: self@, deaths: deaths@, over },
                        w as int,
                    ),
                decreases nw - w,
            {
                over = self.take_turn(w, &mut deaths);
                w = w + 1;
            }
            proof {
                if over {
                    lemma_cycle_over(Round { battle: self@, deaths: deaths@, over }, w as int);
                }
            }
            c = c + 1;
        }
        deaths
    }

    /// Fights one round and clears it away. Each warrior for which
    /// `warrior_positions` holds a position starts with a single process
    /// there, counted round the core; a warrior beyond the end of
    /// `warrior_positions` keeps the process that loading gave it. The round
    /// is fought as by `run_cycles`, and then reset as by `reset_round`.
    /// Returns the eliminated warriors, first to die first; a warrior that is
    /// not among them was not eliminated.
    pub fn simulate(&mut self, warrior_positions: Vec<Field>) -> (deaths: Vec<u32>)
        requires
            old(self).wf(),
        ensures
            final(self).wf(),
            final(self)@ == round_reset(fought(started(old(self)@, warrior_positions@)).battle),
            deaths@ == fought(started(old(self)@, warrior_positions@)).deaths,
    {
        let nw = self.config.num_warriors;
        let n = self.core.size();
        let given = warrior_positions.len();
        let mut w: u32 = 0;
        while w < nw && (w as usize) < given
            invariant
                w <= nw,
                w <= given,
                given == warrior_positions@.len(),
                self.wf(),
                nw == self@.config.num_warriors,
                n == self@.cells.len(),
                self@.config == old(self)@.config,
                self@.cells == old(self)@.cells,
                self@.pspaces == old(self)@.pspaces,
                self@.loaded == old(self)@.loaded,
                self@.queues.len() == nw,
                forall|v: int|
                    0 <= v < nw ==> #[trigger] self@.queues[v] == if v < w {
                        seq![wrap(warrior_positions@[v] as int, n as int) as Field]
                    } else {
                        old(self)@.queues[v]
                    },
            decreases nw - w,
        {
            let at = reduce(warrior_positions[w as usize] as u32, n);
            self.scheduler.restart(w, at as Field);
            proof {
                assert(self@.pspaces =~= old(self)@.pspaces);
            }
            w = w + 1;
        }
        proof {
            assert(self@.queues =~= started(old(self)@, warrior_positions@).queues);
            assert(self@ == started(old(self)@, warrior_positions@));
        }
        let deaths = self.run_cycles();
        self.reset_round();
        deaths
    }

    /// Clears the core and all process queues; private storage is kept.
    pub fn reset_round(&mut self)
        requires
            old(self).wf(),
        ensures
            final(self).wf(),
            final(self)@ == round_reset(old(self)@),
    {
        self.core.clear();
        self.scheduler.clear();
        self.loaded = 0;
        proof {
            assert(self@.pspaces =~= old(self)@.pspaces);
            assert(self@.queues =~= no_processes(old(self)@.queues.len()));
        }
    }

    /// Clears the core, all process queues and all private storage.
    pub fn reset_battle(&mut self)
        requires
            old(self).wf(),
        ensures
            final(self).wf(),
            final(self)@ == battle_reset(old(self)@),
    {
        self.core.clear();
        self.scheduler.clear();
        self.loaded = 0;
        let n = self.pspaces.len();
        let size = self.config.pspace_size;
        let mut w: usize = 0;
        while w < n
            invariant
                w <= n,
                n == self.pspaces@.len(),
                n == old(self).pspaces@.len(),
                self.parts_ok(),
                self.config == old(self).config,
                self.loaded == 0,
                self.core@ == blank_cells(old(self)@.cells.len()),
                self.scheduler@ == no_processes(old(self)@.queues.len()),
                forall|v: int|
                    0 <= v < w ==> (#[trigger] self.pspaces@[v])@ == Seq::new(
                        size as nat,
                        |i: int| 0u16,
                    ),
            decreases n - w,
        {
            self.pspaces.set(w, zeroed(size));
            w = w + 1;
        }
        proof {
            assert(self@.pspaces =~= blank_pspaces(
                old(self)@.pspaces.len(),
                old(self)@.config.pspace_size as nat,
            ));
            assert(self@.queues =~= no_processes(old(self)@.queues.len()));
        }
    }
}

/// A private storage of `size` zeros.
fn zeroed(size: u32) -> (space: Vec<Field>)
    ensures
        space@ == Seq::new(size as nat, |i: int| 0u16),
{
    let mut space: Vec<Field> = Vec::new();
    let mut i: u32 = 0;
    while i < size
        invariant
            i <= size,
            space@ == Seq::new(i as nat, |j: int| 0u16),
        decreases size - i,
    {
        space.push(0);
        i = i + 1;
        assert(space@ =~= Seq::new(i as nat, |j: int| 0u16));
    }
    space
}

} // verus!
