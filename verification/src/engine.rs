//! The execution engine: what one instruction does to the core, to the
//! warrior's private storage and to the warrior's process.
//!
//! An instruction is executed in four stages. The A-operand is resolved, and
//! a pre-decrement that it asks for is committed. The B-operand is resolved
//! in the core that this leaves, with its own pre-decrement. The opcode then
//! acts on the instruction found at the A-address, as it stood before the
//! B-operand was resolved, and on the cell at the B-address. Last, the
//! post-increments are committed, that of the A-operand first.

use vstd::prelude::*;
use crate::memory::{cell_ok, Core};
use crate::modular::{
    add_mod,
    dec_mod,
    inc_mod,
    lemma_quotient_range,
    lemma_wrap_range,
    mul_mod,
    reduce,
    sub_mod,
    wrap,
    MAX_CORE_SIZE,
};
use crate::redcode::{decode, unpack, Field, Insn, Mode, Modifier, Opcode};

verus! {

/// One of the two numeric fields of an instruction.
#[derive(Copy, Clone, Debug, PartialEq, Eq, Structural)]
pub enum Side {
    A,
    B,
}

/// What becomes of the process that executed an instruction.
#[derive(Copy, Clone, Debug, PartialEq, Eq, Structural)]
pub enum StepOutcome {
    /// The process ends: it has no successor.
    Die,
    /// The process goes on at one address.
    Continue(Field),
    /// The process goes on at the first address and asks for a second
    /// process at the other, which the process cap may refuse.
    Split(Field, Field),
}

/// A resolved operand: the core after the operand's pre-decrement, the
/// effective address, and the cell and field of a pending post-increment.
pub struct Operand {
    pub cells: Seq<Insn>,
    pub addr: int,
    pub post: Option<(int, Side)>,
}

/// The state that one instruction leaves behind.
pub struct Effect {
    pub cells: Seq<Insn>,
    pub pspace: Seq<Field>,
    pub outcome: StepOutcome,
}

/// A private storage that a core of size `n` can work with: at least one
/// cell, and only residues of `n` in it.
pub open spec fn pspace_ok(pspace: Seq<Field>, n: int) -> bool {
    &&& 1 <= pspace.len() <= MAX_CORE_SIZE
    &&& forall|i: int| 0 <= i < pspace.len() ==> (#[trigger] pspace[i]) < n
}

/// One field of an instruction.
pub open spec fn field_of(insn: Insn, side: Side) -> int {
    match side {
        Side::A => insn.a as int,
        Side::B => insn.b as int,
    }
}

/// The instruction with one field replaced.
pub open spec fn with_field(insn: Insn, side: Side, value: int) -> Insn {
    match side {
        Side::A => Insn { a: value as u16, b: insn.b, in_: insn.in_ },
        Side::B => Insn { a: insn.a, b: value as u16, in_: insn.in_ },
    }
}

/// The cell with one field moved by `delta`, modulo `n`.
pub open spec fn bumped(insn: Insn, side: Side, delta: int, n: int) -> Insn {
    with_field(insn, side, wrap(field_of(insn, side) + delta, n))
}

/// The field through which an indirect mode goes, if the mode is indirect.
pub open spec fn spec_indirection(mode: Mode) -> Option<Side> {
    match mode {
        Mode::DIRECT | Mode::IMMEDIATE => None,
        Mode::AINDIRECT | Mode::APREDEC | Mode::APOSTINC => Some(Side::A),
        Mode::BINDIRECT | Mode::BPREDEC | Mode::BPOSTINC => Some(Side::B),
    }
}

/// Whether the mode decrements before it goes through the cell.
pub open spec fn spec_is_predec(mode: Mode) -> bool {
    mode == Mode::APREDEC || mode == Mode::BPREDEC
}

/// Whether the mode increments after the opcode has acted.
pub open spec fn spec_is_postinc(mode: Mode) -> bool {
    mode == Mode::APOSTINC || mode == Mode::BPOSTINC
}

/// Resolves an operand of the instruction at `pc`.
///
/// An immediate operand is the instruction itself. A direct operand is the
/// cell `field` away from `pc`. An indirect operand goes through that cell:
/// the chosen field of it, after a pre-decrement if the mode asks for one, is
/// the distance from that cell to the effective address.
pub open spec fn resolve(cells: Seq<Insn>, pc: int, mode: Mode, field: int) -> Operand {
    let n = cells.len() as int;
    let mid = wrap(pc + field, n);
    match spec_indirection(mode) {
        None => Operand {
            cells,
            addr: if mode == Mode::IMMEDIATE {
                pc
            } else {
                mid
            },
            post: None,
        },
        Some(side) => {
            let before = if spec_is_predec(mode) {
                cells.update(mid, bumped(cells[mid], side, -1, n))
            } else {
                cells
            };
            Operand {
                cells: before,
                addr: wrap(mid + field_of(before[mid], side), n),
                post: if spec_is_postinc(mode) {
                    Some((mid, side))
                } else {
                    None
                },
            }
        },
    }
}

/// Commits a pending post-increment.
pub open spec fn apply_post(cells: Seq<Insn>, post: Option<(int, Side)>) -> Seq<Insn> {
    match post {
        None => cells,
        Some((cell, side)) => cells.update(
            cell,
            bumped(cells[cell], side, 1, cells.len() as int),
        ),
    }
}

/// Whether the modifier names the A-field of the target.
pub open spec fn spec_names_a(modifier: Modifier) -> bool {
    match modifier {
        Modifier::A | Modifier::BA | Modifier::F | Modifier::X | Modifier::I => true,
        Modifier::B | Modifier::AB => false,
    }
}

/// Whether the modifier names the B-field of the target.
pub open spec fn spec_names_b(modifier: Modifier) -> bool {
    match modifier {
        Modifier::B | Modifier::AB | Modifier::F | Modifier::X | Modifier::I => true,
        Modifier::A | Modifier::BA => false,
    }
}

/// The field of the source that acts on the A-field of the target, if the
/// modifier names that field: the A-field of the source under `A`, `F` and
/// `I`, its B-field under `BA` and `X`.
pub open spec fn spec_a_source(modifier: Modifier, src: Insn) -> Option<Field> {
    match modifier {
        Modifier::A | Modifier::F | Modifier::I => Some(src.a),
        Modifier::BA | Modifier::X => Some(src.b),
        Modifier::B | Modifier::AB => None,
    }
}

/// The field of the source that acts on the B-field of the target, if the
/// modifier names that field: the B-field of the source under `B`, `F` and
/// `I`, its A-field under `AB` and `X`.
pub open spec fn spec_b_source(modifier: Modifier, src: Insn) -> Option<Field> {
    match modifier {
        Modifier::B | Modifier::F | Modifier::I => Some(src.b),
        Modifier::AB | Modifier::X => Some(src.a),
        Modifier::A | Modifier::BA => None,
    }
}

/// The result of an arithmetic opcode on a target field `x` and a source
/// field `s`, or `None` for a division by zero.
pub open spec fn spec_arith(op: Opcode, x: int, s: int, n: int) -> Option<int> {
    match op {
        Opcode::ADD => Some(wrap(x + s, n)),
        Opcode::SUB => Some(wrap(x - s, n)),
        Opcode::MUL => Some(wrap(x * s, n)),
        Opcode::DIV => if s == 0 {
            None
        } else {
            Some(x / s)
        },
        Opcode::MOD => if s == 0 {
            None
        } else {
            Some(x % s)
        },
        _ => Some(x),
    }
}

/// The new value of a target field under an arithmetic opcode: unchanged
/// where no source acts on it or where the source divides by zero.
pub open spec fn spec_arith_value(op: Opcode, x: int, s: Option<Field>, n: int) -> int {
    match s {
        None => x,
        Some(s) => match spec_arith(op, x, s as int, n) {
            Some(v) => v,
            None => x,
        },
    }
}

/// Whether an arithmetic opcode divides the target field by zero.
pub open spec fn spec_arith_fault(op: Opcode, x: int, s: Option<Field>, n: int) -> bool {
    s matches Some(s) && spec_arith(op, x, s as int, n).is_none()
}

/// The target after `MOV`: the whole source under `I`, else the target with
/// the fields that the modifier names taken from the source.
pub open spec fn spec_moved(modifier: Modifier, src: Insn, dst: Insn) -> Insn {
    if modifier == Modifier::I {
        src
    } else {
        Insn {
            a: match spec_a_source(modifier, src) {
                Some(s) => s,
                None => dst.a,
            },
            b: match spec_b_source(modifier, src) {
                Some(s) => s,
                None => dst.b,
            },
            in_: dst.in_,
        }
    }
}

/// The target after an arithmetic opcode.
pub open spec fn spec_computed(op: Opcode, modifier: Modifier, src: Insn, dst: Insn, n: int) -> Insn {
    Insn {
        a: spec_arith_value(op, dst.a as int, spec_a_source(modifier, src), n) as u16,
        b: spec_arith_value(op, dst.b as int, spec_b_source(modifier, src), n) as u16,
        in_: dst.in_,
    }
}

/// Whether an arithmetic opcode divides by zero in any field it works on.
pub open spec fn spec_faulted(op: Opcode, modifier: Modifier, src: Insn, dst: Insn, n: int) -> bool {
    spec_arith_fault(op, dst.a as int, spec_a_source(modifier, src), n) || spec_arith_fault(
        op,
        dst.b as int,
        spec_b_source(modifier, src),
        n,
    )
}

/// Whether source and target are equal in what the modifier names.
pub open spec fn spec_equal(modifier: Modifier, src: Insn, dst: Insn) -> bool {
    if modifier == Modifier::I {
        src == dst
    } else {
        &&& spec_a_source(modifier, src) matches Some(s) ==> s == dst.a
        &&& spec_b_source(modifier, src) matches Some(s) ==> s == dst.b
    }
}

/// Whether the source is less than the target in every field that the
/// modifier names.
pub open spec fn spec_less(modifier: Modifier, src: Insn, dst: Insn) -> bool {
    &&& spec_a_source(modifier, src) matches Some(s) ==> s < dst.a
    &&& spec_b_source(modifier, src) matches Some(s) ==> s < dst.b
}

/// Whether every field of the target that the modifier names is zero.
pub open spec fn spec_all_zero(modifier: Modifier, dst: Insn) -> bool {
    &&& spec_names_a(modifier) ==> dst.a == 0
    &&& spec_names_b(modifier) ==> dst.b == 0
}

/// The target with every field that the modifier names decremented.
pub open spec fn spec_decremented(modifier: Modifier, dst: Insn, n: int) -> Insn {
    Insn {
        a: if spec_names_a(modifier) {
            wrap(dst.a - 1, n) as u16
        } else {
            dst.a
        },
        b: if spec_names_b(modifier) {
            wrap(dst.b - 1, n) as u16
        } else {
            dst.b
        },
        in_: dst.in_,
    }
}

/// The number that `LDP` and `STP` take from the source: its A-field under
/// `A` and `AB`, its B-field under every other modifier.
pub open spec fn spec_carried(modifier: Modifier, src: Insn) -> Field {
    match modifier {
        Modifier::A | Modifier::AB => src.a,
        _ => src.b,
    }
}

/// The field of the target that `LDP` fills and whose value `STP` uses as
/// the place in private storage: the A-field under `A` and `BA`, the B-field
/// under every other modifier.
pub open spec fn spec_target_side(modifier: Modifier) -> Side {
    match modifier {
        Modifier::A | Modifier::BA => Side::A,
        _ => Side::B,
    }
}

/// What the opcode does once both operands are resolved.
///
/// `cells` is the core after both pre-decrements, `src` the instruction that
/// stood at the A-address before the B-operand was resolved, `a_addr` and
/// `b_addr` the two effective addresses.
pub open spec fn execute(
    op: Opcode,
    modifier: Modifier,
    cells: Seq<Insn>,
    pspace: Seq<Field>,
    pc: int,
    a_addr: int,
    src: Insn,
    b_addr: int,
) -> Effect {
    let n = cells.len() as int;
    let dst = cells[b_addr];
    let next = StepOutcome::Continue(wrap(pc + 1, n) as Field);
    let skip = StepOutcome::Continue(wrap(pc + 2, n) as Field);
    let jump = StepOutcome::Continue(a_addr as Field);
    match op {
        Opcode::DAT => Effect { cells, pspace, outcome: StepOutcome::Die },
        Opcode::NOP => Effect { cells, pspace, outcome: next },
        Opcode::JMP => Effect { cells, pspace, outcome: jump },
        Opcode::SPL => Effect {
            cells,
            pspace,
            outcome: StepOutcome::Split(wrap(pc + 1, n) as Field, a_addr as Field),
        },
        Opcode::MOV => Effect {
            cells: cells.update(b_addr, spec_moved(modifier, src, dst)),
            pspace,
            outcome: next,
        },
        Opcode::ADD | Opcode::SUB | Opcode::MUL | Opcode::DIV | Opcode::MOD => Effect {
            cells: cells.update(b_addr, spec_computed(op, modifier, src, dst, n)),
            pspace,
            outcome: if spec_faulted(op, modifier, src, dst, n) {
                StepOutcome::Die
            } else {
                next
            },
        },
        Opcode::JMZ => Effect {
            cells,
            pspace,
            outcome: if spec_all_zero(modifier, dst) {
                jump
            } else {
                next
            },
        },
        Opcode::JMN => Effect {
            cells,
            pspace,
            outcome: if spec_all_zero(modifier, dst) {
                next
            } else {
                jump
            },
        },
        Opcode::DJN => Effect {
            cells: cells.update(b_addr, spec_decremented(modifier, dst, n)),
            pspace,
            outcome: if spec_all_zero(modifier, spec_decremented(modifier, dst, n)) {
                next
            } else {
                jump
            },
        },
        Opcode::SEQ => Effect {
            cells,
            pspace,
            outcome: if spec_equal(modifier, src, dst) {
                skip
            } else {
                next
            },
        },
        Opcode::SNE => Effect {
            cells,
            pspace,
            outcome: if spec_equal(modifier, src, dst) {
                next
            } else {
                skip
            },
        },
        Opcode::SLT => Effect {
            cells,
            pspace,
            outcome: if spec_less(modifier, src, dst) {
                skip
            } else {
                next
            },
        },
        Opcode::LDP => Effect {
            cells: cells.update(
                b_addr,
                with_field(
                    dst,
                    spec_target_side(modifier),
                    pspace[wrap(spec_carried(modifier, src) as int, pspace.len() as int)] as int,
                ),
            ),
            pspace,
            outcome: next,
        },
        Opcode::STP => Effect {
            cells,
            pspace: pspace.update(
                wrap(field_of(dst, spec_target_side(modifier)), pspace.len() as int),
                spec_carried(modifier, src),
            ),
            outcome: next,
        },
    }
}

/// What the instruction at `pc` does: the core and the private storage that
/// it leaves, and what becomes of the process.
pub open spec fn step_spec(cells: Seq<Insn>, pspace: Seq<Field>, pc: int) -> Effect {
    let ir = cells[pc];
    let (op, modifier, a_mode, b_mode) = unpack(ir.in_)->Ok_0;
    let oa = resolve(cells, pc, a_mode, ir.a as int);
    let src = oa.cells[oa.addr];
    let ob = resolve(oa.cells, pc, b_mode, ir.b as int);
    let e = execute(op, modifier, ob.cells, pspace, pc, oa.addr, src, ob.addr);
    Effect {
        cells: apply_post(apply_post(e.cells, oa.post), ob.post),
        pspace: e.pspace,
        outcome: e.outcome,
    }
}

/// Resolving an operand keeps the core valid and yields addresses inside it.
pub proof fn lemma_resolve_in_core(cells: Seq<Insn>, pc: int, mode: Mode, field: int)
    requires
        crate::memory::cells_ok(cells),
        0 <= pc < cells.len(),
        0 <= field < cells.len(),
    ensures
        ({
            let o = resolve(cells, pc, mode, field);
            &&& crate::memory::cells_ok(o.cells)
            &&& o.cells.len() == cells.len()
            &&& 0 <= o.addr < cells.len()
            &&& o.post matches Some((cell, _)) ==> 0 <= cell < cells.len()
        }),
{
    let n = cells.len() as int;
    let mid = wrap(pc + field, n);
    lemma_wrap_range(pc + field, n);
    match spec_indirection(mode) {
        None => {},
        Some(side) => {
            lemma_wrap_range(field_of(cells[mid], side) - 1, n);
            let before = resolve(cells, pc, mode, field).cells;
            lemma_wrap_range(mid + field_of(before[mid], side), n);
        },
    }
}

/// Committing a post-increment keeps the core valid.
pub proof fn lemma_post_in_core(cells: Seq<Insn>, post: Option<(int, Side)>)
    requires
        crate::memory::cells_ok(cells),
        post matches Some((cell, _)) ==> 0 <= cell < cells.len(),
    ensures
        crate::memory::cells_ok(apply_post(cells, post)),
        apply_post(cells, post).len() == cells.len(),
{
    match post {
        None => {},
        Some((cell, side)) => {
            lemma_wrap_range(field_of(cells[cell], side) + 1, cells.len() as int);
        },
    }
}

/// The new value of a field under an arithmetic opcode is a residue again.
pub proof fn lemma_arith_in_range(op: Opcode, x: int, s: Option<Field>, n: int)
    requires
        0 < n,
        0 <= x < n,
    ensures
        0 <= spec_arith_value(op, x, s, n) < n,
{
    match s {
        None => {},
        Some(v) => {
            lemma_wrap_range(x + v, n);
            lemma_wrap_range(x - v, n);
            lemma_wrap_range(x * v, n);
            if v != 0 {
                lemma_quotient_range(x, v as int, n);
            }
        },
    }
}

/// Whatever the opcode does, it leaves a valid core, valid private storage
/// and successors inside the core.
pub proof fn lemma_execute_in_core(
    op: Opcode,
    modifier: Modifier,
    cells: Seq<Insn>,
    pspace: Seq<Field>,
    pc: int,
    a_addr: int,
    src: Insn,
    b_addr: int,
)
    requires
        crate::memory::cells_ok(cells),
        pspace_ok(pspace, cells.len() as int),
        0 <= pc < cells.len(),
        0 <= a_addr < cells.len(),
        0 <= b_addr < cells.len(),
        cell_ok(src, cells.len() as int),
    ensures
        ({
            let e = execute(op, modifier, cells, pspace, pc, a_addr, src, b_addr);
            &&& crate::memory::cells_ok(e.cells)
            &&& e.cells.len() == cells.len()
            &&& pspace_ok(e.pspace, cells.len() as int)
            &&& e.pspace.len() == pspace.len()
            &&& outcome_ok(e.outcome, cells.len() as int)
        }),
{
    let n = cells.len() as int;
    let dst = cells[b_addr];
    lemma_wrap_range(pc + 1, n);
    lemma_wrap_range(pc + 2, n);
    lemma_arith_in_range(op, dst.a as int, spec_a_source(modifier, src), n);
    lemma_arith_in_range(op, dst.b as int, spec_b_source(modifier, src), n);
    lemma_wrap_range(dst.a - 1, n);
    lemma_wrap_range(dst.b - 1, n);
    lemma_wrap_range(spec_carried(modifier, src) as int, pspace.len() as int);
    lemma_wrap_range(field_of(dst, spec_target_side(modifier)), pspace.len() as int);
}

/// An instruction executed in a valid core, at an address inside it, leaves
/// a valid core of the same size, valid private storage and successors
/// inside the core: no address is ever out of range.
pub proof fn lemma_step_in_core(cells: Seq<Insn>, pspace: Seq<Field>, pc: int)
    requires
        crate::memory::cells_ok(cells),
        pspace_ok(pspace, cells.len() as int),
        0 <= pc < cells.len(),
    ensures
        ({
            let e = step_spec(cells, pspace, pc);
            &&& crate::memory::cells_ok(e.cells)
            &&& e.cells.len() == cells.len()
            &&& pspace_ok(e.pspace, cells.len() as int)
            &&& e.pspace.len() == pspace.len()
            &&& outcome_ok(e.outcome, cells.len() as int)
        }),
{
    let ir = cells[pc];
    let (op, modifier, a_mode, b_mode) = unpack(ir.in_)->Ok_0;
    lemma_resolve_in_core(cells, pc, a_mode, ir.a as int);
    let oa = resolve(cells, pc, a_mode, ir.a as int);
    lemma_resolve_in_core(oa.cells, pc, b_mode, ir.b as int);
    let ob = resolve(oa.cells, pc, b_mode, ir.b as int);
    lemma_execute_in_core(op, modifier, ob.cells, pspace, pc, oa.addr, oa.cells[oa.addr], ob.addr);
    let e = execute(op, modifier, ob.cells, pspace, pc, oa.addr, oa.cells[oa.addr], ob.addr);
    lemma_post_in_core(e.cells, oa.post);
    lemma_post_in_core(apply_post(e.cells, oa.post), ob.post);
}

/// A pre-decrement of a field that holds zero leaves the last residue in it,
/// not a negative number, and the operand is resolved through that value.
pub proof fn lemma_predec_of_zero(cells: Seq<Insn>, pc: int, mode: Mode, field: int)
    requires
        1 <= cells.len() <= MAX_CORE_SIZE,
        spec_is_predec(mode),
        field_of(
            cells[wrap(pc + field, cells.len() as int)],
            spec_indirection(mode)->Some_0,
        ) == 0,
    ensures
        ({
            let n = cells.len() as int;
            let mid = wrap(pc + field, n);
            let o = resolve(cells, pc, mode, field);
            &&& field_of(o.cells[mid], spec_indirection(mode)->Some_0) == n - 1
            &&& o.addr == wrap(mid + n - 1, n)
        }),
{
    let n = cells.len() as int;
    lemma_wrap_range(pc + field, n);
    crate::modular::lemma_wrap_minus_one(n);
}

/// A process that executes `DAT` ends, whatever the modifier and the
/// operands are, and private storage stays as it is.
pub proof fn lemma_dat_ends_process(cells: Seq<Insn>, pspace: Seq<Field>, pc: int)
    requires
        cells[pc].well_formed(),
        cells[pc].spec_opcode() == Opcode::DAT,
    ensures
        step_spec(cells, pspace, pc).outcome == StepOutcome::Die,
        step_spec(cells, pspace, pc).pspace == pspace,
{
}

/// What `STP` stores, a later `LDP` that names the same place loads, in
/// whatever core it runs: private storage does not depend on the core.
pub proof fn lemma_stored_is_loaded(
    modifier: Modifier,
    cells: Seq<Insn>,
    pspace: Seq<Field>,
    pc: int,
    src: Insn,
    b_addr: int,
    later_modifier: Modifier,
    later_cells: Seq<Insn>,
    later_pc: int,
    later_src: Insn,
    later_b_addr: int,
)
    requires
        pspace.len() > 0,
        0 <= later_b_addr < later_cells.len(),
        wrap(spec_carried(later_modifier, later_src) as int, pspace.len() as int) == wrap(
            field_of(cells[b_addr], spec_target_side(modifier)),
            pspace.len() as int,
        ),
    ensures
        ({
            let stored = execute(Opcode::STP, modifier, cells, pspace, pc, 0, src, b_addr);
            let loaded = execute(
                Opcode::LDP,
                later_modifier,
                later_cells,
                stored.pspace,
                later_pc,
                0,
                later_src,
                later_b_addr,
            );
            &&& stored.cells == cells
            &&& loaded.pspace == stored.pspace
            &&& field_of(loaded.cells[later_b_addr], spec_target_side(later_modifier))
                == spec_carried(modifier, src)
        }),
{
    lemma_wrap_range(field_of(cells[b_addr], spec_target_side(modifier)), pspace.len() as int);
}

/// An outcome whose successors are addresses of a core of size `n`.
pub open spec fn outcome_ok(outcome: StepOutcome, n: int) -> bool {
    match outcome {
        StepOutcome::Die => true,
        StepOutcome::Continue(pc) => pc < n,
        StepOutcome::Split(pc, child) => pc < n && child < n,
    }
}

/// A pending post-increment as the engine holds it while it runs.
pub open spec fn post_view(post: Option<(u32, Side)>) -> Option<(int, Side)> {
    match post {
        None => None,
        Some((cell, side)) => Some((cell as int, side)),
    }
}

fn indirection(mode: Mode) -> (r: Option<Side>)
    ensures
        r == spec_indirection(mode),
{
    match mode {
        Mode::DIRECT | Mode::IMMEDIATE => None,
        Mode::AINDIRECT | Mode::APREDEC | Mode::APOSTINC => Some(Side::A),
        Mode::BINDIRECT | Mode::BPREDEC | Mode::BPOSTINC => Some(Side::B),
    }
}

fn is_predec(mode: Mode) -> (r: bool)
    ensures
        r == spec_is_predec(mode),
{
    match mode {
        Mode::APREDEC | Mode::BPREDEC => true,
        _ => false,
    }
}

fn is_postinc(mode: Mode) -> (r: bool)
    ensures
        r == spec_is_postinc(mode),
{
    match mode {
        Mode::APOSTINC | Mode::BPOSTINC => true,
        _ => false,
    }
}

fn get_field(insn: Insn, side: Side) -> (r: Field)
    ensures
        r == field_of(insn, side),
{
    match side {
        Side::A => insn.a,
        Side::B => insn.b,
    }
}

fn set_field(insn: Insn, side: Side, value: Field) -> (r: Insn)
    ensures
        r == with_field(insn, side, value as int),
{
    match side {
        Side::A => Insn { a: value, b: insn.b, in_: insn.in_ },
        Side::B => Insn { a: insn.a, b: value, in_: insn.in_ },
    }
}

fn names_a(modifier: Modifier) -> (r: bool)
    ensures
        r == spec_names_a(modifier),
{
    match modifier {
        Modifier::B | Modifier::AB => false,
        _ => true,
    }
}

fn names_b(modifier: Modifier) -> (r: bool)
    ensures
        r == spec_names_b(modifier),
{
    match modifier {
        Modifier::A | Modifier::BA => false,
        _ => true,
    }
}

fn a_source(modifier: Modifier, src: Insn) -> (r: Option<Field>)
    ensures
        r == spec_a_source(modifier, src),
{
    match modifier {
        Modifier::A | Modifier::F | Modifier::I => Some(src.a),
        Modifier::BA | Modifier::X => Some(src.b),
        Modifier::B | Modifier::AB => None,
    }
}

fn b_source(modifier: Modifier, src: Insn) -> (r: Option<Field>)
    ensures
        r == spec_b_source(modifier, src),
{
    match modifier {
        Modifier::B | Modifier::F | Modifier::I => Some(src.b),
        Modifier::AB | Modifier::X => Some(src.a),
        Modifier::A | Modifier::BA => None,
    }
}

fn carried(modifier: Modifier, src: Insn) -> (r: Field)
    ensures
        r == spec_carried(modifier, src),
{
    match modifier {
        Modifier::A | Modifier::AB => src.a,
        _ => src.b,
    }
}

fn target_side(modifier: Modifier) -> (r: Side)
    ensures
        r == spec_target_side(modifier),
{
    match modifier {
        Modifier::A | Modifier::BA => Side::A,
        _ => Side::B,
    }
}

/// Moves one field of a cell of the core by one, up or down.
fn bump(core: &mut Core, cell: u32, side: Side, up: bool)
    requires
        old(core).wf(),
        cell < old(core)@.len(),
    ensures
        final(core).wf(),
        final(core)@ == old(core)@.update(
            cell as int,
            bumped(
                old(core)@[cell as int],
                side,
                if up {
                    1
                } else {
                    -1
                },
                old(core)@.len() as int,
            ),
        ),
{
    let n = core.size();
    let insn = core.cell(cell);
    let v = get_field(insn, side) as u32;
    let w = if up {
        inc_mod(v, n)
    } else {
        dec_mod(v, n)
    };
    core.store(cell, set_field(insn, side, w as Field));
}

/// Resolves an operand and commits its pre-decrement.
fn resolve_operand(core: &mut Core, pc: u32, mode: Mode, field: Field) -> (r: (
    u32,
    Option<(u32, Side)>,
))
    requires
        old(core).wf(),
        pc < old(core)@.len(),
        field < old(core)@.len(),
    ensures
        final(core).wf(),
        final(core)@.len() == old(core)@.len(),
        r.0 < old(core)@.len(),
        r.1 matches Some((cell, _)) ==> cell < old(core)@.len(),
        ({
            let o = resolve(old(core)@, pc as int, mode, field as int);
            final(core)@ == o.cells && r.0 == o.addr && post_view(r.1) == o.post
        }),
{
    let n = core.size();
    let mid = add_mod(pc, field as u32, n);
    match indirection(mode) {
        None => {
            match mode {
                Mode::IMMEDIATE => (pc, None),
                _ => (mid, None),
            }
        },
        Some(side) => {
            if is_predec(mode) {
                bump(core, mid, side, false);
            }
            let through = get_field(core.cell(mid), side) as u32;
            let addr = add_mod(mid, through, n);
            if is_postinc(mode) {
                (addr, Some((mid, side)))
            } else {
                (addr, None)
            }
        },
    }
}

/// Commits a pending post-increment.
fn commit_post(core: &mut Core, post: Option<(u32, Side)>)
    requires
        old(core).wf(),
        post matches Some((cell, _)) ==> cell < old(core)@.len(),
    ensures
        final(core).wf(),
        final(core)@.len() == old(core)@.len(),
        final(core)@ == apply_post(old(core)@, post_view(post)),
{
    match post {
        None => {},
        Some((cell, side)) => {
            bump(core, cell, side, true);
        },
    }
}

/// One field under an arithmetic opcode: its new value, and whether the
/// opcode divided by zero.
fn arith_field(op: Opcode, x: Field, s: Option<Field>, n: u32) -> (r: (Field, bool))
    requires
        0 < n <= MAX_CORE_SIZE,
        x < n,
        s matches Some(v) ==> v < n,
    ensures
        r.0 == spec_arith_value(op, x as int, s, n as int),
        r.1 == spec_arith_fault(op, x as int, s, n as int),
        r.0 < n,
{
    match s {
        None => (x, false),
        Some(v) => {
            match op {
                Opcode::ADD => (add_mod(x as u32, v as u32, n) as Field, false),
                Opcode::SUB => (sub_mod(x as u32, v as u32, n) as Field, false),
                Opcode::MUL => (mul_mod(x as u32, v as u32, n) as Field, false),
                Opcode::DIV => {
                    if v == 0 {
                        (x, true)
                    } else {
                        proof {
                            lemma_quotient_range(x as int, v as int, n as int);
                        }
                        (x / v, false)
                    }
                },
                Opcode::MOD => {
                    if v == 0 {
                        (x, true)
                    } else {
                        proof {
                            lemma_quotient_range(x as int, v as int, n as int);
                        }
                        (x % v, false)
                    }
                },
                _ => (x, false),
            }
        },
    }
}

fn equal(modifier: Modifier, src: Insn, dst: Insn) -> (r: bool)
    ensures
        r == spec_equal(modifier, src, dst),
{
    match modifier {
        Modifier::I => src.a == dst.a && src.b == dst.b && src.in_ == dst.in_,
        _ => {
            let ea = match a_source(modifier, src) {
                Some(s) => s == dst.a,
                None => true,
            };
            let eb = match b_source(modifier, src) {
                Some(s) => s == dst.b,
                None => true,
            };
            ea && eb
        },
    }
}

fn less(modifier: Modifier, src: Insn, dst: Insn) -> (r: bool)
    ensures
        r == spec_less(modifier, src, dst),
{
    let la = match a_source(modifier, src) {
        Some(s) => s < dst.a,
        None => true,
    };
    let lb = match b_source(modifier, src) {
        Some(s) => s < dst.b,
        None => true,
    };
    la && lb
}

fn all_zero(modifier: Modifier, dst: Insn) -> (r: bool)
    ensures
        r == spec_all_zero(modifier, dst),
{
    (!names_a(modifier) || dst.a == 0) && (!names_b(modifier) || dst.b == 0)
}

fn decremented(modifier: Modifier, dst: Insn, n: u32) -> (r: Insn)
    requires
        0 < n <= MAX_CORE_SIZE,
        cell_ok(dst, n as int),
    ensures
        r == spec_decremented(modifier, dst, n as int),
        cell_ok(r, n as int),
{
    let a = if names_a(modifier) {
        dec_mod(dst.a as u32, n) as Field
    } else {
        dst.a
    };
    let b = if names_b(modifier) {
        dec_mod(dst.b as u32, n) as Field
    } else {
        dst.b
    };
    Insn { a, b, in_: dst.in_ }
}

/// Carries out the opcode once both operands are resolved.
fn execute_op(
    op: Opcode,
    modifier: Modifier,
    core: &mut Core,
    pspace: &mut Vec<Field>,
    pc: u32,
    a_addr: u32,
    src: Insn,
    b_addr: u32,
) -> (outcome: StepOutcome)
    requires
        old(core).wf(),
        pspace_ok(old(pspace)@, old(core)@.len() as int),
        pc < old(core)@.len(),
        a_addr < old(core)@.len(),
        b_addr < old(core)@.len(),
        cell_ok(src, old(core)@.len() as int),
    ensures
        final(core).wf(),
        final(core)@.len() == old(core)@.len(),
        pspace_ok(final(pspace)@, old(core)@.len() as int),
        final(pspace)@.len() == old(pspace)@.len(),
        outcome_ok(outcome, old(core)@.len() as int),
        ({
            let e = execute(
                op,
                modifier,
                old(core)@,
                old(pspace)@,
                pc as int,
                a_addr as int,
                src,
                b_addr as int,
            );
            final(core)@ == e.cells && final(pspace)@ == e.pspace && outcome == e.outcome
        }),
{
    let n = core.size();
    let dst = core.cell(b_addr);
    let next = StepOutcome::Continue(inc_mod(pc, n) as Field);
    let jump = StepOutcome::Continue(a_addr as Field);
    match op {
        Opcode::DAT => StepOutcome::Die,
        Opcode::NOP => next,
        Opcode::JMP => jump,
        Opcode::SPL => StepOutcome::Split(inc_mod(pc, n) as Field, a_addr as Field),
        Opcode::MOV => {
            let moved = match modifier {
                Modifier::I => src,
                _ => Insn {
                    a: match a_source(modifier, src) {
                        Some(s) => s,
                        None => dst.a,
                    },
                    b: match b_source(modifier, src) {
                        Some(s) => s,
                        None => dst.b,
                    },
                    in_: dst.in_,
                },
            };
            core.store(b_addr, moved);
            next
        },
        Opcode::ADD | Opcode::SUB | Opcode::MUL | Opcode::DIV | Opcode::MOD => {
            let (a, fault_a) = arith_field(op, dst.a, a_source(modifier, src), n);
            let (b, fault_b) = arith_field(op, dst.b, b_source(modifier, src), n);
            core.store(b_addr, Insn { a, b, in_: dst.in_ });
            if fault_a || fault_b {
                StepOutcome::Die
            } else {
                next
            }
        },
        Opcode::JMZ => {
            if all_zero(modifier, dst) {
                jump
            } else {
                next
            }
        },
        Opcode::JMN => {
            if all_zero(modifier, dst) {
                next
            } else {
                jump
            }
        },
        Opcode::DJN => {
            let less_one = decremented(modifier, dst, n);
            core.store(b_addr, less_one);
            if all_zero(modifier, less_one) {
                next
            } else {
                jump
            }
        },
        Opcode::SEQ => {
            if equal(modifier, src, dst) {
                StepOutcome::Continue(reduce(pc + 2, n) as Field)
            } else {
                next
            }
        },
        Opcode::SNE => {
            if equal(modifier, src, dst) {
                next
            } else {
                StepOutcome::Continue(reduce(pc + 2, n) as Field)
            }
        },
        Opcode::SLT => {
            if less(modifier, src, dst) {
                StepOutcome::Continue(reduce(pc + 2, n) as Field)
            } else {
                next
            }
        },
        Opcode::LDP => {
            let at = reduce(carried(modifier, src) as u32, pspace.len() as u32);
            let value = pspace[at as usize];
            core.store(b_addr, set_field(dst, target_side(modifier), value));
            next
        },
        Opcode::STP => {
            let key = get_field(dst, target_side(modifier));
            let at = reduce(key as u32, pspace.len() as u32);
            pspace.set(at as usize, carried(modifier, src));
            next
        },
    }
}

/// Executes the instruction at `pc` for one process: resolves both operands
/// with their side effects, carries out the opcode, and returns what becomes
/// of the process.
pub fn step(core: &mut Core, pspace: &mut Vec<Field>, pc: Field) -> (outcome: StepOutcome)
    requires
        old(core).wf(),
        pspace_ok(old(pspace)@, old(core)@.len() as int),
        pc < old(core)@.len(),
    ensures
        final(core).wf(),
        final(core)@.len() == old(core)@.len(),
        pspace_ok(final(pspace)@, old(core)@.len() as int),
        final(pspace)@.len() == old(pspace)@.len(),
        outcome_ok(outcome, old(core)@.len() as int),
        ({
            let e = step_spec(old(core)@, old(pspace)@, pc as int);
            final(core)@ == e.cells && final(pspace)@ == e.pspace && outcome == e.outcome
        }),
{
    let ir = core.cell(pc as u32);
    match decode(ir.in_) {
        Ok((op, modifier, a_mode, b_mode)) => {
            let (a_addr, a_post) = resolve_operand(core, pc as u32, a_mode, ir.a);
            let src = core.cell(a_addr);
            let (b_addr, b_post) = resolve_operand(core, pc as u32, b_mode, ir.b);
            let outcome = execute_op(op, modifier, core, pspace, pc as u32, a_addr, src, b_addr);
            commit_post(core, a_post);
            commit_post(core, b_post);
            outcome
        },
        Err(_) => vstd::pervasive::unreached(),
    }
}

} // verus!
