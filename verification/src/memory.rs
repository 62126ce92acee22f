//! The core: a circular array of instructions.
//!
//! Every address is taken modulo the size of the core, so no address is ever
//! out of range, and every field held in the core is a residue of that size.

use vstd::prelude::*;
use crate::error::Error;
use crate::modular::{lemma_wrap_period, lemma_wrap_range, reduce, wrap, MAX_CORE_SIZE};
use crate::redcode::Insn;

verus! {

/// The instruction that fills a cleared core: `dat.f $0, $0`.
pub open spec fn blank() -> Insn {
    Insn { a: 0, b: 0, in_: 0 }
}

/// An instruction that a core of size `n` can hold: its control word decodes
/// and both fields are residues of `n`.
pub open spec fn cell_ok(insn: Insn, n: int) -> bool {
    insn.well_formed() && insn.a < n && insn.b < n
}

/// The contents of a valid core.
pub open spec fn cells_ok(cells: Seq<Insn>) -> bool {
    &&& 1 <= cells.len() <= MAX_CORE_SIZE
    &&& forall|i: int| 0 <= i < cells.len() ==> cell_ok(#[trigger] cells[i], cells.len() as int)
}

/// An instruction with both fields reduced modulo `n`.
pub open spec fn normalized(insn: Insn, n: int) -> Insn {
    Insn { a: wrap(insn.a as int, n) as u16, b: wrap(insn.b as int, n) as u16, in_: insn.in_ }
}

/// What a read at any address returns.
pub open spec fn read_at(cells: Seq<Insn>, addr: int) -> Insn {
    cells[wrap(addr, cells.len() as int)]
}

/// The core after a write at any address.
pub open spec fn written_at(cells: Seq<Insn>, addr: int, insn: Insn) -> Seq<Insn> {
    cells.update(wrap(addr, cells.len() as int), normalized(insn, cells.len() as int))
}

/// A core of `n` blank cells.
pub open spec fn blank_cells(n: nat) -> Seq<Insn> {
    Seq::new(n, |i: int| blank())
}

/// Addresses one whole turn of the core apart name the same cell, for reading
/// and for writing.
pub proof fn lemma_addresses_wrap(cells: Seq<Insn>, k: int, insn: Insn)
    requires
        cells.len() > 0,
    ensures
        read_at(cells, cells.len() + k) == read_at(cells, k),
        written_at(cells, cells.len() + k, insn) == written_at(cells, k, insn),
{
    lemma_wrap_period(k, cells.len() as int);
}

/// A write is seen by a read at the same address, and at no other cell.
pub proof fn lemma_read_written(cells: Seq<Insn>, addr: int, other: int, insn: Insn)
    requires
        cells.len() > 0,
    ensures
        read_at(written_at(cells, addr, insn), addr) == normalized(insn, cells.len() as int),
        wrap(other, cells.len() as int) != wrap(addr, cells.len() as int) ==> read_at(
            written_at(cells, addr, insn),
            other,
        ) == read_at(cells, other),
{
    lemma_wrap_range(addr, cells.len() as int);
    lemma_wrap_range(other, cells.len() as int);
}

/// An instruction whose fields are residues of the core size is held as it is.
pub proof fn lemma_normalized_in_range(insn: Insn, n: int)
    requires
        insn.a < n,
        insn.b < n,
    ensures
        normalized(insn, n) == insn,
{
    crate::modular::lemma_wrap_small(insn.a as int, n);
    crate::modular::lemma_wrap_small(insn.b as int, n);
}

/// The shared battlefield.
pub struct Core {
    cells: Vec<Insn>,
}

impl View for Core {
    type V = Seq<Insn>;

    closed spec fn view(&self) -> Seq<Insn> {
        self.cells@
    }
}

impl Core {
    /// The invariant of a core: at least one cell, and only instructions that
    /// the core can hold.
    pub open spec fn wf(&self) -> bool {
        cells_ok(self@)
    }

    /// A cleared core of `size` cells.
    pub fn new(size: u32) -> (core: Core)
        requires
            1 <= size <= MAX_CORE_SIZE,
        ensures
            core.wf(),
            core@ == blank_cells(size as nat),
    {
        let mut cells: Vec<Insn> = Vec::new();
        let mut i: u32 = 0;
        while i < size
            invariant
                i <= size,
                cells@ == blank_cells(i as nat),
            decreases size - i,
        {
            cells.push(Insn::default());
            i = i + 1;
            assert(cells@ =~= blank_cells(i as nat));
        }
        Core { cells }
    }

    /// The number of cells.
    pub fn size(&self) -> (n: u32)
        requires
            self.wf(),
        ensures
            n == self@.len(),
            1 <= n <= MAX_CORE_SIZE,
    {
        self.cells.len() as u32
    }

    /// The instruction at `addr`, counted round the core.
    pub fn read(&self, addr: u32) -> (insn: Insn)
        requires
            self.wf(),
        ensures
            insn == read_at(self@, addr as int),
            cell_ok(insn, self@.len() as int),
    {
        let n = self.size();
        let at = reduce(addr, n);
        self.cells[at as usize]
    }

    /// Puts `insn` at `addr`, counted round the core, with its fields reduced
    /// modulo the core size. An instruction whose control word does not
    /// decode is refused and the core stays as it was.
    pub fn write(&mut self, addr: u32, insn: Insn) -> (r: Result<(), Error>)
        requires
            old(self).wf(),
        ensures
            final(self).wf(),
            insn.well_formed() ==> r == Ok::<(), Error>(()) && final(self)@ == written_at(
                old(self)@,
                addr as int,
                insn,
            ),
            !insn.well_formed() ==> r == Err::<(), Error>(Error::MalformedInstruction)
                && final(self)@ == old(self)@,
    {
        if !insn.is_well_formed() {
            return Err(Error::MalformedInstruction);
        }
        let n = self.size();
        let at = reduce(addr, n);
        let a = reduce(insn.a as u32, n);
        let b = reduce(insn.b as u32, n);
        self.cells.set(at as usize, Insn { a: a as u16, b: b as u16, in_: insn.in_ });
        Ok(())
    }

    /// Resets every cell to `dat.f $0, $0`.
    pub fn clear(&mut self)
        requires
            old(self).wf(),
        ensures
            final(self).wf(),
            final(self)@ == blank_cells(old(self)@.len()),
    {
        let n = self.cells.len();
        let mut i: usize = 0;
        while i < n
            invariant
                i <= n,
                n == self.cells@.len(),
                n == old(self)@.len(),
                forall|j: int| 0 <= j < i ==> self.cells@[j] == blank(),
            decreases n - i,
        {
            self.cells.set(i, Insn::default());
            i = i + 1;
        }
        assert(self.cells@ =~= blank_cells(n as nat));
    }

    /// The instruction at an address inside the core.
    pub(crate) fn cell(&self, addr: u32) -> (insn: Insn)
        requires
            self.wf(),
            addr < self@.len(),
        ensures
            insn == self@[addr as int],
            cell_ok(insn, self@.len() as int),
    {
        self.cells[addr as usize]
    }

    /// Puts an instruction that the core can hold at an address inside it.
    pub(crate) fn store(&mut self, addr: u32, insn: Insn)
        requires
            old(self).wf(),
            addr < old(self)@.len(),
            cell_ok(insn, old(self)@.len() as int),
        ensures
            final(self).wf(),
            final(self)@ == old(self)@.update(addr as int, insn),
    {
        self.cells.set(addr as usize, insn);
    }
}

} // verus!
