//! The process queues: for each warrior a ring of program counters, served
//! first in, first out.
//!
//! A warrior lives while its queue holds a process. No queue ever holds more
//! processes than the cap that the scheduler was made with.

use vstd::prelude::*;
use crate::redcode::Field;

verus! {

/// The slot of the `i`-th entry of a ring that starts at `head`.
pub open spec fn slot_of(head: int, i: int, capacity: int) -> int {
    if head + i < capacity {
        head + i
    } else {
        head + i - capacity
    }
}

/// The program counters of one warrior, oldest first, in a ring of fixed
/// capacity.
pub struct ProcessQueue {
    slots: Vec<Field>,
    head: usize,
    len: usize,
}

impl View for ProcessQueue {
    type V = Seq<Field>;

    closed spec fn view(&self) -> Seq<Field> {
        Seq::new(
            self.len as nat,
            |i: int| self.slots@[slot_of(self.head as int, i, self.slots@.len() as int)],
        )
    }
}

impl ProcessQueue {
    /// The invariant of the ring.
    pub closed spec fn wf(&self) -> bool {
        &&& self.slots@.len() >= 1
        &&& self.slots@.len() <= u32::MAX
        &&& self.head < self.slots@.len()
        &&& self.len <= self.slots@.len()
    }

    /// How many processes the ring can hold.
    pub closed spec fn capacity(&self) -> nat {
        self.slots@.len()
    }

    /// A queue never holds more than its capacity.
    pub proof fn lemma_len_bound(&self)
        requires
            self.wf(),
        ensures
            self@.len() <= self.capacity(),
            1 <= self.capacity() <= u32::MAX,
    {
    }

    /// An empty queue for up to `capacity` processes.
    pub fn new(capacity: u32) -> (q: ProcessQueue)
        requires
            capacity >= 1,
        ensures
            q.wf(),
            q.capacity() == capacity,
            q@ == Seq::<Field>::empty(),
    {
        let mut slots: Vec<Field> = Vec::new();
        let mut i: u32 = 0;
        while i < capacity
            invariant
                i <= capacity,
                slots@.len() == i,
            decreases capacity - i,
        {
            slots.push(0);
            i = i + 1;
        }
        let q = ProcessQueue { slots, head: 0, len: 0 };
        assert(q@ =~= Seq::<Field>::empty());
        q
    }

    /// The number of processes in the queue.
    pub fn len(&self) -> (n: u32)
        requires
            self.wf(),
        ensures
            n == self@.len(),
            n <= self.capacity(),
    {
        self.len as u32
    }

    /// Takes the oldest process off the queue, if there is one.
    pub fn pop_front(&mut self) -> (r: Option<Field>)
        requires
            old(self).wf(),
        ensures
            final(self).wf(),
            final(self).capacity() == old(self).capacity(),
            old(self)@.len() == 0 ==> r.is_none() && final(self)@ == old(self)@,
            old(self)@.len() > 0 ==> r == Some(old(self)@[0]) && final(self)@ == old(self)@.drop_first(),
    {
        if self.len == 0 {
            return None;
        }
        let pc = self.slots[self.head];
        let next = if self.head + 1 == self.slots.len() {
            0
        } else {
            self.head + 1
        };
        self.head = next;
        self.len = self.len - 1;
        assert(self@ =~= old(self)@.drop_first());
        Some(pc)
    }

    /// Puts a process at the tail of the queue.
    pub fn push_back(&mut self, pc: Field)
        requires
            old(self).wf(),
            old(self)@.len() < old(self).capacity(),
        ensures
            final(self).wf(),
            final(self).capacity() == old(self).capacity(),
            final(self)@ == old(self)@.push(pc),
    {
        let cap = self.slots.len();
        let at = if self.len >= cap - self.head {
            self.len - (cap - self.head)
        } else {
            self.head + self.len
        };
        self.slots.set(at, pc);
        self.len = self.len + 1;
        assert(self@ =~= old(self)@.push(pc));
    }

    /// Empties the queue.
    pub fn clear(&mut self)
        requires
            old(self).wf(),
        ensures
            final(self).wf(),
            final(self).capacity() == old(self).capacity(),
            final(self)@ == Seq::<Field>::empty(),
    {
        self.head = 0;
        self.len = 0;
        assert(self@ =~= Seq::<Field>::empty());
    }
}

/// Queues in which no warrior holds more than `cap` processes.
pub open spec fn within_cap(queues: Seq<Seq<Field>>, cap: int) -> bool {
    forall|w: int| 0 <= w < queues.len() ==> (#[trigger] queues[w]).len() <= cap
}

/// The queues after warrior `w` gave up its oldest process.
pub open spec fn after_next(queues: Seq<Seq<Field>>, w: int) -> Seq<Seq<Field>> {
    if queues[w].len() > 0 {
        queues.update(w, queues[w].drop_first())
    } else {
        queues
    }
}

/// The queues after `pc` joined the tail of warrior `w`.
pub open spec fn after_reschedule(queues: Seq<Seq<Field>>, w: int, pc: Field) -> Seq<
    Seq<Field>,
> {
    queues.update(w, queues[w].push(pc))
}

/// The queues after warrior `w` tried to spawn `pc` under the cap: below the
/// cap the process joins the tail, at the cap nothing changes.
pub open spec fn after_spawn(queues: Seq<Seq<Field>>, w: int, pc: Field, cap: int) -> Seq<
    Seq<Field>,
> {
    if queues[w].len() < cap {
        after_reschedule(queues, w, pc)
    } else {
        queues
    }
}

/// A spawn never takes a warrior over the cap.
pub proof fn lemma_spawn_within_cap(queues: Seq<Seq<Field>>, w: int, pc: Field, cap: int)
    requires
        0 <= w < queues.len(),
        within_cap(queues, cap),
    ensures
        within_cap(after_spawn(queues, w, pc, cap), cap),
        queues[w].len() == cap ==> after_spawn(queues, w, pc, cap) == queues,
{
}

/// The process queues of all warriors.
pub struct Scheduler {
    queues: Vec<ProcessQueue>,
    max_processes: u32,
}

impl View for Scheduler {
    type V = Seq<Seq<Field>>;

    closed spec fn view(&self) -> Seq<Seq<Field>> {
        Seq::new(self.queues@.len(), |w: int| self.queues@[w]@)
    }
}

impl Scheduler {
    /// The invariant of the scheduler: each ring is sound and has room for
    /// exactly the cap, so no warrior is ever over it.
    pub closed spec fn wf(&self) -> bool {
        &&& self.max_processes >= 1
        &&& self.queues@.len() <= u32::MAX
        &&& forall|w: int|
            0 <= w < self.queues@.len() ==> (#[trigger] self.queues@[w]).wf()
                && self.queues@[w].capacity() == self.max_processes
    }

    /// The most processes that one warrior can hold.
    pub closed spec fn cap(&self) -> nat {
        self.max_processes as nat
    }

    /// No warrior of a sound scheduler is over the cap.
    pub proof fn lemma_within_cap(&self)
        requires
            self.wf(),
        ensures
            within_cap(self@, self.cap() as int),
            self.cap() >= 1,
            self@.len() <= u32::MAX,
    {
        assert forall|w: int| 0 <= w < self@.len() implies (#[trigger] self@[w]).len()
            <= self.cap() by {
            self.queues@[w].lemma_len_bound();
        }
    }

    /// A scheduler for `num_warriors` warriors, none of which has a process yet.
    pub fn new(num_warriors: u32, max_processes: u32) -> (s: Scheduler)
        requires
            max_processes >= 1,
        ensures
            s.wf(),
            s.cap() == max_processes,
            s@ == Seq::new(num_warriors as nat, |w: int| Seq::<Field>::empty()),
    {
        let mut queues: Vec<ProcessQueue> = Vec::new();
        let mut i: u32 = 0;
        while i < num_warriors
            invariant
                i <= num_warriors,
                max_processes >= 1,
                queues@.len() == i,
                forall|w: int|
                    0 <= w < i ==> (#[trigger] queues@[w]).wf() && queues@[w].capacity()
                        == max_processes && queues@[w]@ == Seq::<Field>::empty(),
            decreases num_warriors - i,
        {
            queues.push(ProcessQueue::new(max_processes));
            i = i + 1;
        }
        let s = Scheduler { queues, max_processes };
        assert(s@ =~= Seq::new(num_warriors as nat, |w: int| Seq::<Field>::empty()));
        s
    }

    /// The number of warriors.
    pub fn num_warriors(&self) -> (n: u32)
        requires
            self.wf(),
        ensures
            n == self@.len(),
    {
        self.queues.len() as u32
    }

    /// The cap on the processes of one warrior.
    pub fn max_processes(&self) -> (n: u32)
        ensures
            n == self.cap(),
    {
        self.max_processes
    }

    /// The number of live processes of a warrior.
    pub fn count(&self, warrior: u32) -> (n: u32)
        requires
            self.wf(),
            warrior < self@.len(),
        ensures
            n == self@[warrior as int].len(),
            n <= self.cap(),
    {
        self.queues[warrior as usize].len()
    }

    /// Takes the next process of a warrior off its queue, or returns `None`
    /// for a warrior that has none left.
    pub fn next(&mut self, warrior: u32) -> (r: Option<Field>)
        requires
            old(self).wf(),
            warrior < old(self)@.len(),
        ensures
            final(self).wf(),
            final(self).cap() == old(self).cap(),
            final(self)@ == after_next(old(self)@, warrior as int),
            r == if old(self)@[warrior as int].len() > 0 {
                Some(old(self)@[warrior as int][0])
            } else {
                None
            },
    {
        let r = self.queues[warrior as usize].pop_front();
        assert(self@ =~= after_next(old(self)@, warrior as int));
        r
    }

    /// Puts a process at the tail of a warrior's queue. The queue must have
    /// room, as it has after a `next`.
    pub fn reschedule(&mut self, warrior: u32, pc: Field)
        requires
            old(self).wf(),
            warrior < old(self)@.len(),
            old(self)@[warrior as int].len() < old(self).cap(),
        ensures
            final(self).wf(),
            final(self).cap() == old(self).cap(),
            final(self)@ == after_reschedule(old(self)@, warrior as int, pc),
    {
        self.queues[warrior as usize].push_back(pc);
        assert(self@ =~= after_reschedule(old(self)@, warrior as int, pc));
    }

    /// Adds a new process for a warrior that is below the cap; at the cap the
    /// call changes nothing and returns `false`.
    pub fn spawn(&mut self, warrior: u32, pc: Field) -> (spawned: bool)
        requires
            old(self).wf(),
            warrior < old(self)@.len(),
        ensures
            final(self).wf(),
            final(self).cap() == old(self).cap(),
            final(self)@ == after_spawn(old(self)@, warrior as int, pc, old(self).cap() as int),
            spawned == (old(self)@[warrior as int].len() < old(self).cap()),
    {
        if self.queues[warrior as usize].len() < self.max_processes {
            self.reschedule(warrior, pc);
            true
        } else {
            false
        }
    }

    /// Gives a warrior a single process at `pc` in place of all it had.
    pub fn restart(&mut self, warrior: u32, pc: Field)
        requires
            old(self).wf(),
            warrior < old(self)@.len(),
        ensures
            final(self).wf(),
            final(self).cap() == old(self).cap(),
            final(self)@ == old(self)@.update(warrior as int, seq![pc]),
    {
        self.queues[warrior as usize].clear();
        self.queues[warrior as usize].push_back(pc);
        assert(self@ =~= old(self)@.update(warrior as int, seq![pc])) by {
            assert(Seq::<Field>::empty().push(pc) =~= seq![pc]);
        }
    }

    /// Empties the queue of every warrior.
    pub fn clear(&mut self)
        requires
            old(self).wf(),
        ensures
            final(self).wf(),
            final(self).cap() == old(self).cap(),
            final(self)@ == Seq::new(old(self)@.len(), |w: int| Seq::<Field>::empty()),
    {
        let n = self.queues.len();
        let mut i: usize = 0;
        while i < n
            invariant
                i <= n,
                n == self.queues@.len(),
                n == old(self).queues@.len(),
                self.wf(),
                self.max_processes == old(self).max_processes,
                forall|w: int| 0 <= w < i ==> (#[trigger] self.queues@[w])@ == Seq::<Field>::empty(),
            decreases n - i,
        {
            self.queues[i].clear();
            i = i + 1;
        }
        assert(self@ =~= Seq::new(old(self)@.len(), |w: int| Seq::<Field>::empty()));
    }
}

} // verus!
