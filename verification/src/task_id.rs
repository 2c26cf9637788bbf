//! Task identifiers, unique across CPU cores.
use vstd::prelude::*;
use crate::syscalls::{SyscallReturnValue, SyscallReturnable};

verus! {

/// Each task has a unique ID.
#[derive(Copy, Clone, Debug, PartialEq, Eq, Structural, PartialOrd, Ord, Hash)]
pub struct TaskId(u64);

/// The source of fresh task IDs.
pub struct TaskIdCounter {
    next_id: u64,
}

impl TaskIdCounter {
    /// The ID the next task gets.
    pub closed spec fn next(&self) -> u64 {
        self.next_id
    }

    /// A counter that hands out 1 first.
    pub fn new() -> (r: Self)
        ensures
            r.next() == 1,
    {
        TaskIdCounter { next_id: 1 }
    }
}

impl TaskId {
    pub closed spec fn value(&self) -> u64 {
        self.0
    }

    /// The task ID whose raw value is `v`.
    pub closed spec fn with_value(v: u64) -> TaskId {
        TaskId(v)
    }

    /// The task ID made from `v` has the raw value `v`.
    pub broadcast proof fn lemma_with_value(v: u64)
        ensures
            #[trigger] TaskId::with_value(v).value() == v,
    {
    }

    /// A fresh task ID: the counter's value, which then moves on by one
    /// (wrapping around after `u64::MAX`).
    pub fn new(counter: &mut TaskIdCounter) -> (r: Self)
        ensures
            r.value() == old(counter).next(),
            final(counter).next() == counter_step(old(counter).next()),
    {
        let id = counter.next_id;
        counter.next_id = counter.next_id.wrapping_add(1);
        TaskId(id)
    }

    pub fn get(&self) -> (r: u64)
        ensures
            r == self.value(),
    {
        self.0
    }

    /// A task ID made from a raw value, which the caller vouches was once
    /// handed out by `new`.
    pub fn from_u64(value: u64) -> (r: Self)
        ensures
            r.value() == value,
    {
        TaskId(value)
    }
}

/// What the counter holds after handing out an ID while holding `x`.
pub open spec fn counter_step(x: u64) -> u64 {
    if x == u64::MAX {
        0
    } else {
        (x + 1) as u64
    }
}

/// What a counter that held `start` holds after `k` calls of `TaskId::new`;
/// it is also the ID the next call hands out.
pub open spec fn counter_after(start: u64, k: nat) -> u64
    decreases k,
{
    if k == 0 {
        start
    } else {
        counter_step(counter_after(start, (k - 1) as nat))
    }
}

/// The counter moves on by one modulo 2^64 with each ID.
pub proof fn lemma_counter_after(start: u64, k: nat)
    ensures
        counter_after(start, k) as int == (start + k) % 0x1_0000_0000_0000_0000,
    decreases k,
{
    if k > 0 {
        lemma_counter_after(start, (k - 1) as nat);
        let prev = counter_after(start, (k - 1) as nat) as int;
        assert(prev == (start + k - 1) % 0x1_0000_0000_0000_0000);
        let m: int = 0x1_0000_0000_0000_0000;
        assert(counter_after(start, k) as int == (prev + 1) % m);
        assert((prev + 1) % m == (start + k) % m) by (nonlinear_arith)
            requires
                prev == (start + k - 1) % m,
                m > 0,
        ;
    }
}

/// Task IDs are unique: of the IDs one counter hands out, the `i`-th and the
/// `j`-th differ whenever fewer than 2^64 IDs lie between them.
pub proof fn lemma_task_ids_unique(start: u64, i: nat, j: nat)
    requires
        i < j,
        j - i < 0x1_0000_0000_0000_0000,
    ensures
        counter_after(start, i) != counter_after(start, j),
{
    lemma_counter_after(start, i);
    lemma_counter_after(start, j);
    let m: int = 0x1_0000_0000_0000_0000;
    assert((start + i) % m != (start + j) % m) by (nonlinear_arith)
        requires
            i < j,
            j - i < m,
            m > 0,
    ;
}

/// A fresh counter hands out increasing IDs: of the IDs handed out before the
/// counter reaches `u64::MAX`, the `i`-th comes before the `j`-th, and none is
/// 0 (which stands for no task) or `u64::MAX` (which stands for an unlocked
/// lock).
pub proof fn lemma_fresh_task_ids_increase(i: nat, j: nat)
    requires
        i < j,
        j < u64::MAX - 1,
    ensures
        1 <= counter_after(1, i) < counter_after(1, j) < u64::MAX,
{
    lemma_counter_after(1, i);
    lemma_counter_after(1, j);
    assert((1 + i) % 0x1_0000_0000_0000_0000 == 1 + i);
    assert((1 + j) % 0x1_0000_0000_0000_0000 == 1 + j);
}

impl From<u64> for TaskId {
    /// The task ID with the raw value `value`.
    fn from(value: u64) -> (r: Self) {
        TaskId(value)
    }
}

impl vstd::std_specs::convert::FromSpecImpl<u64> for TaskId {
    open spec fn obeys_from_spec() -> bool {
        true
    }

    open spec fn from_spec(v: u64) -> TaskId {
        TaskId::with_value(v)
    }
}

impl SyscallReturnable for TaskId {
    open spec fn spec_return_value(self) -> u64 {
        self.value()
    }

    fn into_return_value(self) -> (r: SyscallReturnValue) {
        SyscallReturnValue(self.get())
    }
}

} // verus!
