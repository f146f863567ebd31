//! The segment allocator: placing a segment into a slot, reusing the most
//! recently freed identifier before ever growing the slot count.

use vstd::prelude::*;
use crate::binary::{MachineView, UM};

verus! {

/// A segment of `n` zero words.
pub open spec fn zeros(n: nat) -> Seq<u32> {
    Seq::new(n, |i: int| 0u32)
}

/// What allocating a segment does to a machine state, and which identifier
/// it hands out: the most recently freed identifier when one is available,
/// otherwise the count of slots handed out so far, as a fresh slot.
pub open spec fn alloc_result(s: MachineView, seg: Seq<u32>) -> (MachineView, u32) {
    if s.free.len() > 0 {
        let id = s.free.last();
        (MachineView { mem: s.mem.update(id as int, seg), free: s.free.drop_last(), ..s }, id)
    } else {
        (MachineView { mem: s.mem.push(seg), ..s }, s.mem.len() as u32)
    }
}

/// What freeing an identifier does: its slot is emptied and the identifier
/// goes to the back of the free list, to be the first one reused.
pub open spec fn free_result(s: MachineView, id: u32) -> MachineView {
    MachineView { mem: s.mem.update(id as int, Seq::empty()), free: s.free.push(id), ..s }
}

/// A vector of `n` zero words.
pub fn zero_vec(n: u32) -> (v: Vec<u32>)
    ensures
        v@ == zeros(n as nat),
{
    let mut v: Vec<u32> = Vec::new();
    let mut i: u32 = 0;
    while i < n
        invariant
            v@.len() == i,
            i <= n,
            forall|j: int| 0 <= j < i ==> v@[j] == 0,
        decreases n - i,
    {
        v.push(0);
        i = i + 1;
    }
    proof {
        assert(v@ =~= zeros(n as nat));
    }
    v
}

/// Map a segment into the store and return the identifier of its slot.
pub fn map_memory_segment(machine: &mut UM, to_map: Vec<u32>) -> (address: u32)
    requires
        forall|i: int| 0 <= i < old(machine)@.free.len()
            ==> (#[trigger] old(machine)@.free[i] as int) < old(machine)@.mem.len(),
        old(machine)@.free.len() == 0 ==> old(machine)@.mem.len() < 0x1_0000_0000,
    ensures
        (final(machine)@, address) == alloc_result(old(machine)@, to_map@),
{
    let address: u32;
    if machine.queue.is_empty() {
        address = machine.memory.len() as u32;
        machine.memory.push(to_map);
        proof {
            assert(final(machine)@.mem =~= old(machine)@.mem.push(to_map@));
        }
    } else {
        address = machine.queue.pop().unwrap();
        machine.memory[address as usize] = to_map;
        proof {
            assert(final(machine)@.mem =~= old(machine)@.mem.update(address as int, to_map@));
            assert(final(machine)@.free =~= old(machine)@.free.drop_last());
        }
    }
    address
}

/// Law: an allocation hands out either the most recently freed identifier
/// or, when nothing is free, the count of slots handed out so far — a
/// fresh identifier.
pub proof fn lemma_alloc_id(s: MachineView, seg: Seq<u32>)
    ensures
        alloc_result(s, seg).1 == if s.free.len() > 0 {
            s.free.last()
        } else {
            s.mem.len() as u32
        },
{
}

/// Freeing an identifier and then allocating, whatever size the allocation
/// requests, hands back exactly that identifier; its slot then holds the
/// requested zero words, and the free list is as it was before the pair.
pub proof fn lemma_free_then_alloc_reuses(s: MachineView, x: u32, n: nat)
    requires
        (x as int) < s.mem.len(),
    ensures
        ({
            let s1 = free_result(s, x);
            let (s2, id) = alloc_result(s1, zeros(n));
            &&& id == x
            &&& s2.mem[x as int] == zeros(n)
            &&& s2.free == s.free
            &&& s2.mem.len() == s.mem.len()
        }),
{
    let s1 = free_result(s, x);
    assert(s1.free.last() == x);
    assert(s1.free.drop_last() =~= s.free);
}

} // verus!
