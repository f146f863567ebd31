//! Handlers for the fourteen opcodes. Each handler states exactly what it
//! does to the machine; conditions the machine treats as fatal are excluded
//! by `requires` here and are checked by the dispatcher in
//! [`crate::registers::execute_instruction`], which reports them as a
//! [`Fault`] instead of entering the handler.

use vstd::prelude::*;
use crate::binary::UM;
use crate::memory::{alloc_result, map_memory_segment, zero_vec, zeros};

verus! {

/// Host interaction requested by one executed instruction.
#[derive(Clone, Copy, PartialEq, Eq, Debug)]
pub enum Effect {
    /// Nothing to do for the host; execution continues.
    Continue,
    /// Write this byte to the host's output.
    Output(u8),
    /// Read one byte from the host's input and pass it, or the end of the
    /// stream, to [`input`] together with this register index.
    NeedInput(u32),
    /// The program halted.
    Halt,
}

/// A fatal condition; the machine never continues past one.
#[derive(Clone, Copy, PartialEq, Eq, Debug)]
pub enum Fault {
    /// The opcode field of the instruction word is not one of the fourteen.
    InvalidOpcode,
    /// Division with a zero divisor.
    DivisionByZero,
    /// An output value above 255.
    OutputRange,
    /// A segment identifier with no mapped slot, or an offset at or past the
    /// end of its segment — at a load, a store, a program load, or a fetch.
    MemoryRange,
    /// Unmapping identifier 0, an identifier already on the free list, or
    /// one that was never handed out.
    BadUnmap,
    /// No free identifier is left: every 32-bit identifier is mapped.
    IdentifiersExhausted,
}

/// Opcode 0: if register C holds a nonzero word, register A takes the word
/// of register B.
pub fn conditional_move(machine: &mut UM, register_a: u32, register_b: u32, register_c: u32) -> (r: u32)
    requires
        old(machine)@.regs.len() == 8,
        register_a < 8,
        register_b < 8,
        register_c < 8,
    ensures
        final(machine)@.regs == if old(machine)@.regs[register_c as int] != 0 {
            old(machine)@.regs.update(register_a as int, old(machine)@.regs[register_b as int])
        } else {
            old(machine)@.regs
        },
        final(machine)@.mem == old(machine)@.mem,
        final(machine)@.free == old(machine)@.free,
        final(machine)@.pc == old(machine)@.pc,
        r == final(machine)@.regs[register_a as int],
{
    if machine.registers[register_c as usize] != 0 {
        machine.registers[register_a as usize] = machine.registers[register_b as usize];
    }
    machine.registers[register_a as usize]
}

/// Opcode 1: register A takes the word of segment `r[B]` at offset `r[C]`.
pub fn segmented_load(machine: &mut UM, register_a: u32, register_b: u32, register_c: u32) -> (r: u32)
    requires
        old(machine)@.regs.len() == 8,
        register_a < 8,
        register_b < 8,
        register_c < 8,
        (old(machine)@.regs[register_b as int] as int) < old(machine)@.mem.len(),
        (old(machine)@.regs[register_c as int] as int)
            < old(machine)@.mem[old(machine)@.regs[register_b as int] as int].len(),
    ensures
        final(machine)@.regs == old(machine)@.regs.update(
            register_a as int,
            old(machine)@.mem[old(machine)@.regs[register_b as int] as int][old(machine)@.regs[register_c as int] as int],
        ),
        final(machine)@.mem == old(machine)@.mem,
        final(machine)@.free == old(machine)@.free,
        final(machine)@.pc == old(machine)@.pc,
        r == final(machine)@.regs[register_a as int],
{
    let seg = machine.registers[register_b as usize] as usize;
    let off = machine.registers[register_c as usize] as usize;
    let val = machine.memory[seg][off];
    machine.registers[register_a as usize] = val;
    val
}

/// Opcode 2: segment `r[A]` takes, at offset `r[B]`, the word of register C.
pub fn segmented_store(machine: &mut UM, register_a: u32, register_b: u32, register_c: u32)
    requires
        old(machine)@.regs.len() == 8,
        register_a < 8,
        register_b < 8,
        register_c < 8,
        (old(machine)@.regs[register_a as int] as int) < old(machine)@.mem.len(),
        (old(machine)@.regs[register_b as int] as int)
            < old(machine)@.mem[old(machine)@.regs[register_a as int] as int].len(),
    ensures
        final(machine)@.mem == old(machine)@.mem.update(
            old(machine)@.regs[register_a as int] as int,
            old(machine)@.mem[old(machine)@.regs[register_a as int] as int].update(
                old(machine)@.regs[register_b as int] as int,
                old(machine)@.regs[register_c as int],
            ),
        ),
        final(machine)@.regs == old(machine)@.regs,
        final(machine)@.free == old(machine)@.free,
        final(machine)@.pc == old(machine)@.pc,
{
    let seg = machine.registers[register_a as usize] as usize;
    let off = machine.registers[register_b as usize] as usize;
    let val = machine.registers[register_c as usize];
    machine.memory[seg][off] = val;
    proof {
        assert(final(machine)@.mem =~= old(machine)@.mem.update(
            old(machine)@.regs[register_a as int] as int,
            old(machine)@.mem[old(machine)@.regs[register_a as int] as int].update(
                old(machine)@.regs[register_b as int] as int,
                old(machine)@.regs[register_c as int],
            ),
        ));
    }
}

/// Opcode 3: register A takes `r[B] + r[C]`, reduced modulo `2^32`.
pub fn addition(machine: &mut UM, register_a: u32, register_b: u32, register_c: u32) -> (r: u32)
    requires
        old(machine)@.regs.len() == 8,
        register_a < 8,
        register_b < 8,
        register_c < 8,
    ensures
        final(machine)@.regs == old(machine)@.regs.update(
            register_a as int,
            ((old(machine)@.regs[register_b as int] + old(machine)@.regs[register_c as int]) % 0x1_0000_0000) as u32,
        ),
        final(machine)@.mem == old(machine)@.mem,
        final(machine)@.free == old(machine)@.free,
        final(machine)@.pc == old(machine)@.pc,
        r == final(machine)@.regs[register_a as int],
{
    let sum = (machine.registers[register_b as usize] as u64 + machine.registers[register_c as usize] as u64)
        % 0x1_0000_0000u64;
    machine.registers[register_a as usize] = sum as u32;
    sum as u32
}

/// Opcode 4: register A takes `r[B] * r[C]`, reduced modulo `2^32`.
pub fn multiplication(machine: &mut UM, register_a: u32, register_b: u32, register_c: u32) -> (r: u32)
    requires
        old(machine)@.regs.len() == 8,
        register_a < 8,
        register_b < 8,
        register_c < 8,
    ensures
        final(machine)@.regs == old(machine)@.regs.update(
            register_a as int,
            ((old(machine)@.regs[register_b as int] * old(machine)@.regs[register_c as int]) % 0x1_0000_0000) as u32,
        ),
        final(machine)@.mem == old(machine)@.mem,
        final(machine)@.free == old(machine)@.free,
        final(machine)@.pc == old(machine)@.pc,
        r == final(machine)@.regs[register_a as int],
{
    let lhs = machine.registers[register_b as usize] as u64;
    let rhs = machine.registers[register_c as usize] as u64;
    proof {
        assert(lhs * rhs <= 0xFFFF_FFFFu64 * 0xFFFF_FFFFu64) by (nonlinear_arith)
            requires
                lhs <= 0xFFFF_FFFFu64,
                rhs <= 0xFFFF_FFFFu64,
        ;
    }
    let prod = (lhs * rhs) % 0x1_0000_0000u64;
    machine.registers[register_a as usize] = prod as u32;
    prod as u32
}

/// Opcode 5: register A takes `r[B] / r[C]`, truncated. A zero divisor is
/// fatal and is excluded here; the dispatcher reports it as a fault.
pub fn division(machine: &mut UM, register_a: u32, register_b: u32, register_c: u32) -> (r: u32)
    requires
        old(machine)@.regs.len() == 8,
        register_a < 8,
        register_b < 8,
        register_c < 8,
        old(machine)@.regs[register_c as int] != 0,
    ensures
        final(machine)@.regs == old(machine)@.regs.update(
            register_a as int,
            (old(machine)@.regs[register_b as int] / old(machine)@.regs[register_c as int]) as u32,
        ),
        final(machine)@.mem == old(machine)@.mem,
        final(machine)@.free == old(machine)@.free,
        final(machine)@.pc == old(machine)@.pc,
        r == final(machine)@.regs[register_a as int],
{
    let quot = machine.registers[register_b as usize] / machine.registers[register_c as usize];
    machine.registers[register_a as usize] = quot;
    quot
}

/// Opcode 6: register A takes the bitwise complement of `r[B] AND r[C]`.
pub fn bit_nand(machine: &mut UM, register_a: u32, register_b: u32, register_c: u32) -> (r: u32)
    requires
        old(machine)@.regs.len() == 8,
        register_a < 8,
        register_b < 8,
        register_c < 8,
    ensures
        final(machine)@.regs == old(machine)@.regs.update(
            register_a as int,
            !(old(machine)@.regs[register_b as int] & old(machine)@.regs[register_c as int]),
        ),
        final(machine)@.mem == old(machine)@.mem,
        final(machine)@.free == old(machine)@.free,
        final(machine)@.pc == old(machine)@.pc,
        r == final(machine)@.regs[register_a as int],
{
    let val = !(machine.registers[register_b as usize] & machine.registers[register_c as usize]);
    machine.registers[register_a as usize] = val;
    val
}

/// Law: each bit of a NAND result is the negation of the conjunction of
/// the corresponding bits of the operands.
pub proof fn lemma_nand_bits(x: u32, y: u32, k: u32)
    requires
        k < 32,
    ensures
        ((!(x & y)) >> k) & 1 == if ((x >> k) & 1 == 1) && ((y >> k) & 1 == 1) {
            0u32
        } else {
            1u32
        },
{
    assert(((!(x & y)) >> k) & 1u32 == if ((x >> k) & 1u32 == 1u32) && ((y >> k) & 1u32 == 1u32) {
        0u32
    } else {
        1u32
    }) by (bit_vector)
        requires
            k < 32u32,
    ;
}

/// Opcode 8: allocate a segment of `r[C]` zero words and put its identifier
/// in register B.
pub fn map_segment(machine: &mut UM, register_b: u32, register_c: u32) -> (r: u32)
    requires
        old(machine)@.regs.len() == 8,
        register_b < 8,
        register_c < 8,
        forall|i: int| 0 <= i < old(machine)@.free.len()
            ==> (#[trigger] old(machine)@.free[i] as int) < old(machine)@.mem.len(),
        old(machine)@.free.len() == 0 ==> old(machine)@.mem.len() < 0x1_0000_0000,
    ensures
        ({
            let (s1, id) = alloc_result(old(machine)@, zeros(old(machine)@.regs[register_c as int] as nat));
            &&& final(machine)@.mem == s1.mem
            &&& final(machine)@.free == s1.free
            &&& final(machine)@.regs == old(machine)@.regs.update(register_b as int, id)
            &&& final(machine)@.pc == old(machine)@.pc
            &&& r == id
        }),
{
    let num_words = machine.registers[register_c as usize];
    let new_seg_to_map = zero_vec(num_words);
    let address = map_memory_segment(machine, new_seg_to_map);
    machine.registers[register_b as usize] = address;
    address
}

/// Opcode 9: free segment `r[C]`: its identifier goes to the back of the
/// free list and its slot is emptied. Freeing identifier 0, an identifier
/// already free, or one never handed out is fatal and is excluded here.
pub fn unmap_segment(machine: &mut UM, register_c: u32)
    requires
        old(machine)@.regs.len() == 8,
        register_c < 8,
        old(machine)@.regs[register_c as int] != 0,
        (old(machine)@.regs[register_c as int] as int) < old(machine)@.mem.len(),
        !old(machine)@.free.contains(old(machine)@.regs[register_c as int]),
    ensures
        final(machine)@.mem == old(machine)@.mem.update(
            old(machine)@.regs[register_c as int] as int,
            Seq::empty(),
        ),
        final(machine)@.free == old(machine)@.free.push(old(machine)@.regs[register_c as int]),
        final(machine)@.regs == old(machine)@.regs,
        final(machine)@.pc == old(machine)@.pc,
{
    let id = machine.registers[register_c as usize];
    machine.queue.push(id);
    machine.memory[id as usize] = Vec::new();
    proof {
        assert(final(machine)@.mem =~= old(machine)@.mem.update(
            old(machine)@.regs[register_c as int] as int,
            Seq::empty(),
        ));
    }
}

/// Opcode 10: the byte to write to the host's output, which is the word of
/// register C. A word above 255 is fatal and is excluded here.
pub fn output(machine: &UM, register_c: u32) -> (r: u8)
    requires
        machine@.regs.len() == 8,
        register_c < 8,
        machine@.regs[register_c as int] <= 255,
    ensures
        r == machine@.regs[register_c as int],
{
    machine.registers[register_c as usize] as u8
}

/// Opcode 11: register C takes the byte read from the host's input, or
/// `2^32 - 1` at the end of the stream.
pub fn input(machine: &mut UM, register_c: u32, byte: Option<u8>)
    requires
        old(machine)@.regs.len() == 8,
        register_c < 8,
    ensures
        final(machine)@.regs == old(machine)@.regs.update(
            register_c as int,
            match byte {
                Some(b) => b as u32,
                None => 0xFFFF_FFFFu32,
            },
        ),
        final(machine)@.mem == old(machine)@.mem,
        final(machine)@.free == old(machine)@.free,
        final(machine)@.pc == old(machine)@.pc,
{
    match byte {
        Some(b) => {
            machine.registers[register_c as usize] = b as u32;
        }
        None => {
            machine.registers[register_c as usize] = 0xFFFF_FFFF;
        }
    }
}

/// Opcode 12: if `r[B]` is not 0, segment `r[B]` is copied into segment 0;
/// either way the program counter takes the word of register C, with no
/// increment afterwards.
pub fn load_program(machine: &mut UM, register_b: u32, register_c: u32) -> (r: u32)
    requires
        old(machine)@.regs.len() == 8,
        register_b < 8,
        register_c < 8,
        (old(machine)@.regs[register_b as int] as int) < old(machine)@.mem.len(),
    ensures
        final(machine)@.mem == if old(machine)@.regs[register_b as int] != 0 {
            old(machine)@.mem.update(0, old(machine)@.mem[old(machine)@.regs[register_b as int] as int])
        } else {
            old(machine)@.mem
        },
        final(machine)@.pc == old(machine)@.regs[register_c as int],
        final(machine)@.regs == old(machine)@.regs,
        final(machine)@.free == old(machine)@.free,
        r == final(machine)@.pc,
{
    let src = machine.registers[register_b as usize];
    if src != 0 {
        let duplicated_seg: Vec<u32> = machine.memory[src as usize].clone();
        proof {
            assert(duplicated_seg@ =~= old(machine)@.mem[src as int]);
        }
        machine.memory[0] = duplicated_seg;
        proof {
            assert(machine@.mem =~= old(machine)@.mem.update(0, old(machine)@.mem[src as int]));
        }
    }
    machine.program_counter = machine.registers[register_c as usize];
    machine.program_counter
}

/// Opcode 13: register A' (the three bits below the opcode) takes the given
/// value; the dispatcher passes the 25-bit immediate of the instruction.
pub fn load_value(machine: &mut UM, register_a_prime: u32, val_to_load: u32) -> (r: u32)
    requires
        old(machine)@.regs.len() == 8,
        register_a_prime < 8,
    ensures
        final(machine)@.regs == old(machine)@.regs.update(register_a_prime as int, val_to_load),
        final(machine)@.mem == old(machine)@.mem,
        final(machine)@.free == old(machine)@.free,
        final(machine)@.pc == old(machine)@.pc,
        r == val_to_load,
{
    machine.registers[register_a_prime as usize] = val_to_load;
    machine.registers[register_a_prime as usize]
}

} // verus!
