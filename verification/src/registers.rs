//! Instruction decoding and the dispatcher. [`step_of`] is the complete
//! semantics of one instruction; [`execute_instruction`] is its verified
//! implementation: it checks every condition the machine treats as fatal,
//! runs the opcode's handler, and advances the program counter (a program
//! load sets the counter instead).

use vstd::prelude::*;
use crate::binary::{MachineView, UM};
use crate::memory::{alloc_result, free_result, zeros};
use crate::operations;
use crate::operations::{Effect, Fault};

verus! {

/// A bit field of an instruction word: `width` bits whose least significant
/// bit sits at position `lsb`.
pub struct Field {
    pub width: u32,
    pub lsb: u32,
}

/// The low `bits` bits, all set.
fn mask(bits: u32) -> (r: u32)
    requires
        bits < 32,
    ensures
        r == ((1u32 << bits) - 1) as u32,
{
    proof {
        assert(1u32 << bits >= 1u32) by (bit_vector)
            requires
                bits < 32u32,
        ;
    }
    (1u32 << bits) - 1
}

/// The value of the given field of an instruction word.
pub fn get(field: &Field, instruction: u32) -> (r: u32)
    requires
        field.width < 32,
        field.lsb < 32,
    ensures
        r == (instruction >> field.lsb) & (((1u32 << field.width) - 1) as u32),
{
    (instruction >> field.lsb) & mask(field.width)
}

/// The opcode of an instruction word: its four most significant bits.
pub open spec fn op_of(inst: u32) -> u32 {
    inst >> 28
}

/// Register index A: bits 6 to 8 of an instruction word.
pub open spec fn ra_of(inst: u32) -> u32 {
    (inst >> 6) & 7
}

/// Register index B: bits 3 to 5 of an instruction word.
pub open spec fn rb_of(inst: u32) -> u32 {
    (inst >> 3) & 7
}

/// Register index C: the three least significant bits of an instruction word.
pub open spec fn rc_of(inst: u32) -> u32 {
    inst & 7
}

/// Register index A' of the load-value form: bits 25 to 27.
pub open spec fn rl_of(inst: u32) -> u32 {
    (inst >> 25) & 7
}

/// The 25-bit immediate of the load-value form.
pub open spec fn vl_of(inst: u32) -> u32 {
    inst & 0x01FF_FFFF
}

/// The opcode of an instruction word.
pub fn op(instruction: u32) -> (r: u32)
    ensures
        r == op_of(instruction),
{
    instruction >> 28
}

/// The complete semantics of one instruction: the state after executing
/// `inst` from state `s`, paired with what the dispatcher reports — the
/// host interaction of the instruction, or the fatal condition it ran into,
/// in which case the state is unchanged.
pub open spec fn step_of(s: MachineView, inst: u32) -> (MachineView, Result<Effect, Fault>) {
    let op = op_of(inst);
    let a = ra_of(inst) as int;
    let b = rb_of(inst) as int;
    let c = rc_of(inst) as int;
    if op == 0 {
        (MachineView {
            regs: if s.regs[c] != 0 { s.regs.update(a, s.regs[b]) } else { s.regs },
            pc: (s.pc + 1) as u32,
            ..s
        }, Ok(Effect::Continue))
    } else if op == 1 {
        if (s.regs[b] as int) < s.mem.len() && (s.regs[c] as int) < s.mem[s.regs[b] as int].len() {
            (MachineView {
                regs: s.regs.update(a, s.mem[s.regs[b] as int][s.regs[c] as int]),
                pc: (s.pc + 1) as u32,
                ..s
            }, Ok(Effect::Continue))
        } else {
            (s, Err(Fault::MemoryRange))
        }
    } else if op == 2 {
        if (s.regs[a] as int) < s.mem.len() && (s.regs[b] as int) < s.mem[s.regs[a] as int].len() {
            (MachineView {
                mem: s.mem.update(
                    s.regs[a] as int,
                    s.mem[s.regs[a] as int].update(s.regs[b] as int, s.regs[c]),
                ),
                pc: (s.pc + 1) as u32,
                ..s
            }, Ok(Effect::Continue))
        } else {
            (s, Err(Fault::MemoryRange))
        }
    } else if op == 3 {
        (MachineView {
            regs: s.regs.update(a, ((s.regs[b] + s.regs[c]) % 0x1_0000_0000) as u32),
            pc: (s.pc + 1) as u32,
            ..s
        }, Ok(Effect::Continue))
    } else if op == 4 {
        (MachineView {
            regs: s.regs.update(a, ((s.regs[b] * s.regs[c]) % 0x1_0000_0000) as u32),
            pc: (s.pc + 1) as u32,
            ..s
        }, Ok(Effect::Continue))
    } else if op == 5 {
        if s.regs[c] == 0 {
            (s, Err(Fault::DivisionByZero))
        } else {
            (MachineView {
                regs: s.regs.update(a, (s.regs[b] / s.regs[c]) as u32),
                pc: (s.pc + 1) as u32,
                ..s
            }, Ok(Effect::Continue))
        }
    } else if op == 6 {
        (MachineView {
            regs: s.regs.update(a, !(s.regs[b] & s.regs[c])),
            pc: (s.pc + 1) as u32,
            ..s
        }, Ok(Effect::Continue))
    } else if op == 7 {
        (s, Ok(Effect::Halt))
    } else if op == 8 {
        if s.free.len() == 0 && s.mem.len() >= 0x1_0000_0000 {
            (s, Err(Fault::IdentifiersExhausted))
        } else {
            let (s1, id) = alloc_result(s, zeros(s.regs[c] as nat));
            (MachineView { regs: s.regs.update(b, id), pc: (s.pc + 1) as u32, ..s1 }, Ok(Effect::Continue))
        }
    } else if op == 9 {
        if s.regs[c] == 0 || s.mem.len() <= s.regs[c] as int || s.free.contains(s.regs[c]) {
            (s, Err(Fault::BadUnmap))
        } else {
            (MachineView { pc: (s.pc + 1) as u32, ..free_result(s, s.regs[c]) }, Ok(Effect::Continue))
        }
    } else if op == 10 {
        if s.regs[c] > 255 {
            (s, Err(Fault::OutputRange))
        } else {
            (MachineView { pc: (s.pc + 1) as u32, ..s }, Ok(Effect::Output(s.regs[c] as u8)))
        }
    } else if op == 11 {
        (MachineView { pc: (s.pc + 1) as u32, ..s }, Ok(Effect::NeedInput(rc_of(inst))))
    } else if op == 12 {
        if (s.regs[b] as int) < s.mem.len() {
            (MachineView {
                mem: if s.regs[b] != 0 { s.mem.update(0, s.mem[s.regs[b] as int]) } else { s.mem },
                pc: s.regs[c],
                ..s
            }, Ok(Effect::Continue))
        } else {
            (s, Err(Fault::MemoryRange))
        }
    } else if op == 13 {
        (MachineView {
            regs: s.regs.update(rl_of(inst) as int, vl_of(inst)),
            pc: (s.pc + 1) as u32,
            ..s
        }, Ok(Effect::Continue))
    } else {
        (s, Err(Fault::InvalidOpcode))
    }
}

/// Executing any instruction from a well-formed state leaves a well-formed
/// state: in particular the register file keeps its eight words and
/// segment 0 stays mapped.
pub proof fn lemma_step_of_wf(s: MachineView, inst: u32)
    requires
        s.wf(),
    ensures
        step_of(s, inst).0.wf(),
{
    let op = op_of(inst);
    let a = ra_of(inst) as int;
    let b = rb_of(inst) as int;
    let c = rc_of(inst) as int;
    let post = step_of(s, inst).0;
    assert((inst >> 6u32) & 7u32 < 8u32 && (inst >> 3u32) & 7u32 < 8u32 && (inst & 7u32) < 8u32
        && (inst >> 25u32) & 7u32 < 8u32) by (bit_vector);
    if op == 2 {
        if (s.regs[a] as int) < s.mem.len() && (s.regs[b] as int) < s.mem[s.regs[a] as int].len() {
            assert(forall|i: int| 0 <= i < post.mem.len()
                ==> (#[trigger] post.mem[i]).len() == s.mem[i].len());
        }
    } else if op == 8 && !(s.free.len() == 0 && s.mem.len() >= 0x1_0000_0000) {
        if s.free.len() > 0 {
            let id = s.free.last();
            assert(forall|i: int| 0 <= i < post.free.len()
                ==> post.mem[#[trigger] post.free[i] as int].len() == 0) by {
                assert(forall|i: int| 0 <= i < post.free.len()
                    ==> #[trigger] post.free[i] == s.free[i] && s.free[i] != id);
            }
            assert(forall|i: int| 0 <= i < post.mem.len()
                ==> (#[trigger] post.mem[i]).len() <= 0xFFFF_FFFF);
        } else {
            assert(forall|i: int| 0 <= i < post.mem.len()
                ==> (#[trigger] post.mem[i]).len() <= 0xFFFF_FFFF) by {
                assert(forall|i: int| 0 <= i < s.mem.len() ==> post.mem[i] == #[trigger] s.mem[i]);
                assert(post.mem[s.mem.len() as int].len() <= 0xFFFF_FFFF);
            }
        }
    } else if op == 9 {
        let id = s.regs[c];
        if !(id == 0 || s.mem.len() <= id as int || s.free.contains(id)) {
            assert(forall|i: int, j: int| 0 <= i < j < post.free.len()
                ==> post.free[i] != post.free[j]) by {
                assert(forall|i: int| 0 <= i < s.free.len() ==> #[trigger] s.free[i] != id);
            }
            assert(forall|i: int| 0 <= i < post.free.len()
                ==> post.mem[#[trigger] post.free[i] as int].len() == 0);
        }
    } else if op == 12 {
        if (s.regs[b] as int) < s.mem.len() && s.regs[b] != 0 {
            assert(s.mem[s.regs[b] as int].len() <= 0xFFFF_FFFF);
            assert(forall|i: int| 0 <= i < post.mem.len()
                ==> (#[trigger] post.mem[i]).len() <= 0xFFFF_FFFF);
        }
    }
}

/// Law: an unmap instruction followed at once by a map instruction reuses
/// exactly the identifier just freed: the map step cannot fault, it puts
/// the freed identifier in its destination register, and that identifier's
/// slot then holds the requested number of zero words.
pub proof fn lemma_unmap_then_map_reuses(s: MachineView, unmap_inst: u32, map_inst: u32)
    requires
        s.wf(),
        op_of(unmap_inst) == 9,
        op_of(map_inst) == 8,
        step_of(s, unmap_inst).1 is Ok,
    ensures
        ({
            let s1 = step_of(s, unmap_inst).0;
            let x = s.regs[rc_of(unmap_inst) as int];
            let n = s1.regs[rc_of(map_inst) as int];
            let s2 = step_of(s1, map_inst).0;
            &&& step_of(s1, map_inst).1 == Ok::<Effect, Fault>(Effect::Continue)
            &&& s2.regs[rb_of(map_inst) as int] == x
            &&& s2.mem[x as int] == zeros(n as nat)
        }),
{
    let s1 = step_of(s, unmap_inst).0;
    let x = s.regs[rc_of(unmap_inst) as int];
    assert((map_inst >> 3u32) & 7u32 < 8u32 && (map_inst & 7u32) < 8u32) by (bit_vector);
    assert(s1.free.last() == x);
}

/// Whether the free list holds the given identifier.
fn queue_contains(queue: &Vec<u32>, id: u32) -> (r: bool)
    ensures
        r == queue@.contains(id),
{
    let mut i: usize = 0;
    while i < queue.len()
        invariant
            i <= queue@.len(),
            forall|j: int| 0 <= j < i ==> queue@[j] != id,
        decreases queue@.len() - i,
    {
        if queue[i] == id {
            proof {
                assert(queue@[i as int] == id);
            }
            return true;
        }
        i = i + 1;
    }
    proof {
        assert(!queue@.contains(id)) by {
            if queue@.contains(id) {
                let j = choose|j: int| 0 <= j < queue@.len() && queue@[j] == id;
                assert(queue@[j] != id);
            }
        }
    }
    false
}

/// Decode and execute one instruction word. Every condition the machine
/// treats as fatal is checked here and reported as a fault, with the state
/// untouched; otherwise the opcode's handler runs, the program counter
/// advances (a program load sets it instead), and the instruction's host
/// interaction is returned.
pub fn execute_instruction(machine: &mut UM, inst: u32) -> (r: Result<Effect, Fault>)
    requires
        old(machine)@.wf(),
        old(machine)@.pc < 0xFFFF_FFFFu32,
    ensures
        (final(machine)@, r) == step_of(old(machine)@, inst),
        final(machine)@.wf(),
{
    proof {
        lemma_step_of_wf(old(machine)@, inst);
    }
    let opcode = op(inst);
    let a = get(&Field { width: 3, lsb: 6 }, inst);
    let b = get(&Field { width: 3, lsb: 3 }, inst);
    let c = get(&Field { width: 3, lsb: 0 }, inst);
    proof {
        assert((1u32 << 3u32) - 1 == 7u32) by (bit_vector);
        assert((inst >> 6u32) & 7u32 < 8u32 && (inst >> 3u32) & 7u32 < 8u32
            && (inst >> 0u32) & 7u32 == inst & 7u32 && (inst & 7u32) < 8u32) by (bit_vector);
    }
    match opcode {
        0 => {
            operations::conditional_move(machine, a, b, c);
            machine.program_counter = machine.program_counter + 1;
            Ok(Effect::Continue)
        }
        1 => {
            let seg = machine.registers[b as usize];
            if (seg as usize) < machine.memory.len()
                && (machine.registers[c as usize] as usize) < machine.memory[seg as usize].len() {
                operations::segmented_load(machine, a, b, c);
                machine.program_counter = machine.program_counter + 1;
                Ok(Effect::Continue)
            } else {
                Err(Fault::MemoryRange)
            }
        }
        2 => {
            let seg = machine.registers[a as usize];
            if (seg as usize) < machine.memory.len()
                && (machine.registers[b as usize] as usize) < machine.memory[seg as usize].len() {
                operations::segmented_store(machine, a, b, c);
                machine.program_counter = machine.program_counter + 1;
                Ok(Effect::Continue)
            } else {
                Err(Fault::MemoryRange)
            }
        }
        3 => {
            operations::addition(machine, a, b, c);
            machine.program_counter = machine.program_counter + 1;
            Ok(Effect::Continue)
        }
        4 => {
            operations::multiplication(machine, a, b, c);
            machine.program_counter = machine.program_counter + 1;
            Ok(Effect::Continue)
        }
        5 => {
            if machine.registers[c as usize] == 0 {
                Err(Fault::DivisionByZero)
            } else {
                operations::division(machine, a, b, c);
                machine.program_counter = machine.program_counter + 1;
                Ok(Effect::Continue)
            }
        }
        6 => {
            operations::bit_nand(machine, a, b, c);
            machine.program_counter = machine.program_counter + 1;
            Ok(Effect::Continue)
        }
        7 => Ok(Effect::Halt),
        8 => {
            if machine.queue.len() == 0 && machine.memory.len() as u64 >= 0x1_0000_0000u64 {
                Err(Fault::IdentifiersExhausted)
            } else {
                operations::map_segment(machine, b, c);
                machine.program_counter = machine.program_counter + 1;
                Ok(Effect::Continue)
            }
        }
        9 => {
            let id = machine.registers[c as usize];
            if id == 0 || (id as usize) >= machine.memory.len() || queue_contains(&machine.queue, id) {
                Err(Fault::BadUnmap)
            } else {
                operations::unmap_segment(machine, c);
                machine.program_counter = machine.program_counter + 1;
                Ok(Effect::Continue)
            }
        }
        10 => {
            if machine.registers[c as usize] > 255 {
                Err(Fault::OutputRange)
            } else {
                let byte = operations::output(machine, c);
                machine.program_counter = machine.program_counter + 1;
                Ok(Effect::Output(byte))
            }
        }
        11 => {
            machine.program_counter = machine.program_counter + 1;
            Ok(Effect::NeedInput(c))
        }
        12 => {
            if (machine.registers[b as usize] as usize) < machine.memory.len() {
                operations::load_program(machine, b, c);
                Ok(Effect::Continue)
            } else {
                Err(Fault::MemoryRange)
            }
        }
        13 => {
            let a_prime = get(&Field { width: 3, lsb: 25 }, inst);
            let value = get(&Field { width: 25, lsb: 0 }, inst);
            proof {
                assert((inst >> 25u32) & 7u32 < 8u32 && (1u32 << 25u32) - 1 == 0x01FF_FFFFu32
                    && (inst >> 0u32) & 0x01FF_FFFFu32 == inst & 0x01FF_FFFFu32) by (bit_vector);
            }
            operations::load_value(machine, a_prime, value);
            machine.program_counter = machine.program_counter + 1;
            Ok(Effect::Continue)
        }
        _ => Err(Fault::InvalidOpcode),
    }
}


} // verus!
