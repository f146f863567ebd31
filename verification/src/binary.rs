//! The machine itself: its state, its abstract view, and the codec for
//! program images (sequences of 32-bit words stored as big-endian bytes).

use vstd::prelude::*;
use crate::operations::{Effect, Fault};
use crate::registers::{execute_instruction, step_of};

verus! {

/// Abstract state of a machine: the register contents, the content of every
/// segment slot, the program counter, and the free identifier list (the most
/// recently freed identifier last).
#[verifier::ext_equal]
pub struct MachineView {
    pub regs: Seq<u32>,
    pub mem: Seq<Seq<u32>>,
    pub pc: u32,
    pub free: Seq<u32>,
}

impl MachineView {
    /// Well-formedness of a running machine:
    /// - the register file holds exactly eight words;
    /// - segment 0 exists, and no more slots exist than 32-bit identifiers;
    /// - every segment is addressable by a 32-bit offset;
    /// - free identifiers are nonzero, refer to existing slots, are pairwise
    ///   distinct, and their slots hold no words (an identifier is either
    ///   mapped or free, never both).
    pub open spec fn wf(self) -> bool {
        &&& self.regs.len() == 8
        &&& 1 <= self.mem.len() <= 0x1_0000_0000
        &&& (forall|i: int| 0 <= i < self.mem.len() ==> (#[trigger] self.mem[i]).len() <= 0xFFFF_FFFF)
        &&& (forall|i: int| 0 <= i < self.free.len() ==> 0 < #[trigger] self.free[i])
        &&& (forall|i: int| 0 <= i < self.free.len() ==> (#[trigger] self.free[i] as int) < self.mem.len())
        &&& (forall|i: int, j: int| 0 <= i < j < self.free.len() ==> self.free[i] != self.free[j])
        &&& (forall|i: int| 0 <= i < self.free.len() ==> self.mem[#[trigger] self.free[i] as int].len() == 0)
    }
}

/// The universal machine: a segment store indexed by identifier, eight
/// registers, a program counter into segment 0, and the queue of freed
/// identifiers awaiting reuse.
pub struct UM {
    pub memory: Vec<Vec<u32>>,
    pub registers: Vec<u32>,
    pub program_counter: u32,
    pub queue: Vec<u32>,
}

impl View for UM {
    type V = MachineView;

    open spec fn view(&self) -> MachineView {
        MachineView {
            regs: self.registers@,
            mem: Seq::new(self.memory@.len(), |i: int| self.memory@[i]@),
            pc: self.program_counter,
            free: self.queue@,
        }
    }
}

impl UM {
    /// A fresh machine: one empty segment slot, no registers yet, the
    /// program counter at 0, and nothing freed.
    pub fn new() -> (rum: UM)
        ensures
            rum@.regs.len() == 0,
            rum@.mem.len() == 1,
            rum@.mem[0].len() == 0,
            rum@.pc == 0,
            rum@.free.len() == 0,
    {
        let mut memory: Vec<Vec<u32>> = Vec::new();
        memory.push(Vec::new());
        UM { memory, registers: Vec::new(), program_counter: 0, queue: Vec::new() }
    }

    /// Install the program image: eight zeroed registers, the given words as
    /// segment 0, and the program counter at 0. On a fresh machine this
    /// establishes well-formedness.
    pub fn boot(&mut self, instructions_from_binary: &[u32])
        requires
            old(self)@.mem.len() >= 1,
            instructions_from_binary@.len() <= 0xFFFF_FFFF,
        ensures
            final(self)@.regs.len() == 8,
            forall|i: int| 0 <= i < 8 ==> final(self)@.regs[i] == 0,
            final(self)@.mem == old(self)@.mem.update(0, instructions_from_binary@),
            final(self)@.pc == 0,
            final(self)@.free == old(self)@.free,
            old(self)@.free.len() == 0 && old(self)@.mem.len() == 1 ==> final(self)@.wf(),
    {
        let mut regs: Vec<u32> = Vec::new();
        let mut i: usize = 0;
        while i < 8
            invariant
                regs@.len() == i,
                i <= 8,
                forall|j: int| 0 <= j < i ==> regs@[j] == 0,
            decreases 8 - i,
        {
            regs.push(0);
            i = i + 1;
        }
        self.registers = regs;
        self.memory[0] = vstd::slice::slice_to_vec(instructions_from_binary);
        self.program_counter = 0;
        proof {
            assert(self@.mem =~= old(self)@.mem.update(0, instructions_from_binary@));
        }
    }

    /// The instruction word that segment 0 holds at the program counter.
    pub fn fetch(&mut self) -> (r: u32)
        requires
            old(self)@.mem.len() >= 1,
            old(self)@.pc < old(self)@.mem[0].len(),
        ensures
            *final(self) == *old(self),
            r == old(self)@.mem[0][old(self)@.pc as int],
    {
        self.memory[0][self.program_counter as usize]
    }

    /// Fetch the instruction at the program counter from segment 0 and
    /// execute it. When the counter does not address a word of segment 0,
    /// the machine reports a memory-range fault and is left untouched; a
    /// step that returns an effect has therefore fetched from a mapped,
    /// non-empty segment 0.
    pub fn step(&mut self) -> (r: Result<Effect, Fault>)
        requires
            old(self)@.wf(),
        ensures
            final(self)@.wf(),
            (old(self)@.pc as int) < old(self)@.mem[0].len() ==> (final(self)@, r)
                == step_of(old(self)@, old(self)@.mem[0][old(self)@.pc as int]),
            (old(self)@.pc as int) >= old(self)@.mem[0].len() ==> r
                == Err::<Effect, Fault>(Fault::MemoryRange) && final(self)@ == old(self)@,
            r is Ok ==> old(self)@.mem[0].len() > 0,
    {
        if (self.program_counter as usize) < self.memory[0].len() {
            let inst = self.fetch();
            execute_instruction(self, inst)
        } else {
            Err(Fault::MemoryRange)
        }
    }

    /// Run the machine until an instruction halts, faults, or asks for host
    /// interaction — but at most `fuel` instructions. `None` means the
    /// budget ran out first; the machine can simply be run again.
    pub fn run(&mut self, fuel: u64) -> (r: Option<Result<Effect, Fault>>)
        requires
            old(self)@.wf(),
        ensures
            final(self)@.wf(),
            (final(self)@, r) == run_of(old(self)@, fuel as nat),
            r != Some(Ok::<Effect, Fault>(Effect::Continue)),
    {
        let mut remaining: u64 = fuel;
        while remaining > 0
            invariant
                self@.wf(),
                run_of(old(self)@, fuel as nat) == run_of(self@, remaining as nat),
            decreases remaining,
        {
            let r = self.step();
            remaining = remaining - 1;
            match r {
                Ok(Effect::Continue) => {}
                _ => {
                    return Some(r);
                }
            }
        }
        None
    }
}

/// The result of running at most `fuel` instructions from state `s`: the
/// state reached, and the first report that is not a plain continuation —
/// or nothing when the budget runs out first.
pub open spec fn run_of(s: MachineView, fuel: nat) -> (MachineView, Option<Result<Effect, Fault>>)
    decreases fuel,
{
    if fuel == 0 {
        (s, None)
    } else if (s.pc as int) >= s.mem[0].len() {
        (s, Some(Err(Fault::MemoryRange)))
    } else {
        let (s1, r) = step_of(s, s.mem[0][s.pc as int]);
        if r == Ok::<Effect, Fault>(Effect::Continue) {
            run_of(s1, (fuel - 1) as nat)
        } else {
            (s1, Some(r))
        }
    }
}

/// The 32-bit word that four bytes denote, most significant first.
pub open spec fn be_word(b0: u8, b1: u8, b2: u8, b3: u8) -> u32 {
    (b0 * 0x100_0000 + b1 * 0x1_0000 + b2 * 0x100 + b3) as u32
}

/// The words of a program image: each group of four bytes read as one
/// big-endian word; a trailing group of fewer than four bytes is discarded.
pub open spec fn words_of_bytes(bytes: Seq<u8>) -> Seq<u32> {
    Seq::new(bytes.len() / 4, |i: int| be_word(bytes[4 * i], bytes[4 * i + 1], bytes[4 * i + 2], bytes[4 * i + 3]))
}

/// Byte `k` of the big-endian form of a word, byte 0 the most significant.
pub open spec fn be_byte(w: u32, k: int) -> u8 {
    if k == 0 {
        (w / 0x100_0000) as u8
    } else if k == 1 {
        (w / 0x1_0000) as u8
    } else if k == 2 {
        (w / 0x100) as u8
    } else {
        w as u8
    }
}

/// The program image of a word sequence: word `i` occupies byte offsets
/// `4i` through `4i + 3`, most significant byte first.
pub open spec fn bytes_of_words(words: Seq<u32>) -> Seq<u8> {
    Seq::new(words.len() * 4, |i: int| be_byte(words[i / 4], i % 4))
}

/// Decode a program image into its words.
pub fn decode_program(bytes: &Vec<u8>) -> (words: Vec<u32>)
    ensures
        words@ == words_of_bytes(bytes@),
{
    let n = bytes.len() / 4;
    let mut words: Vec<u32> = Vec::new();
    let mut i: usize = 0;
    while i < n
        invariant
            n == bytes@.len() / 4,
            bytes@.len() <= usize::MAX,
            i <= n,
            words@.len() == i,
            forall|j: int| 0 <= j < i ==> words@[j] == words_of_bytes(bytes@)[j],
        decreases n - i,
    {
        proof {
            assert(4 * i + 3 < bytes@.len());
        }
        let b0 = bytes[4 * i] as u32;
        let b1 = bytes[4 * i + 1] as u32;
        let b2 = bytes[4 * i + 2] as u32;
        let b3 = bytes[4 * i + 3] as u32;
        words.push(b0 * 0x100_0000 + b1 * 0x1_0000 + b2 * 0x100 + b3);
        i = i + 1;
    }
    proof {
        assert(words@ =~= words_of_bytes(bytes@));
    }
    words
}

/// Encode a word sequence as its big-endian program image.
pub fn encode_program(words: &Vec<u32>) -> (bytes: Vec<u8>)
    ensures
        bytes@ == bytes_of_words(words@),
{
    let mut bytes: Vec<u8> = Vec::new();
    let mut i: usize = 0;
    while i < words.len()
        invariant
            i <= words@.len(),
            bytes@.len() == 4 * i,
            forall|j: int| 0 <= j < 4 * i ==> bytes@[j] == bytes_of_words(words@)[j],
        decreases words@.len() - i,
    {
        let w = words[i];
        proof {
            assert(w >> 24u32 == w / 0x100_0000u32 && w >> 16u32 == w / 0x1_0000u32
                && w >> 8u32 == w / 0x100u32) by (bit_vector);
        }
        bytes.push((w >> 24) as u8);
        bytes.push((w >> 16) as u8);
        bytes.push((w >> 8) as u8);
        bytes.push(w as u8);
        i = i + 1;
    }
    proof {
        assert(bytes@ =~= bytes_of_words(words@));
    }
    bytes
}

/// Law: encoding a word sequence as big-endian bytes and decoding the
/// bytes yields the original sequence.
pub proof fn lemma_program_round_trip(words: Seq<u32>)
    ensures
        words_of_bytes(bytes_of_words(words)) == words,
{
    let bytes = bytes_of_words(words);
    assert forall|i: int| 0 <= i < words.len() implies words_of_bytes(bytes)[i] == words[i] by {
        let w = words[i];
        assert(bytes[4 * i] == be_byte(w, 0) && bytes[4 * i + 1] == be_byte(w, 1)
            && bytes[4 * i + 2] == be_byte(w, 2) && bytes[4 * i + 3] == be_byte(w, 3));
        assert(((w / 0x100_0000u32) as u8 as u32) * 0x100_0000u32
            + ((w / 0x1_0000u32) as u8 as u32) * 0x1_0000u32
            + ((w / 0x100u32) as u8 as u32) * 0x100u32
            + (w as u8 as u32) == w) by (bit_vector);
    }
    assert(words_of_bytes(bytes) =~= words);
}


} // verus!
